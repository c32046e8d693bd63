//! Default content for newly created skill files, by agent and format.

use vstd::prelude::*;
use crate::agent::AgentType;
use crate::agent::SkillFormat;

verus! {

pub const QUILL_MD_TEMPLATE: &'static str = r#"# Skill Name

Brief description of what this skill does.

## Usage

When to use this skill and how it helps.

## Instructions

1. First instruction
2. Second instruction
3. Third instruction

## Examples

```
Example usage here
```

## Notes

- Additional notes
- Limitations or caveats
"#;

pub const QUILL_PY_TEMPLATE: &'static str = r#"#!/usr/bin/env python3
"""
Skill Name

Brief description of what this skill does.
"""

import sys

def main():
    """Main entry point for the skill."""
    # Your skill implementation here
    print("Hello from skill!")
    return 0

if __name__ == "__main__":
    sys.exit(main())
"#;

pub const CURSOR_TEMPLATE: &'static str = r#"# Cursor Rules

You are an expert assistant following these guidelines:

## Code Style
- Write clean, readable code
- Follow best practices
- Add meaningful comments

## Behavior
- Be concise and helpful
- Explain your reasoning
- Suggest improvements

## Restrictions
- Don't make assumptions
- Ask for clarification when needed
"#;

pub const CONTINUE_TEMPLATE: &'static str = r#"{
  "name": "Custom Skill",
  "version": "1.0.0",
  "description": "Brief description",
  "systemMessage": "You are a helpful assistant.",
  "contextProviders": [],
  "slashCommands": []
}
"#;

pub const AIDER_TEMPLATE: &'static str = r#"# Aider Configuration

model: gpt-4
edit-format: diff
auto-commits: true

# Custom settings
map-tokens: 1024
"#;

pub const AIDER_PROMPT_TEMPLATE: &'static str = r#"You are an expert developer. Follow these guidelines:

1. Write clean, maintainable code
2. Add tests for new features
3. Document complex logic
4. Follow project conventions
"#;

pub const GENERIC_MD_TEMPLATE: &'static str = r#"# Skill Name

## Description

What this skill does.

## Instructions

1. Step one
2. Step two
3. Step three
"#;

/// The default content for a new skill file of the given agent and format.
pub open spec fn template_spec(agent: &AgentType, format: &SkillFormat) -> Seq<char> {
    match (agent, format) {
        (AgentType::Quill, SkillFormat::Markdown) => QUILL_MD_TEMPLATE@,
        (AgentType::Quill, SkillFormat::Python) => QUILL_PY_TEMPLATE@,
        (AgentType::Cursor, SkillFormat::PlainText) => CURSOR_TEMPLATE@,
        (AgentType::Cursor, SkillFormat::Markdown) => CURSOR_TEMPLATE@,
        (AgentType::ContinueDev, SkillFormat::Json) => CONTINUE_TEMPLATE@,
        (AgentType::Aider, SkillFormat::Yaml) => AIDER_TEMPLATE@,
        (AgentType::Aider, SkillFormat::PlainText) => AIDER_PROMPT_TEMPLATE@,
        _ => GENERIC_MD_TEMPLATE@,
    }
}

/// Supplies default content for newly created skill files.
pub struct TemplateService;

impl TemplateService {
    /// The default content for the given agent and format.
    pub fn get_template(agent: &AgentType, format: &SkillFormat) -> (r: String)
        ensures
            r@ == template_spec(agent, format),
    {
        match (agent, format) {
            (AgentType::Quill, SkillFormat::Markdown) => String::from_str(QUILL_MD_TEMPLATE),
            (AgentType::Quill, SkillFormat::Python) => String::from_str(QUILL_PY_TEMPLATE),
            (AgentType::Cursor, SkillFormat::PlainText) => String::from_str(CURSOR_TEMPLATE),
            (AgentType::Cursor, SkillFormat::Markdown) => String::from_str(CURSOR_TEMPLATE),
            (AgentType::ContinueDev, SkillFormat::Json) => String::from_str(CONTINUE_TEMPLATE),
            (AgentType::Aider, SkillFormat::Yaml) => String::from_str(AIDER_TEMPLATE),
            (AgentType::Aider, SkillFormat::PlainText) => String::from_str(AIDER_PROMPT_TEMPLATE),
            _ => String::from_str(GENERIC_MD_TEMPLATE),
        }
    }
}

} // verus!
