//! Agents (the assistant tools a skill targets), skill file formats, and the
//! per-agent scanning configuration.

use vstd::prelude::*;
use crate::external::home_dir_string;
use crate::external::push_char;
use crate::text::str_eq;

verus! {

/// The lowercase form of an ASCII letter; other characters are unchanged.
pub open spec fn lower_char_spec(c: char) -> char {
    if 'A' <= c && c <= 'Z' {
        (((c as u32) + 32) as u8) as char
    } else {
        c
    }
}

/// `s` lower-cased character by character (ASCII letters only).
pub open spec fn lower_seq(s: Seq<char>) -> Seq<char> {
    s.map_values(|c: char| lower_char_spec(c))
}

/// Lower-case the ASCII letters of `s`.
pub fn ascii_lower(s: &str) -> (r: String)
    ensures
        r@ == lower_seq(s@),
{
    let n = s.unicode_len();
    let mut r = String::new();
    let mut i: usize = 0;
    while i < n
        invariant
            n == s@.len(),
            i <= n,
            r@ == lower_seq(s@.take(i as int)),
        decreases n - i,
    {
        let c = s.get_char(i);
        let lc: char = if 'A' <= c && c <= 'Z' {
            proof {
                vstd::utf8::char_is_scalar(c);
            }
            (((c as u32) + 32) as u8) as char
        } else {
            c
        };
        push_char(&mut r, lc);
        proof {
            assert(lc == lower_char_spec(s@[i as int]));
            assert(r@ =~= lower_seq(s@.take(i + 1)));
        }
        i += 1;
    }
    proof {
        assert(s@.take(n as int) =~= s@);
    }
    r
}

/// A target assistant tool: a fixed set of known tools plus an open variant
/// carrying a custom name.
pub enum AgentType {
    Quill,
    Cursor,
    ContinueDev,
    Aider,
    Windsurf,
    Custom(String),
}

impl AgentType {
    /// Equality is by variant, and by name for the open variant.
    pub open spec fn eq_spec_fn(&self, o: &AgentType) -> bool {
        match (self, o) {
            (AgentType::Quill, AgentType::Quill) => true,
            (AgentType::Cursor, AgentType::Cursor) => true,
            (AgentType::ContinueDev, AgentType::ContinueDev) => true,
            (AgentType::Aider, AgentType::Aider) => true,
            (AgentType::Windsurf, AgentType::Windsurf) => true,
            (AgentType::Custom(a), AgentType::Custom(b)) => a@ == b@,
            _ => false,
        }
    }

    /// The display name of the agent.
    pub open spec fn name_spec(&self) -> Seq<char> {
        match self {
            AgentType::Quill => "Quill"@,
            AgentType::Cursor => "Cursor"@,
            AgentType::ContinueDev => "ContinueDev"@,
            AgentType::Aider => "Aider"@,
            AgentType::Windsurf => "Windsurf"@,
            AgentType::Custom(name) => name@,
        }
    }

    /// The display name of the agent.
    pub fn display_name(&self) -> (r: String)
        ensures
            r@ == self.name_spec(),
    {
        match self {
            AgentType::Quill => String::from_str("Quill"),
            AgentType::Cursor => String::from_str("Cursor"),
            AgentType::ContinueDev => String::from_str("ContinueDev"),
            AgentType::Aider => String::from_str("Aider"),
            AgentType::Windsurf => String::from_str("Windsurf"),
            AgentType::Custom(name) => name.clone(),
        }
    }
}

impl PartialEq for AgentType {
    fn eq(&self, o: &AgentType) -> (r: bool) {
        match (self, o) {
            (AgentType::Quill, AgentType::Quill) => true,
            (AgentType::Cursor, AgentType::Cursor) => true,
            (AgentType::ContinueDev, AgentType::ContinueDev) => true,
            (AgentType::Aider, AgentType::Aider) => true,
            (AgentType::Windsurf, AgentType::Windsurf) => true,
            (AgentType::Custom(a), AgentType::Custom(b)) => str_eq(a.as_str(), b.as_str()),
            _ => false,
        }
    }
}

impl vstd::std_specs::cmp::PartialEqSpecImpl for AgentType {
    open spec fn obeys_eq_spec() -> bool {
        true
    }

    open spec fn eq_spec(&self, o: &AgentType) -> bool {
        self.eq_spec_fn(o)
    }
}

impl Clone for AgentType {
    fn clone(&self) -> (r: Self)
        ensures
            r.eq_spec_fn(self),
    {
        match self {
            AgentType::Quill => AgentType::Quill,
            AgentType::Cursor => AgentType::Cursor,
            AgentType::ContinueDev => AgentType::ContinueDev,
            AgentType::Aider => AgentType::Aider,
            AgentType::Windsurf => AgentType::Windsurf,
            AgentType::Custom(name) => AgentType::Custom(name.clone()),
        }
    }
}

/// The format of a skill file, derived from its extension.
#[derive(Clone, Copy, PartialEq, Eq, Structural)]
pub enum SkillFormat {
    Markdown,
    Json,
    Yaml,
    Python,
    PlainText,
}

/// The format that a file extension denotes.
pub open spec fn format_from_ext_spec(ext: Seq<char>) -> SkillFormat {
    let l = lower_seq(ext);
    if l == "md"@ || l == "markdown"@ {
        SkillFormat::Markdown
    } else if l == "json"@ {
        SkillFormat::Json
    } else if l == "yaml"@ || l == "yml"@ {
        SkillFormat::Yaml
    } else if l == "py"@ {
        SkillFormat::Python
    } else {
        SkillFormat::PlainText
    }
}

impl SkillFormat {
    /// The canonical file extension of the format.
    pub open spec fn ext_spec(&self) -> Seq<char> {
        match self {
            SkillFormat::Markdown => "md"@,
            SkillFormat::Json => "json"@,
            SkillFormat::Yaml => "yaml"@,
            SkillFormat::Python => "py"@,
            SkillFormat::PlainText => "txt"@,
        }
    }

    /// Derive a format from a file extension, case-insensitively;
    /// an unknown extension is plain text.
    pub fn from_extension(ext: &str) -> (r: Self)
        ensures
            r == format_from_ext_spec(ext@),
    {
        let l = ascii_lower(ext);
        if str_eq(l.as_str(), "md") || str_eq(l.as_str(), "markdown") {
            SkillFormat::Markdown
        } else if str_eq(l.as_str(), "json") {
            SkillFormat::Json
        } else if str_eq(l.as_str(), "yaml") || str_eq(l.as_str(), "yml") {
            SkillFormat::Yaml
        } else if str_eq(l.as_str(), "py") {
            SkillFormat::Python
        } else {
            SkillFormat::PlainText
        }
    }

    /// The canonical file extension used when materializing new files.
    pub fn extension(&self) -> (r: &str)
        ensures
            r@ == self.ext_spec(),
    {
        match self {
            SkillFormat::Markdown => "md",
            SkillFormat::Json => "json",
            SkillFormat::Yaml => "yaml",
            SkillFormat::Python => "py",
            SkillFormat::PlainText => "txt",
        }
    }
}

/// Does the name denote one of the fixed agents?
pub open spec fn is_known_agent_name(s: Seq<char>) -> bool {
    let l = lower_seq(s);
    l == "quill"@ || l == "cursor"@ || l == "continuedev"@ || l == "continue"@ || l == "aider"@
        || l == "windsurf"@ || l == "codeium"@
}

/// The agent that the name `s` denotes, case-insensitively; an unknown name
/// denotes the open variant carrying the name as given.
pub open spec fn is_agent_for_name(s: Seq<char>, a: AgentType) -> bool {
    let l = lower_seq(s);
    if l == "quill"@ {
        a is Quill
    } else if l == "cursor"@ {
        a is Cursor
    } else if l == "continuedev"@ || l == "continue"@ {
        a is ContinueDev
    } else if l == "aider"@ {
        a is Aider
    } else if l == "windsurf"@ || l == "codeium"@ {
        a is Windsurf
    } else {
        a matches AgentType::Custom(n) && n@ == s
    }
}

/// Map a user-supplied agent name to an [`AgentType`]. Every name is
/// accepted: an unknown one becomes the open variant.
pub fn parse_agent(agent: &str) -> (r: Result<AgentType, String>)
    ensures
        r is Ok,
        is_agent_for_name(agent@, r->Ok_0),
{
    let l = ascii_lower(agent);
    if str_eq(l.as_str(), "quill") {
        Ok(AgentType::Quill)
    } else if str_eq(l.as_str(), "cursor") {
        Ok(AgentType::Cursor)
    } else if str_eq(l.as_str(), "continuedev") || str_eq(l.as_str(), "continue") {
        Ok(AgentType::ContinueDev)
    } else if str_eq(l.as_str(), "aider") {
        Ok(AgentType::Aider)
    } else if str_eq(l.as_str(), "windsurf") || str_eq(l.as_str(), "codeium") {
        Ok(AgentType::Windsurf)
    } else {
        Ok(AgentType::Custom(agent.to_owned()))
    }
}

/// The format that the name `s` denotes, case-insensitively; an unknown
/// name denotes no format.
pub open spec fn is_format_for_name(s: Seq<char>, r: Result<SkillFormat, String>) -> bool {
    let l = lower_seq(s);
    if l == "markdown"@ || l == "md"@ {
        r == Result::<SkillFormat, String>::Ok(SkillFormat::Markdown)
    } else if l == "json"@ {
        r == Result::<SkillFormat, String>::Ok(SkillFormat::Json)
    } else if l == "yaml"@ || l == "yml"@ {
        r == Result::<SkillFormat, String>::Ok(SkillFormat::Yaml)
    } else if l == "python"@ || l == "py"@ {
        r == Result::<SkillFormat, String>::Ok(SkillFormat::Python)
    } else if l == "text"@ || l == "txt"@ || l == "plaintext"@ {
        r == Result::<SkillFormat, String>::Ok(SkillFormat::PlainText)
    } else {
        r is Err
    }
}

/// Map a user-supplied format name to a [`SkillFormat`]; an unknown name is
/// rejected.
pub fn parse_format(format: &str) -> (r: Result<SkillFormat, String>)
    ensures
        is_format_for_name(format@, r),
{
    let l = ascii_lower(format);
    if str_eq(l.as_str(), "markdown") || str_eq(l.as_str(), "md") {
        Ok(SkillFormat::Markdown)
    } else if str_eq(l.as_str(), "json") {
        Ok(SkillFormat::Json)
    } else if str_eq(l.as_str(), "yaml") || str_eq(l.as_str(), "yml") {
        Ok(SkillFormat::Yaml)
    } else if str_eq(l.as_str(), "python") || str_eq(l.as_str(), "py") {
        Ok(SkillFormat::Python)
    } else if str_eq(l.as_str(), "text") || str_eq(l.as_str(), "txt") || str_eq(
        l.as_str(),
        "plaintext",
    ) {
        Ok(SkillFormat::PlainText)
    } else {
        let mut msg = String::from_str("Unknown format: ");
        msg.append(format);
        Err(msg)
    }
}

/// How one agent's skills are discovered: its configuration directory, an
/// optional dedicated skills directory, and glob patterns for loose
/// configuration files.
pub struct AgentConfig {
    pub agent: AgentType,
    pub name: String,
    pub config_dir: String,
    pub skills_dir: Option<String>,
    pub file_patterns: Vec<String>,
    pub enabled: bool,
}

/// The shape of the default configuration list for a given home directory:
/// five known agents, the first one enabled, the rest disabled.
pub open spec fn is_default_configs(cs: Seq<AgentConfig>, home: Seq<char>) -> bool {
    &&& cs.len() == 5
    &&& cs[0].agent == AgentType::Quill
    &&& cs[0].name@ == "Quill Code"@
    &&& cs[0].config_dir@ == home + "/.quill"@
    &&& cs[0].skills_dir matches Some(d) && d@ == home + "/.quill/skills"@
    &&& cs[0].file_patterns@.len() == 3
    &&& cs[0].file_patterns@[0]@ == "*.md"@
    &&& cs[0].file_patterns@[1]@ == "QUILL.md"@
    &&& cs[0].file_patterns@[2]@ == "rules/*.md"@
    &&& cs[0].enabled == true
    &&& cs[1].agent == AgentType::Cursor
    &&& cs[1].name@ == "Cursor"@
    &&& cs[1].config_dir@ == home + "/.cursor"@
    &&& cs[1].skills_dir is None
    &&& cs[1].file_patterns@.len() == 2
    &&& cs[1].file_patterns@[0]@ == ".cursorrules"@
    &&& cs[1].file_patterns@[1]@ == "*.cursorrules"@
    &&& cs[1].enabled == false
    &&& cs[2].agent == AgentType::ContinueDev
    &&& cs[2].name@ == "Continue.dev"@
    &&& cs[2].config_dir@ == home + "/.continue"@
    &&& cs[2].skills_dir is None
    &&& cs[2].file_patterns@.len() == 2
    &&& cs[2].file_patterns@[0]@ == "config.json"@
    &&& cs[2].file_patterns@[1]@ == "profiles/*.json"@
    &&& cs[2].enabled == false
    &&& cs[3].agent == AgentType::Aider
    &&& cs[3].name@ == "Aider"@
    &&& cs[3].config_dir@ == home + "/.aider"@
    &&& cs[3].skills_dir is None
    &&& cs[3].file_patterns@.len() == 2
    &&& cs[3].file_patterns@[0]@ == ".aider.conf.yml"@
    &&& cs[3].file_patterns@[1]@ == "*.txt"@
    &&& cs[3].enabled == false
    &&& cs[4].agent == AgentType::Windsurf
    &&& cs[4].name@ == "Windsurf/Codeium"@
    &&& cs[4].config_dir@ == home + "/.codeium"@
    &&& cs[4].skills_dir is None
    &&& cs[4].file_patterns@.len() == 2
    &&& cs[4].file_patterns@[0]@ == "*.yaml"@
    &&& cs[4].file_patterns@[1]@ == "*.json"@
    &&& cs[4].enabled == false
}

impl AgentConfig {
    /// The default configurations for the supported agents, rooted at the
    /// given home directory. Only the first is enabled by default.
    pub fn defaults_for_home(home: &str) -> (r: Vec<AgentConfig>)
        ensures
            is_default_configs(r@, home@),
    {
        let mut r: Vec<AgentConfig> = Vec::new();
        let mut pats: Vec<String> = Vec::new();
        pats.push(String::from_str("*.md"));
        pats.push(String::from_str("QUILL.md"));
        pats.push(String::from_str("rules/*.md"));
        r.push(
            AgentConfig {
                agent: AgentType::Quill,
                name: String::from_str("Quill Code"),
                config_dir: home.to_owned().concat("/.quill"),
                skills_dir: Some(home.to_owned().concat("/.quill/skills")),
                file_patterns: pats,
                enabled: true,
            },
        );
        let mut pats: Vec<String> = Vec::new();
        pats.push(String::from_str(".cursorrules"));
        pats.push(String::from_str("*.cursorrules"));
        r.push(
            AgentConfig {
                agent: AgentType::Cursor,
                name: String::from_str("Cursor"),
                config_dir: home.to_owned().concat("/.cursor"),
                skills_dir: None,
                file_patterns: pats,
                enabled: false,
            },
        );
        let mut pats: Vec<String> = Vec::new();
        pats.push(String::from_str("config.json"));
        pats.push(String::from_str("profiles/*.json"));
        r.push(
            AgentConfig {
                agent: AgentType::ContinueDev,
                name: String::from_str("Continue.dev"),
                config_dir: home.to_owned().concat("/.continue"),
                skills_dir: None,
                file_patterns: pats,
                enabled: false,
            },
        );
        let mut pats: Vec<String> = Vec::new();
        pats.push(String::from_str(".aider.conf.yml"));
        pats.push(String::from_str("*.txt"));
        r.push(
            AgentConfig {
                agent: AgentType::Aider,
                name: String::from_str("Aider"),
                config_dir: home.to_owned().concat("/.aider"),
                skills_dir: None,
                file_patterns: pats,
                enabled: false,
            },
        );
        let mut pats: Vec<String> = Vec::new();
        pats.push(String::from_str("*.yaml"));
        pats.push(String::from_str("*.json"));
        r.push(
            AgentConfig {
                agent: AgentType::Windsurf,
                name: String::from_str("Windsurf/Codeium"),
                config_dir: home.to_owned().concat("/.codeium"),
                skills_dir: None,
                file_patterns: pats,
                enabled: false,
            },
        );
        r
    }

    /// The default configurations, rooted at the platform's home directory
    /// (or at the empty path when none is known).
    pub fn defaults() -> (r: Vec<AgentConfig>)
        ensures
            exists|home: Seq<char>| is_default_configs(r@, home),
    {
        let home = match home_dir_string() {
            Some(h) => h,
            None => String::new(),
        };
        let r = Self::defaults_for_home(home.as_str());
        proof {
            assert(is_default_configs(r@, home@));
        }
        r
    }
}

} // verus!
