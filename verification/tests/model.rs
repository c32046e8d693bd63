use skillsync::agent::parse_agent;
use skillsync::agent::parse_format;
use skillsync::agent::AgentConfig;
use skillsync::agent::AgentType;
use skillsync::agent::SkillFormat;
use skillsync::fsmodel::FsState;
use skillsync::scanner::extract_description;
use skillsync::scanner::glob_matches;
use skillsync::scanner::SkillService;
use skillsync::skill::Skill;
use skillsync::store::CrudService;
use skillsync::templates::TemplateService;
use skillsync::templates::QUILL_MD_TEMPLATE;
use skillsync::templates::GENERIC_MD_TEMPLATE;
use skillsync::urls::convert_github_repo_to_registry;
use skillsync::urls::convert_github_url_to_raw;
use skillsync::urls::resolve_file_url;
use skillsync::skill::SkillFile;

#[test]
fn formats_from_extensions() {
    assert!(SkillFormat::from_extension("md") == SkillFormat::Markdown);
    assert!(SkillFormat::from_extension("MARKDOWN") == SkillFormat::Markdown);
    assert!(SkillFormat::from_extension("yml") == SkillFormat::Yaml);
    assert!(SkillFormat::from_extension("py") == SkillFormat::Python);
    assert!(SkillFormat::from_extension("weird") == SkillFormat::PlainText);
    assert_eq!(SkillFormat::Markdown.extension(), "md");
    assert_eq!(SkillFormat::PlainText.extension(), "txt");
}

#[test]
fn agents_from_names() {
    assert!(matches!(parse_agent("Quill"), Ok(AgentType::Quill)));
    assert!(matches!(parse_agent("CONTINUE"), Ok(AgentType::ContinueDev)));
    assert!(matches!(parse_agent("codeium"), Ok(AgentType::Windsurf)));
    match parse_agent("mytool") {
        Ok(AgentType::Custom(n)) => assert_eq!(n, "mytool"),
        _ => panic!("unknown agents become the open variant"),
    }
    assert!(matches!(parse_format("Markdown"), Ok(SkillFormat::Markdown)));
    assert!(matches!(parse_format("plaintext"), Ok(SkillFormat::PlainText)));
    assert!(parse_format("docx").is_err());
}

#[test]
fn sanitize_rewrites_and_lowers() {
    let s = CrudService::new_in("/h".to_string(), "/v".to_string());
    assert_eq!(s.sanitize_filename("My Skill!"), "my-skill-");
    assert_eq!(s.sanitize_filename("ok_name-2"), "ok_name-2");
}

#[test]
fn templates_by_agent_and_format() {
    let t = TemplateService::get_template(&AgentType::Quill, &SkillFormat::Markdown);
    assert_eq!(t, QUILL_MD_TEMPLATE);
    let t = TemplateService::get_template(&AgentType::Windsurf, &SkillFormat::Markdown);
    assert_eq!(t, GENERIC_MD_TEMPLATE);
}

#[test]
fn default_configs_cover_five_agents_one_enabled() {
    let cs = AgentConfig::defaults_for_home("/home/u");
    assert_eq!(cs.len(), 5);
    assert_eq!(cs.iter().filter(|c| c.enabled).count(), 1);
    assert!(cs[0].enabled);
    assert!(matches!(cs[0].agent, AgentType::Quill));
    assert_eq!(cs[0].config_dir, "/home/u/.quill");
    assert_eq!(cs[0].skills_dir.as_deref(), Some("/home/u/.quill/skills"));
}

#[test]
fn description_skips_blanks_and_headings() {
    assert_eq!(
        extract_description("# Title\n\n  hello world  \nmore\n").as_deref(),
        Some("hello world")
    );
    assert!(extract_description("# Title\n\n   \n").is_none());
    assert!(extract_description("").is_none());
    let long = format!("{}\n", "x".repeat(300));
    assert_eq!(extract_description(&long).unwrap().len(), 200);
}

#[test]
fn entry_precedence_prefers_skill_md_whatever_the_order() {
    let mut fs = FsState::new();
    fs.put_dir("/s/demo".to_string(), 1);
    // enumeration order puts the weaker candidates first
    fs.put_file("/s/demo/README.md".to_string(), "readme".to_string(), 1);
    fs.put_file("/s/demo/index.md".to_string(), "index".to_string(), 1);
    fs.put_file("/s/demo/skill.md".to_string(), "skill".to_string(), 1);
    let s = SkillService::parse_skill_folder(&fs, "/s/demo", &AgentType::Quill).unwrap();
    let entry: Vec<_> = s.files.iter().filter(|f| f.is_entry).collect();
    assert_eq!(entry.len(), 1);
    assert_eq!(entry[0].name, "skill.md");
    assert_eq!(s.entry_file.as_deref(), Some("/s/demo/skill.md"));
    // the entry comes first in the file list
    assert!(s.files[0].is_entry);
}

#[test]
fn entry_precedence_without_skill_md_chooses_some_candidate() {
    let mut fs = FsState::new();
    fs.put_dir("/s/demo".to_string(), 1);
    fs.put_file("/s/demo/index.md".to_string(), "index".to_string(), 1);
    fs.put_file("/s/demo/README.md".to_string(), "readme".to_string(), 1);
    let s = SkillService::parse_skill_folder(&fs, "/s/demo", &AgentType::Quill).unwrap();
    let entries: Vec<_> = s.files.iter().filter(|f| f.is_entry).collect();
    assert_eq!(entries.len(), 1);
    assert!(entries[0].name == "index.md" || entries[0].name == "README.md");
}

#[test]
fn folder_skill_collects_subdirectory_files() {
    let mut fs = FsState::new();
    fs.put_dir("/s/demo".to_string(), 7);
    fs.put_file("/s/demo/skill.md".to_string(), "body text\n".to_string(), 7);
    fs.put_dir("/s/demo/references".to_string(), 7);
    fs.put_file("/s/demo/references/r.md".to_string(), "ref".to_string(), 7);
    let s = SkillService::parse_skill_folder(&fs, "/s/demo", &AgentType::Quill).unwrap();
    assert_eq!(s.file_count, 2);
    assert_eq!(s.name, "demo");
    assert_eq!(s.description.as_deref(), Some("body text"));
    assert_eq!(s.created_at, 7);
    let deep = s.files.iter().find(|f| f.name == "r.md").unwrap();
    assert!(!deep.is_entry);
}

#[test]
fn single_file_skill_from_config_file() {
    let mut fs = FsState::new();
    fs.put_file("/home/u/.quill/QUILL.md".to_string(), "my rules\n".to_string(), 3);
    let s = SkillService::parse_single_file(&fs, "/home/u/.quill/QUILL.md", &AgentType::Quill)
        .unwrap();
    assert!(!s.is_folder);
    assert_eq!(s.file_count, 1);
    assert_eq!(s.name, "QUILL");
    assert_eq!(s.description.as_deref(), Some("my rules"));
    assert_eq!(s.entry_file.as_deref(), Some("/home/u/.quill/QUILL.md"));
}

#[test]
fn scan_finds_folder_and_loose_file_skills() {
    let mut fs = FsState::new();
    fs.put_dir("/home/u/.quill".to_string(), 1);
    fs.put_dir("/home/u/.quill/skills".to_string(), 1);
    fs.put_dir("/home/u/.quill/skills/demo".to_string(), 1);
    fs.put_file("/home/u/.quill/skills/demo/skill.md".to_string(), "d".to_string(), 1);
    fs.put_file("/home/u/.quill/QUILL.md".to_string(), "rules".to_string(), 1);
    fs.put_file("/home/u/.quill/notes.txt".to_string(), "not matched".to_string(), 1);
    let configs = AgentConfig::defaults_for_home("/home/u");
    let skills = SkillService::scan_all_skills(&fs, &configs).unwrap();
    // the folder skill, plus QUILL.md once per pattern it matches
    assert_eq!(skills.len(), 3);
    assert!(skills.iter().any(|s| s.is_folder && s.name == "demo"));
    assert!(skills.iter().any(|s| !s.is_folder && s.name == "QUILL"));
    assert!(!skills.iter().any(|s| s.name == "notes.txt"));
}

#[test]
fn files_are_ordered_entry_first_then_by_name() {
    let mut fs = FsState::new();
    fs.put_dir("/s/demo".to_string(), 1);
    fs.put_file("/s/demo/zeta.md".to_string(), "z".to_string(), 1);
    fs.put_file("/s/demo/skill.md".to_string(), "s".to_string(), 1);
    fs.put_file("/s/demo/alpha.md".to_string(), "a".to_string(), 1);
    let s = SkillService::parse_skill_folder(&fs, "/s/demo", &AgentType::Quill).unwrap();
    let names: Vec<&str> = s.files.iter().map(|f| f.name.as_str()).collect();
    assert_eq!(names, vec!["skill.md", "alpha.md", "zeta.md"]);
}

#[test]
fn glob_star_does_not_cross_directories() {
    assert!(glob_matches("*.md", "notes.md"));
    assert!(!glob_matches("*.md", "rules/notes.md"));
    assert!(glob_matches("rules/*.md", "rules/notes.md"));
    assert!(glob_matches(".cursorrules", ".cursorrules"));
    assert!(!glob_matches("*.md", "notes.txt"));
}

#[test]
fn github_urls_are_normalized() {
    assert_eq!(
        convert_github_url_to_raw("https://github.com/u/r/blob/main/file.md"),
        "https://raw.githubusercontent.com/u/r/main/file.md"
    );
    assert_eq!(
        convert_github_url_to_raw("https://example.com/file.md"),
        "https://example.com/file.md"
    );
    assert_eq!(
        convert_github_repo_to_registry("https://github.com/u/r"),
        "https://raw.githubusercontent.com/u/r/main/registry.json"
    );
    assert_eq!(
        convert_github_repo_to_registry("https://example.com/reg.json"),
        "https://example.com/reg.json"
    );
}

#[test]
fn relative_file_refs_resolve_against_the_registry() {
    assert_eq!(
        resolve_file_url("skills/demo.md", "https://example.com/r/registry.json"),
        "https://example.com/r/skills/demo.md"
    );
    assert_eq!(
        resolve_file_url("https://cdn.example.com/x.md", "https://example.com/r/registry.json"),
        "https://cdn.example.com/x.md"
    );
}

#[test]
fn new_folder_picks_first_entry() {
    let files = vec![
        SkillFile {
            name: "a.md".to_string(),
            file_path: "/p/a.md".to_string(),
            format: SkillFormat::Markdown,
            is_entry: false,
            size: 1,
        },
        SkillFile {
            name: "skill.md".to_string(),
            file_path: "/p/skill.md".to_string(),
            format: SkillFormat::Markdown,
            is_entry: true,
            size: 1,
        },
    ];
    let s = Skill::new_folder("demo".to_string(), "/p".to_string(), AgentType::Quill, files, 42);
    assert_eq!(s.entry_file.as_deref(), Some("/p/skill.md"));
    assert_eq!(s.file_count, 2);
    assert_eq!(s.created_at, 42);
    assert_eq!(s.id.len(), 36);
    assert!(s.is_folder);
}
