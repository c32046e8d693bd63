use skillsync::agent::AgentType;
use skillsync::agent::SkillFormat;
use skillsync::error::AppError;
use skillsync::fsmodel::FsState;
use skillsync::registry::InstalledSkill;
use skillsync::registry::RegistryService;
use skillsync::registry::RemoteSkill;
use skillsync::registry::SkillFiles;
use skillsync::registry::SkillRegistry;
use skillsync::registry::FetchDecision;
use skillsync::scanner::SkillService;
use skillsync::store::CrudService;
use skillsync::update::SkippedVersion;
use skillsync::update::UpdateService;
use skillsync::vault::BackupService;

fn store() -> CrudService {
    CrudService::new_in(String::from("/home/u"), String::from("/home/u/.vault"))
}

fn remote(id: &str, version: &str) -> RemoteSkill {
    RemoteSkill {
        id: id.to_string(),
        name: format!("{} skill", id),
        description: None,
        version: version.to_string(),
        author: None,
        agents: vec!["quill".to_string()],
        tags: Vec::new(),
        files: SkillFiles {
            quill: Some("skills/demo/skill.md".to_string()),
            cursor: None,
            continue_dev: None,
            aider: None,
            windsurf: None,
        },
        url: None,
        checksum: None,
    }
}

fn registry_with(id: &str, version: &str) -> SkillRegistry {
    SkillRegistry {
        version: "1".to_string(),
        name: "reg".to_string(),
        description: None,
        url: "https://example.com/registry.json".to_string(),
        skills: vec![remote(id, version)],
        last_updated: 0,
    }
}

fn installed_row(id: &str, version: &str, agent: &str) -> InstalledSkill {
    InstalledSkill {
        skill_id: id.to_string(),
        registry_url: "https://example.com/registry.json".to_string(),
        version: version.to_string(),
        installed_path: format!("/home/u/.quill/skills/{}/skill.md", id),
        agent: agent.to_string(),
        installed_at: 100,
    }
}

#[test]
fn create_skill_entry_and_count() {
    let s = store();
    let mut fs = FsState::new();
    let skill = s
        .create_skill(
            &mut fs,
            "My Skill",
            Some("desc".to_string()),
            vec!["tag".to_string()],
            &AgentType::Quill,
            &SkillFormat::Markdown,
            Some("# hello\n".to_string()),
            1000,
        )
        .unwrap();
    assert_eq!(skill.file_count, 1);
    assert_eq!(skill.files.len(), 1);
    assert_eq!(
        skill.entry_file.as_deref(),
        Some(skill.files[0].file_path.as_str())
    );
    assert_eq!(
        skill.folder_path,
        "/home/u/.quill/skills/my-skill".to_string()
    );
    assert_eq!(skill.files[0].file_path, "/home/u/.quill/skills/my-skill/skill.md");
    assert_eq!(skill.version.as_deref(), Some("1.0.0"));
    assert_eq!(skill.id.len(), 36);
}

#[test]
fn create_skill_short_name_rejected() {
    let s = store();
    let mut fs = FsState::new();
    let r = s.create_skill(
        &mut fs,
        "x",
        None,
        Vec::new(),
        &AgentType::Quill,
        &SkillFormat::Markdown,
        None,
        0,
    );
    assert!(matches!(r, Err(AppError::InvalidPath(_))));
}

#[test]
fn create_skill_collision_rejected() {
    let s = store();
    let mut fs = FsState::new();
    s.create_skill(&mut fs, "demo", None, Vec::new(), &AgentType::Quill, &SkillFormat::Markdown, None, 0)
        .unwrap();
    let r = s.create_skill(
        &mut fs,
        "demo",
        None,
        Vec::new(),
        &AgentType::Quill,
        &SkillFormat::Markdown,
        None,
        0,
    );
    assert!(matches!(r, Err(AppError::InvalidPath(_))));
}

#[test]
fn update_content_rejects_nul_and_leaves_target_alone() {
    let s = store();
    let mut fs = FsState::new();
    fs.put_file("/home/u/.quill/f.md".to_string(), "old".to_string(), 5);
    let r = s.update_content(&mut fs, "/home/u/.quill/f.md", "bad\0byte", true, 10);
    assert!(matches!(r, Err(AppError::InvalidPath(_))));
    let c = s.read_content(&fs, "/home/u/.quill/f.md").unwrap();
    assert_eq!(c, "old");
}

#[test]
fn update_content_rejects_oversize() {
    let s = store();
    let mut fs = FsState::new();
    let big = "a".repeat(1_000_001);
    let r = s.update_content(&mut fs, "/home/u/.quill/f.md", &big, false, 10);
    assert!(matches!(r, Err(AppError::InvalidPath(_))));
}

#[test]
fn update_content_writes_and_backs_up() {
    let s = store();
    let mut fs = FsState::new();
    fs.put_file("/home/u/.quill/f.md".to_string(), "old".to_string(), 5);
    s.update_content(&mut fs, "/home/u/.quill/f.md", "new", true, 10).unwrap();
    assert_eq!(s.read_content(&fs, "/home/u/.quill/f.md").unwrap(), "new");
    assert_eq!(
        s.read_content(&fs, "/home/u/.vault/10_f.md").unwrap(),
        "old"
    );
}

#[test]
fn version_compare_is_numeric_not_lexicographic() {
    let u = UpdateService;
    assert_eq!(u.compare_versions("1.2.0", "1.10.0"), -1);
    assert_eq!(u.compare_versions("1.10.0", "1.2.0"), 1);
    assert_eq!(u.compare_versions("1.2.0", "1.2"), 0);
    assert!(u.is_newer("1.2.0", "1.10.0"));
    assert!(u.is_major_update("1.9.0", "2.0.0"));
    assert!(!u.is_major_update("1.9.0", "1.10.0"));
    assert_eq!(u.compare_versions("v1.2.3", "1.2.3"), 0);
    assert_eq!(u.compare_versions("0001.2", "1.2.0"), 0);
}

#[test]
fn ledger_supersedes_on_reinstall() {
    let reg = RegistryService::new_in(".".to_string(), ".".to_string());
    let ledger = Vec::new();
    let ledger = reg.record_installation(ledger, installed_row("demo", "1.0.0", "quill"));
    assert_eq!(ledger.len(), 1);
    let ledger = reg.record_installation(ledger, installed_row("demo", "1.1.0", "quill"));
    let matching: Vec<_> = ledger
        .iter()
        .filter(|r| r.skill_id == "demo" && r.agent == "quill")
        .collect();
    assert_eq!(matching.len(), 1);
    assert_eq!(matching[0].version, "1.1.0");
}

#[test]
fn uninstall_missing_row_fails_not_found() {
    let reg = RegistryService::new_in(".".to_string(), ".".to_string());
    let mut fs = FsState::new();
    let ledger: Vec<InstalledSkill> = Vec::new();
    let r = reg.uninstall_skill(&mut fs, &ledger, "demo", "quill");
    assert!(matches!(r, Err(AppError::NotFound(_))));
}

#[test]
fn skipped_version_suppresses_then_later_version_updates() {
    let u = UpdateService;
    let skipped = u.skip_version(Vec::new(), "demo", "1.1.0", 50);
    assert_eq!(skipped.len(), 1);
    // skipping again is idempotent
    let skipped = u.skip_version(skipped, "demo", "1.1.0", 60);
    assert_eq!(skipped.len(), 1);

    let installed = vec![installed_row("demo", "1.0.0", "quill")];
    let ups = u.compute_registry_updates(&installed, &skipped, &registry_with("demo", "1.1.0"));
    assert_eq!(ups.len(), 0);
    let ups = u.compute_registry_updates(&installed, &skipped, &registry_with("demo", "1.2.0"));
    assert_eq!(ups.len(), 1);
    assert_eq!(ups[0].new_version, "1.2.0");
    assert_eq!(ups[0].skill_id, "demo");
    assert!(!ups[0].is_major);
}

#[test]
fn delete_folder_leaves_restorable_backup() {
    let s = store();
    let vault = BackupService::new_in("/home/u/.vault".to_string());
    let mut fs = FsState::new();
    fs.put_dir("/home/u/.quill/skills/demo".to_string(), 1);
    fs.put_file(
        "/home/u/.quill/skills/demo/skill.md".to_string(),
        "# entry content".to_string(),
        1,
    );
    fs.put_file("/home/u/.quill/skills/demo/a.md".to_string(), "a".to_string(), 1);
    fs.put_file("/home/u/.quill/skills/demo/b.md".to_string(), "b".to_string(), 1);
    s.delete_skill(&mut fs, "/home/u/.quill/skills/demo", 77).unwrap();
    assert!(!fs.contains_path("/home/u/.quill/skills/demo"));
    assert!(!fs.contains_path("/home/u/.quill/skills/demo/skill.md"));
    let backups = vault.list_backups(&fs, "demo");
    assert!(backups.len() >= 1);
    // the fresh snapshot is the most recent, so it is listed first
    assert_eq!(backups[0].path, "/home/u/.vault/77_demo");
    assert_eq!(backups[0].created_at, 77);
    // restore the entry file from the snapshot and compare the content
    let snap_entry = format!("{}/skill.md", backups[0].path);
    vault
        .restore_file(&mut fs, &snap_entry, "/home/u/.quill/skills/demo/skill.md", 99)
        .unwrap();
    let restored = s
        .read_content(&fs, "/home/u/.quill/skills/demo/skill.md")
        .unwrap();
    assert_eq!(restored, "# entry content");
}

#[test]
fn list_backups_most_recent_first() {
    let vault = BackupService::new_in("/v".to_string());
    let mut fs = FsState::new();
    fs.put_file("/data/f.md".to_string(), "one".to_string(), 1);
    vault.backup_file(&mut fs, "/data/f.md", 10).unwrap();
    fs.put_file("/data/f.md".to_string(), "two".to_string(), 2);
    vault.backup_file(&mut fs, "/data/f.md", 20).unwrap();
    let backups = vault.list_backups(&fs, "f.md");
    assert_eq!(backups.len(), 2);
    assert!(backups[0].created_at >= backups[1].created_at);
    assert_eq!(backups[0].name, "20_f.md");
}

#[test]
fn cleanup_removes_only_stale_backups() {
    let vault = BackupService::new_in("/v".to_string());
    let mut fs = FsState::new();
    fs.put_file("/v/100_old.md".to_string(), "x".to_string(), 100);
    fs.put_file("/v/900000_new.md".to_string(), "y".to_string(), 900_000);
    let removed = vault.cleanup_old_backups(&mut fs, 900_000);
    assert_eq!(removed, 1);
    assert!(!fs.contains_path("/v/100_old.md"));
    assert!(fs.contains_path("/v/900000_new.md"));
}

#[test]
fn rollback_restores_most_recent_snapshot() {
    let u = UpdateService;
    let reg = RegistryService::new_in(".".to_string(), ".".to_string());
    let vault = BackupService::new_in("/v".to_string());
    let mut fs = FsState::new();
    let path = "/home/u/.quill/skills/demo/skill.md";
    fs.put_file(path.to_string(), "v1".to_string(), 1);
    vault.backup_file(&mut fs, path, 10).unwrap();
    fs.put_file(path.to_string(), "v2".to_string(), 2);
    let installed = vec![installed_row("demo", "1.1.0", "quill")];
    u.rollback_skill(&mut fs, &vault, &reg, &installed, "demo", "quill", 30)
        .unwrap();
    let s = store();
    assert_eq!(s.read_content(&fs, path).unwrap(), "v1");
}

#[test]
fn fetch_plan_uses_fresh_cache_and_refetches_stale() {
    let reg = RegistryService::new_in(".".to_string(), ".".to_string());
    let mut cached = registry_with("demo", "1.0.0");
    cached.last_updated = 1000;
    match reg.fetch_plan(Some(cached), "https://example.com/registry.json", 1500) {
        FetchDecision::UseCache(c) => {
            assert_eq!(c.skills[0].version, "1.0.0");
            assert_eq!(c.last_updated, 1000);
        }
        FetchDecision::FetchFrom(_) => panic!("fresh cache must be served"),
    }
    let mut cached = registry_with("demo", "1.0.0");
    cached.last_updated = 1000;
    match reg.fetch_plan(Some(cached), "https://example.com/registry.json", 5000) {
        FetchDecision::UseCache(_) => panic!("stale cache must be refetched"),
        FetchDecision::FetchFrom(u) => assert_eq!(u, "https://example.com/registry.json"),
    }
}

#[test]
fn cache_key_is_md5_prefix() {
    let reg = RegistryService::new_in(".".to_string(), ".".to_string());
    // the MD5 of the empty string is d41d8cd98f00b204e9800998ecf8427e
    assert_eq!(reg.url_to_filename(""), "d41d8cd98f00b204.json");
}

#[test]
fn check_updates_reports_newer_versions_numerically() {
    let reg = RegistryService::new_in(".".to_string(), ".".to_string());
    let installed = vec![installed_row("demo", "1.2.0", "quill")];
    let ups = reg.check_updates(&registry_with("demo", "1.10.0"), &installed);
    assert_eq!(ups.len(), 1);
    assert_eq!(ups[0].new_version, "1.10.0");
    // an equal or older registry version yields nothing
    let ups = reg.check_updates(&registry_with("demo", "1.2.0"), &installed);
    assert_eq!(ups.len(), 0);
    let ups = reg.check_updates(&registry_with("demo", "1.1.9"), &installed);
    assert_eq!(ups.len(), 0);
}

#[test]
fn install_path_is_deterministic() {
    let reg = RegistryService::new_in(".".to_string(), ".".to_string());
    let p = reg.get_install_path("/home/u", "Quill", "demo").unwrap();
    assert_eq!(p, "/home/u/.quill/skills/demo/skill.md");
    let p = reg.get_install_path("/home/u", "aider", "demo").unwrap();
    assert_eq!(p, "/home/u/.aider/skills/demo/skill.txt");
    assert!(matches!(
        reg.get_install_path("/home/u", "emacs", "demo"),
        Err(AppError::InvalidPath(_))
    ));
}

#[test]
fn agent_file_lookup_is_case_insensitive() {
    let reg = RegistryService::new_in(".".to_string(), ".".to_string());
    let r = remote("demo", "1.0.0");
    assert_eq!(
        reg.get_agent_file(&r, "QUILL").as_deref(),
        Some("skills/demo/skill.md")
    );
    assert!(reg.get_agent_file(&r, "cursor").is_none());
    assert!(reg.get_agent_file(&r, "unknown").is_none());
}

#[test]
fn duplicate_skill_copies_folder() {
    let mut fs = FsState::new();
    fs.put_dir("/home/u/.quill/skills/demo".to_string(), 1);
    fs.put_file(
        "/home/u/.quill/skills/demo/skill.md".to_string(),
        "content".to_string(),
        1,
    );
    let copy = SkillService::duplicate_skill(&mut fs, "/home/u/.quill/skills/demo", "My Copy", 9)
        .unwrap();
    assert_eq!(copy.folder_path, "/home/u/.quill/skills/my-copy");
    assert!(copy.is_folder);
    assert!(fs.contains_path("/home/u/.quill/skills/my-copy/skill.md"));
    assert!(fs.contains_path("/home/u/.quill/skills/demo/skill.md"));
}

#[test]
fn plan_install_resolves_url_path_and_ledger() {
    let reg = RegistryService::new_in(".".to_string(), ".".to_string());
    let skill = remote("demo", "1.0.0");
    let ledger = vec![installed_row("demo", "0.9.0", "quill")];
    let plan = reg
        .plan_install(
            "/home/u",
            &skill,
            "https://example.com/registry.json",
            "quill",
            ledger,
            500,
        )
        .unwrap();
    assert_eq!(plan.download_url, "https://example.com/skills/demo/skill.md");
    assert_eq!(plan.dest_path, "/home/u/.quill/skills/demo/skill.md");
    assert_eq!(plan.row.version, "1.0.0");
    assert_eq!(plan.row.installed_at, 500);
    // the prior row for (demo, quill) is superseded, not accumulated
    let matching: Vec<_> = plan
        .ledger
        .iter()
        .filter(|r| r.skill_id == "demo" && r.agent == "quill")
        .collect();
    assert_eq!(matching.len(), 1);
    assert_eq!(matching[0].version, "1.0.0");
}

#[test]
fn plan_install_rejects_unsupported_agent() {
    let reg = RegistryService::new_in(".".to_string(), ".".to_string());
    let skill = remote("demo", "1.0.0");
    let r = reg.plan_install("/h", &skill, "https://example.com/registry.json", "cursor", Vec::new(), 0);
    assert!(matches!(r, Err(AppError::InvalidPath(_))));
    let r = reg.plan_install("/h", &skill, "https://example.com/registry.json", "emacs", Vec::new(), 0);
    assert!(matches!(r, Err(AppError::InvalidPath(_))));
}

#[test]
fn locate_update_target_finds_or_fails() {
    let registry = registry_with("demo", "1.2.0");
    let u = skillsync::update::SkillUpdate {
        skill_id: "demo".to_string(),
        skill_name: "demo skill".to_string(),
        current_version: "1.0.0".to_string(),
        new_version: "1.2.0".to_string(),
        agent: "quill".to_string(),
        registry_url: registry.url.clone(),
        changelog: None,
        is_major: false,
    };
    assert_eq!(UpdateService::locate_update_target(&registry, &u).unwrap(), 0);
    let gone = registry_with("other", "1.2.0");
    assert!(matches!(
        UpdateService::locate_update_target(&gone, &u),
        Err(AppError::NotFound(_))
    ));
}

#[test]
fn rollback_without_row_or_snapshot_fails_not_found() {
    let u = UpdateService;
    let reg = RegistryService::new_in(".".to_string(), ".".to_string());
    let vault = BackupService::new_in("/v".to_string());
    let mut fs = FsState::new();
    // no ledger row
    let r = u.rollback_skill(&mut fs, &vault, &reg, &Vec::new(), "demo", "quill", 1);
    assert!(matches!(r, Err(AppError::NotFound(_))));
    // a row but no snapshot
    let installed = vec![installed_row("demo", "1.0.0", "quill")];
    let r = u.rollback_skill(&mut fs, &vault, &reg, &installed, "demo", "quill", 1);
    assert!(matches!(r, Err(AppError::NotFound(_))));
}

#[test]
fn uninstall_removes_row_and_artifact() {
    let reg = RegistryService::new_in(".".to_string(), ".".to_string());
    let mut fs = FsState::new();
    let row = installed_row("demo", "1.0.0", "quill");
    fs.put_dir("/home/u/.quill/skills/demo".to_string(), 1);
    fs.put_file(row.installed_path.clone(), "x".to_string(), 1);
    let ledger = vec![row];
    let rest = reg.uninstall_skill(&mut fs, &ledger, "demo", "quill").unwrap();
    assert_eq!(rest.len(), 0);
    assert!(!fs.contains_path("/home/u/.quill/skills/demo/skill.md"));
}

#[test]
fn duplicate_and_rename_pin_their_errors() {
    let s = store();
    let mut fs = FsState::new();
    assert!(matches!(
        s.duplicate_skill(&mut fs, "/a/missing", "copy", 0),
        Err(AppError::FileNotFound(_))
    ));
    fs.put_dir("/a/src".to_string(), 0);
    fs.put_dir("/a/copy".to_string(), 0);
    assert!(matches!(
        s.duplicate_skill(&mut fs, "/a/src", "Copy", 0),
        Err(AppError::AlreadyExists(_))
    ));
    assert!(matches!(
        s.rename_skill(&mut fs, "/a/src", "Copy", 0),
        Err(AppError::AlreadyExists(_))
    ));
    let dest = s.rename_skill(&mut fs, "/a/src", "Moved Here", 5).unwrap();
    assert_eq!(dest, "/a/moved-here");
    assert!(!fs.contains_path("/a/src"));
    assert!(fs.contains_path("/a/moved-here"));
}

#[test]
fn delete_skill_overwrites_a_same_second_snapshot() {
    let s = store();
    let vault = BackupService::new_in("/home/u/.vault".to_string());
    let mut fs = FsState::new();
    fs.put_dir("/home/u/.quill/skills/demo".to_string(), 1);
    fs.put_file(
        "/home/u/.quill/skills/demo/skill.md".to_string(),
        "fresh".to_string(),
        1,
    );
    // a stale snapshot already occupies the exact vault slot
    fs.put_file("/home/u/.vault/9_demo".to_string(), "stale".to_string(), 1);
    s.delete_skill(&mut fs, "/home/u/.quill/skills/demo", 9).unwrap();
    assert!(!fs.contains_path("/home/u/.quill/skills/demo"));
    // the slot now holds the fresh snapshot, a folder with the entry file
    let snap_entry = "/home/u/.vault/9_demo/skill.md";
    vault
        .restore_file(&mut fs, snap_entry, "/tmp/restored.md", 10)
        .unwrap();
    assert_eq!(s.read_content(&fs, "/tmp/restored.md").unwrap(), "fresh");
}

#[test]
fn create_file_returns_the_requested_format() {
    let s = store();
    let mut fs = FsState::new();
    fs.put_dir("/a/demo".to_string(), 0);
    let f = s
        .create_file(&mut fs, "/a/demo", "notes", &SkillFormat::Yaml, None, 3)
        .unwrap();
    assert!(f.format == SkillFormat::Yaml);
    assert_eq!(f.name, "notes.yaml");
    assert_eq!(f.file_path, "/a/demo/notes.yaml");
}
