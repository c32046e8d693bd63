//! The Content Store: create, read, update, delete, duplicate and rename of
//! skill files and folders, with name sanitization, a content policy, and
//! backup-before-mutate discipline.

use vstd::prelude::*;
use crate::agent::lower_char_spec;
use crate::agent::AgentType;
use crate::agent::SkillFormat;
use crate::error::AppError;
use crate::external::fresh_skill_id;
use crate::external::home_dir_string;
use crate::external::push_char;
use crate::fsmodel::FsNode;
use crate::fsmodel::FsState;
use crate::paths::basename_of;
use crate::paths::is_within;
use crate::paths::parent_of;
use crate::paths::path_basename;
use crate::paths::path_join;
use crate::paths::path_join_spec;
use crate::paths::path_parent;
use crate::paths::path_within;
use crate::paths::rebase;
use crate::skill::Skill;
use crate::skill::SkillFile;
use crate::templates::template_spec;
use crate::templates::TemplateService;
use crate::vault::backup_path_spec;
use crate::vault::BackupService;
use crate::text::str_eq;
use vstd::string::StringSliceAdditionalSpecFns;

verus! {

broadcast use vstd::utf8::char_is_scalar, vstd::utf8::char_u32_cast;

/// The sanitized form of one character: ASCII letters are lowered, digits,
/// `-` and `_` are kept, everything else becomes `-`.
pub open spec fn sanitized_char(c: char) -> char {
    if ('a' <= c && c <= 'z') || ('0' <= c && c <= '9') || c == '-' || c == '_' {
        c
    } else if 'A' <= c && c <= 'Z' {
        lower_char_spec(c)
    } else {
        '-'
    }
}

/// A name sanitized character by character.
pub open spec fn sanitize_spec(s: Seq<char>) -> Seq<char> {
    s.map_values(|c: char| sanitized_char(c))
}

/// The content policy: at most 1,000,000 bytes, and no NUL byte.
pub open spec fn content_ok(s: Seq<char>) -> bool {
    &&& vstd::utf8::encode_utf8(s).len() <= 1000000
    &&& !vstd::utf8::encode_utf8(s).contains(0u8)
}

/// The skills directory of one agent under the given home directory.
pub open spec fn agent_skills_dir_spec(home: Seq<char>, agent: AgentType) -> Seq<char> {
    match agent {
        AgentType::Quill => home + "/.quill/skills"@,
        AgentType::Cursor => home + "/.cursor/skills"@,
        AgentType::ContinueDev => home + "/.continue/skills"@,
        AgentType::Aider => home + "/.aider/prompts"@,
        AgentType::Windsurf => home + "/.codeium/skills"@,
        AgentType::Custom(n) => home + "/."@ + crate::agent::lower_seq(n@) + "/skills"@,
    }
}

/// Raw content and a basename, for hand-off to an external save dialog.
pub struct ExportData {
    pub filename: String,
    pub content: String,
}

/// The Content Store.
pub struct CrudService {
    backup: BackupService,
    home: Option<String>,
}

impl CrudService {
    /// The vault directory of the store's backup service.
    pub closed spec fn vault_dir(&self) -> Seq<char> {
        self.backup.vault_dir()
    }

    /// The home directory the store resolves agent directories against.
    pub closed spec fn home_dir(&self) -> Option<Seq<char>> {
        match self.home {
            Some(h) => Some(h@),
            None => None,
        }
    }

    /// A store over the platform's home directory and the default vault.
    pub fn new() -> (r: CrudService) {
        CrudService { backup: BackupService::new(), home: home_dir_string() }
    }

    /// A store over the given home directory and vault directory.
    pub fn new_in(home: String, backup_dir: String) -> (r: CrudService)
        ensures
            r.home_dir() == Some(home@),
            r.vault_dir() == backup_dir@,
    {
        CrudService { backup: BackupService::new_in(backup_dir), home: Some(home) }
    }

    /// Replace every character outside `[A-Za-z0-9_-]` with `-` and
    /// lower-case the rest.
    pub fn sanitize_filename(&self, name: &str) -> (r: String)
        ensures
            r@ == sanitize_spec(name@),
    {
        let n = name.unicode_len();
        let mut r = String::new();
        let mut i: usize = 0;
        while i < n
            invariant
                n == name@.len(),
                i <= n,
                r@ == sanitize_spec(name@.take(i as int)),
            decreases n - i,
        {
            let c = name.get_char(i);
            let sc: char = if ('a' <= c && c <= 'z') || ('0' <= c && c <= '9') || c == '-' || c
                == '_' {
                c
            } else if 'A' <= c && c <= 'Z' {
                proof {
                    vstd::utf8::char_is_scalar(c);
                }
                (((c as u32) + 32) as u8) as char
            } else {
                '-'
            };
            push_char(&mut r, sc);
            proof {
                assert(sc == sanitized_char(name@[i as int]));
                assert(r@ =~= sanitize_spec(name@.take(i + 1)));
            }
            i += 1;
        }
        proof {
            assert(name@.take(n as int) =~= name@);
        }
        r
    }

    /// Enforce the content policy: reject content over 1,000,000 bytes and
    /// content holding a NUL byte.
    pub fn validate_content(&self, content: &str) -> (r: Result<(), AppError>)
        ensures
            r is Ok <==> content_ok(content@),
            r is Err ==> r->Err_0 is InvalidPath,
    {
        if content.len() > 1000000 {
            return Err(AppError::InvalidPath(String::from_str("Content too large (max 1MB)")));
        }
        let bytes = content.as_bytes_vec();
        let n = bytes.len();
        let mut i: usize = 0;
        while i < n
            invariant
                n == bytes@.len(),
                bytes@ == content.spec_bytes(),
                i <= n,
                forall|k: int| 0 <= k < i ==> bytes@[k] != 0u8,
            decreases n - i,
        {
            if bytes[i] == 0 {
                return Err(AppError::InvalidPath(String::from_str("Binary content not allowed")));
            }
            i += 1;
        }
        assert(!content.spec_bytes().contains(0u8));
        Ok(())
    }

    /// The skills directory of `agent`; fails `InvalidPath` when no home
    /// directory is known.
    pub fn get_agent_skills_dir(&self, agent: &AgentType) -> (r: Result<String, AppError>)
        ensures
            r is Ok <==> self.home_dir() is Some,
            r is Ok ==> r->Ok_0@ == agent_skills_dir_spec(self.home_dir()->Some_0, *agent),
            r is Err ==> r->Err_0 is InvalidPath,
    {
        let home = match &self.home {
            Some(h) => h,
            None => {
                return Err(
                    AppError::InvalidPath(String::from_str("Cannot find home directory")),
                );
            },
        };
        let r = match agent {
            AgentType::Quill => home.as_str().to_owned().concat("/.quill/skills"),
            AgentType::Cursor => home.as_str().to_owned().concat("/.cursor/skills"),
            AgentType::ContinueDev => home.as_str().to_owned().concat("/.continue/skills"),
            AgentType::Aider => home.as_str().to_owned().concat("/.aider/prompts"),
            AgentType::Windsurf => home.as_str().to_owned().concat("/.codeium/skills"),
            AgentType::Custom(n) => {
                let lower = crate::agent::ascii_lower(n.as_str());
                let mut d = home.as_str().to_owned().concat("/.");
                d.append(lower.as_str());
                d.append("/skills");
                d
            },
        };
        Ok(r)
    }

    /// Create a new skill folder with its entry file `skill.<ext>`, filled
    /// with the given content or the agent's template. The skill name must
    /// be at least 2 bytes long, and the sanitized target must not exist;
    /// both violations fail `InvalidPath` and leave the state unchanged.
    pub fn create_skill(
        &self,
        fs: &mut FsState,
        name: &str,
        description: Option<String>,
        tags: Vec<String>,
        agent: &AgentType,
        format: &SkillFormat,
        content: Option<String>,
        now: i64,
    ) -> (r: Result<Skill, AppError>)
        requires
            old(fs).wf(),
        ensures
            final(fs).wf(),
            ({
                let home = self.home_dir()->Some_0;
                let folder = path_join_spec(
                    agent_skills_dir_spec(home, *agent),
                    sanitize_spec(name@),
                );
                let file = path_join_spec(folder, "skill."@ + format.ext_spec());
                let stored = match content {
                    Some(c) => c@,
                    None => template_spec(agent, format),
                };
                match r {
                    Ok(s) => {
                        &&& name@.len() >= 2
                        &&& self.home_dir() is Some
                        &&& !old(fs)@.contains_key(folder)
                        &&& final(fs)@ =~= old(fs)@.insert(
                            folder,
                            FsNode {
                                is_dir: true,
                                content: Seq::empty(),
                                modified_at: now as int,
                            },
                        ).insert(
                            file,
                            FsNode { is_dir: false, content: stored, modified_at: now as int },
                        )
                        &&& s.entry_file matches Some(e) && e@ == file
                        &&& s.file_count == 1
                        &&& s.files@.len() == 1
                        &&& s.files@[0].file_path@ == file
                        &&& s.files@[0].is_entry == true
                        &&& s.files@[0].name@ == "skill."@ + format.ext_spec()
                        &&& s.files@[0].size == (vstd::utf8::encode_utf8(stored).len() as usize) as u64
                        &&& s.name@ == name@
                        &&& s.folder_path@ == folder
                        &&& s.agent.eq_spec_fn(agent)
                        &&& s.description == description
                        &&& s.tags@ == tags@
                        &&& s.version matches Some(v) && v@ == "1.0.0"@
                        &&& s.is_local == true
                        &&& s.is_folder == true
                        &&& s.created_at == now && s.updated_at == now
                    },
                    Err(e) => {
                        &&& e is InvalidPath
                        &&& final(fs)@ == old(fs)@
                        &&& (name@.len() < 2 || self.home_dir() is None || (
                        self.home_dir() is Some && old(fs)@.contains_key(folder)))
                    },
                }
            }),
    {
        if name.unicode_len() < 2 {
            return Err(
                AppError::InvalidPath(
                    String::from_str("Skill name must be at least 2 characters"),
                ),
            );
        }
        let skills_dir = match self.get_agent_skills_dir(agent) {
            Ok(d) => d,
            Err(e) => {
                return Err(e);
            },
        };
        let sanitized = self.sanitize_filename(name);
        let folder = path_join(skills_dir.as_str(), sanitized.as_str());
        if fs.contains_path(folder.as_str()) {
            return Err(AppError::InvalidPath(folder));
        }
        let mut file_name = String::from_str("skill.");
        file_name.append(format.extension());
        let file_path = path_join(folder.as_str(), file_name.as_str());
        let stored: String = match &content {
            Some(c) => c.clone(),
            None => TemplateService::get_template(agent, format),
        };
        let size = stored.as_str().len() as u64;
        fs.put_dir(folder.clone(), now);
        fs.put_file(file_path.clone(), stored, now);
        let file = SkillFile {
            name: file_name,
            file_path: file_path.clone(),
            format: *format,
            is_entry: true,
            size,
        };
        let mut files: Vec<SkillFile> = Vec::new();
        files.push(file);
        Ok(
            Skill {
                id: fresh_skill_id(),
                name: name.to_owned(),
                description,
                folder_path: folder,
                agent: agent.clone(),
                files,
                entry_file: Some(file_path),
                tags,
                version: Some(String::from_str("1.0.0")),
                author: None,
                is_local: true,
                is_folder: true,
                file_count: 1,
                created_at: now,
                updated_at: now,
            },
        )
    }

    /// Create a new file inside an existing skill folder. The sanitized name
    /// gets the format's extension when it has none. Fails `FileNotFound`
    /// when the folder does not exist and `AlreadyExists` on a collision;
    /// the state is unchanged on failure.
    pub fn create_file(
        &self,
        fs: &mut FsState,
        skill_folder: &str,
        file_name: &str,
        format: &SkillFormat,
        content: Option<String>,
        now: i64,
    ) -> (r: Result<SkillFile, AppError>)
        requires
            old(fs).wf(),
        ensures
            final(fs).wf(),
            ({
                let sanitized = sanitize_spec(file_name@);
                let full = if sanitized.contains('.') {
                    sanitized
                } else {
                    sanitized + "."@ + format.ext_spec()
                };
                let path = path_join_spec(skill_folder@, full);
                let stored = match content {
                    Some(c) => c@,
                    None => Seq::<char>::empty(),
                };
                match r {
                    Ok(f) => {
                        &&& old(fs)@.contains_key(skill_folder@)
                        &&& !old(fs)@.contains_key(path)
                        &&& final(fs)@ =~= old(fs)@.insert(
                            path,
                            FsNode { is_dir: false, content: stored, modified_at: now as int },
                        )
                        &&& f.name@ == full
                        &&& f.file_path@ == path
                        &&& f.format == *format
                        &&& f.is_entry == false
                        &&& f.size == (vstd::utf8::encode_utf8(stored).len() as usize) as u64
                    },
                    Err(e) => {
                        &&& final(fs)@ == old(fs)@
                        &&& (e is FileNotFound <==> !old(fs)@.contains_key(skill_folder@))
                        &&& (e is AlreadyExists <==> old(fs)@.contains_key(skill_folder@)
                            && old(fs)@.contains_key(path))
                        &&& (e is FileNotFound || e is AlreadyExists)
                    },
                }
            }),
    {
        if !fs.contains_path(skill_folder) {
            return Err(AppError::FileNotFound(skill_folder.to_owned()));
        }
        let sanitized = self.sanitize_filename(file_name);
        let full_name = if crate::paths::str_contains_char(sanitized.as_str(), '.') {
            sanitized
        } else {
            let mut f = sanitized;
            push_char(&mut f, '.');
            f.append(format.extension());
            proof {
                reveal_strlit(".");
                assert(f@ =~= sanitize_spec(file_name@) + "."@ + format.ext_spec());
            }
            f
        };
        let path = path_join(skill_folder, full_name.as_str());
        if fs.contains_path(path.as_str()) {
            return Err(AppError::AlreadyExists(path));
        }
        let stored: String = match content {
            Some(c) => c,
            None => String::new(),
        };
        let size = stored.as_str().len() as u64;
        fs.put_file(path.clone(), stored, now);
        Ok(SkillFile { name: full_name, file_path: path, format: *format, is_entry: false, size })
    }

    /// Read a file's content; a missing path or a directory fails `IoError`.
    pub fn read_content(&self, fs: &FsState, file_path: &str) -> (r: Result<String, AppError>)
        requires
            fs.wf(),
        ensures
            r is Ok <==> (fs@.contains_key(file_path@) && !fs@[file_path@].is_dir),
            r is Ok ==> r->Ok_0@ == fs@[file_path@].content,
            r is Err ==> r->Err_0 is IoError,
    {
        match fs.get_entry(file_path) {
            Some(e) => {
                if e.is_dir {
                    Err(AppError::IoError(file_path.to_owned()))
                } else {
                    Ok(e.content.clone())
                }
            },
            None => Err(AppError::IoError(file_path.to_owned())),
        }
    }

    /// Update a file's content. The policy is checked strictly before any
    /// write: content over 1,000,000 bytes or holding a NUL byte fails
    /// `InvalidPath` and the target is never touched. When a prior version
    /// exists and a backup is requested, the vault snapshots it first.
    pub fn update_content(
        &self,
        fs: &mut FsState,
        file_path: &str,
        content: &str,
        create_backup: bool,
        now: i64,
    ) -> (r: Result<(), AppError>)
        requires
            old(fs).wf(),
            now >= 0,
        ensures
            final(fs).wf(),
            r is Ok <==> content_ok(content@),
            r is Err ==> r->Err_0 is InvalidPath && final(fs)@ == old(fs)@,
            r is Ok ==> final(fs)@ =~= (if create_backup && old(fs)@.contains_key(file_path@) {
                old(fs)@.insert(
                    self.vault_dir(),
                    FsNode { is_dir: true, content: Seq::empty(), modified_at: now as int },
                ).insert(
                    backup_path_spec(self.vault_dir(), now as int, file_path@),
                    FsNode {
                        is_dir: old(fs)@[file_path@].is_dir,
                        content: old(fs)@[file_path@].content,
                        modified_at: now as int,
                    },
                )
            } else {
                old(fs)@
            }).insert(
                file_path@,
                FsNode { is_dir: false, content: content@, modified_at: now as int },
            ),
    {
        match self.validate_content(content) {
            Ok(_) => (),
            Err(e) => {
                return Err(e);
            },
        }
        if create_backup && fs.contains_path(file_path) {
            match self.backup.backup_file(fs, file_path, now) {
                Ok(_) => (),
                Err(_) => {
                    proof {
                        assert(false);
                    }
                },
            }
        }
        fs.put_file(file_path.to_owned(), content.to_owned(), now);
        Ok(())
    }

    /// Delete a whole skill folder (or single file), snapshotting it into
    /// the vault first; if the backup cannot be taken, nothing is deleted.
    pub fn delete_skill(&self, fs: &mut FsState, folder_path: &str, now: i64) -> (r: Result<
        (),
        AppError,
    >)
        requires
            old(fs).wf(),
            now >= 0,
        ensures
            final(fs).wf(),
            ({
                let bp = backup_path_spec(self.vault_dir(), now as int, folder_path@);
                match r {
                    Ok(_) => {
                        &&& old(fs)@.contains_key(folder_path@)
                        &&& forall|k: Seq<char>|
                            is_within(k, folder_path@) ==> !final(fs)@.contains_key(k)
                        &&& forall|k0: Seq<char>|
                            old(fs)@.contains_key(k0) && is_within(k0, folder_path@) ==> {
                                let kr = #[trigger] rebase(k0, folder_path@, bp);
                                &&& final(fs)@.contains_key(kr)
                                &&& final(fs)@[kr].is_dir == old(fs)@[k0].is_dir
                                &&& final(fs)@[kr].content == old(fs)@[k0].content
                                &&& final(fs)@[kr].modified_at == now as int
                            }
                        &&& forall|k: Seq<char>| #[trigger]
                            old(fs)@.contains_key(k) && !is_within(k, folder_path@) && !is_within(
                                k,
                                bp,
                            ) && k != self.vault_dir() ==> final(fs)@.contains_key(k)
                                && final(fs)@[k] == old(fs)@[k]
                    },
                    Err(e) => {
                        &&& e is FileNotFound || e is IoError
                        &&& (e is FileNotFound <==> !old(fs)@.contains_key(folder_path@))
                        &&& (e is IoError <==> old(fs)@.contains_key(folder_path@) && (is_within(
                            bp,
                            folder_path@,
                        ) || is_within(folder_path@, bp)))
                        &&& final(fs)@ == old(fs)@
                    },
                }
            }),
    {
        if !fs.contains_path(folder_path) {
            return Err(AppError::FileNotFound(folder_path.to_owned()));
        }
        let bp = match self.backup.backup_folder(fs, folder_path, now) {
            Ok(p) => p,
            Err(e) => {
                return Err(e);
            },
        };
        let ghost mid = fs@;
        fs.remove_subtree(folder_path);
        proof {
            assert forall|k0: Seq<char>|
                old(fs)@.contains_key(k0) && is_within(k0, folder_path@) implies {
                let kr = rebase(k0, folder_path@, bp@);
                &&& fs@.contains_key(kr)
                &&& fs@[kr].is_dir == old(fs)@[k0].is_dir
                &&& fs@[kr].content == old(fs)@[k0].content
                &&& fs@[kr].modified_at == now as int
            } by {
                let kr = rebase(k0, folder_path@, bp@);
                crate::fsmodel::lemma_rebase_within(k0, folder_path@, bp@);
                assert(mid.contains_key(kr));
                assert(mid[kr].is_dir == old(fs)@[k0].is_dir);
                assert(mid[kr].content == old(fs)@[k0].content);
                assert(mid[kr].modified_at == now as int);
                crate::fsmodel::lemma_rebase_escapes(k0, folder_path@, bp@);
                assert(!is_within(kr, folder_path@));
                assert(fs@.contains_key(kr));
                assert(fs@[kr] == mid[kr]);
            }
        }
        Ok(())
    }

    /// Delete a single file, snapshotting it into the vault first.
    pub fn delete_file(&self, fs: &mut FsState, file_path: &str, now: i64) -> (r: Result<
        (),
        AppError,
    >)
        requires
            old(fs).wf(),
            now >= 0,
        ensures
            final(fs).wf(),
            match r {
                Ok(_) => {
                    &&& old(fs)@.contains_key(file_path@)
                    &&& final(fs)@ =~= old(fs)@.insert(
                        self.vault_dir(),
                        FsNode { is_dir: true, content: Seq::empty(), modified_at: now as int },
                    ).insert(
                        backup_path_spec(self.vault_dir(), now as int, file_path@),
                        FsNode {
                            is_dir: old(fs)@[file_path@].is_dir,
                            content: old(fs)@[file_path@].content,
                            modified_at: now as int,
                        },
                    ).remove(file_path@)
                },
                Err(e) => {
                    &&& e is FileNotFound
                    &&& !old(fs)@.contains_key(file_path@)
                    &&& final(fs)@ == old(fs)@
                },
            },
    {
        if !fs.contains_path(file_path) {
            return Err(AppError::FileNotFound(file_path.to_owned()));
        }
        match self.backup.backup_file(fs, file_path, now) {
            Ok(_) => (),
            Err(_) => {
                proof {
                    assert(false);
                }
            },
        }
        fs.remove_path(file_path);
        Ok(())
    }

    /// Copy a skill folder recursively to a sibling named by the sanitized
    /// new name, returning the new path. Fails `FileNotFound` when the
    /// source does not exist, `AlreadyExists` when the destination slot is
    /// taken, and `InvalidPath` when the destination would lie inside the
    /// source.
    pub fn duplicate_skill(&self, fs: &mut FsState, source_path: &str, new_name: &str, now: i64)
        -> (r: Result<String, AppError>)
        requires
            old(fs).wf(),
        ensures
            final(fs).wf(),
            ({
                let dest = path_join_spec(parent_of(source_path@), sanitize_spec(new_name@));
                match r {
                    Ok(d) => {
                        &&& d@ == dest
                        &&& old(fs)@.contains_key(source_path@)
                        &&& forall|k: Seq<char>| #[trigger]
                            old(fs)@.contains_key(k) ==> final(fs)@.contains_key(k)
                                && final(fs)@[k] == old(fs)@[k]
                        &&& forall|k0: Seq<char>|
                            old(fs)@.contains_key(k0) && is_within(k0, source_path@) ==> {
                                let kr = #[trigger] rebase(k0, source_path@, dest);
                                &&& final(fs)@.contains_key(kr)
                                &&& final(fs)@[kr].is_dir == old(fs)@[k0].is_dir
                                &&& final(fs)@[kr].content == old(fs)@[k0].content
                            }
                        &&& forall|k: Seq<char>| #[trigger]
                            final(fs)@.contains_key(k) ==> old(fs)@.contains_key(k) || is_within(
                                k,
                                dest,
                            )
                    },
                    Err(e) => {
                        &&& e is FileNotFound || e is AlreadyExists || e is InvalidPath
                        &&& (e is FileNotFound <==> !old(fs)@.contains_key(source_path@))
                        &&& (e is AlreadyExists <==> old(fs)@.contains_key(source_path@)
                            && !crate::fsmodel::map_subtree_vacant(old(fs)@, dest))
                        &&& (e is InvalidPath <==> old(fs)@.contains_key(source_path@)
                            && crate::fsmodel::map_subtree_vacant(old(fs)@, dest) && is_within(
                            dest,
                            source_path@,
                        ))
                        &&& final(fs)@ == old(fs)@
                    },
                }
            }),
    {
        if !fs.contains_path(source_path) {
            return Err(AppError::FileNotFound(source_path.to_owned()));
        }
        let parent = path_parent(source_path);
        let sanitized = self.sanitize_filename(new_name);
        let dest = path_join(parent.as_str(), sanitized.as_str());
        if !fs.subtree_vacant(dest.as_str()) {
            return Err(AppError::AlreadyExists(dest));
        }
        if path_within(dest.as_str(), source_path) {
            return Err(AppError::InvalidPath(dest));
        }
        fs.copy_subtree(source_path, dest.as_str(), now);
        Ok(dest)
    }

    /// Move a skill folder to a sibling named by the sanitized new name,
    /// returning the new path. Failure cases are as for duplication.
    pub fn rename_skill(&self, fs: &mut FsState, folder_path: &str, new_name: &str, now: i64)
        -> (r: Result<String, AppError>)
        requires
            old(fs).wf(),
        ensures
            final(fs).wf(),
            ({
                let dest = path_join_spec(parent_of(folder_path@), sanitize_spec(new_name@));
                match r {
                    Ok(d) => {
                        &&& d@ == dest
                        &&& old(fs)@.contains_key(folder_path@)
                        &&& forall|k: Seq<char>|
                            is_within(k, folder_path@) ==> !final(fs)@.contains_key(k)
                        &&& forall|k0: Seq<char>|
                            old(fs)@.contains_key(k0) && is_within(k0, folder_path@) ==> {
                                let kr = #[trigger] rebase(k0, folder_path@, dest);
                                &&& final(fs)@.contains_key(kr)
                                &&& final(fs)@[kr].is_dir == old(fs)@[k0].is_dir
                                &&& final(fs)@[kr].content == old(fs)@[k0].content
                            }
                        &&& forall|k: Seq<char>| #[trigger]
                            old(fs)@.contains_key(k) && !is_within(k, folder_path@)
                                ==> final(fs)@.contains_key(k) && final(fs)@[k] == old(fs)@[k]
                    },
                    Err(e) => {
                        &&& e is FileNotFound || e is AlreadyExists || e is InvalidPath
                        &&& (e is FileNotFound <==> !old(fs)@.contains_key(folder_path@))
                        &&& (e is AlreadyExists <==> old(fs)@.contains_key(folder_path@)
                            && !crate::fsmodel::map_subtree_vacant(old(fs)@, dest))
                        &&& (e is InvalidPath <==> old(fs)@.contains_key(folder_path@)
                            && crate::fsmodel::map_subtree_vacant(old(fs)@, dest) && is_within(
                            dest,
                            folder_path@,
                        ))
                        &&& final(fs)@ == old(fs)@
                    },
                }
            }),
    {
        if !fs.contains_path(folder_path) {
            return Err(AppError::FileNotFound(folder_path.to_owned()));
        }
        let parent = path_parent(folder_path);
        let sanitized = self.sanitize_filename(new_name);
        let dest = path_join(parent.as_str(), sanitized.as_str());
        if !fs.subtree_vacant(dest.as_str()) {
            return Err(AppError::AlreadyExists(dest));
        }
        if path_within(dest.as_str(), folder_path) {
            return Err(AppError::InvalidPath(dest));
        }
        fs.copy_subtree(folder_path, dest.as_str(), now);
        let ghost mid = fs@;
        fs.remove_subtree(folder_path);
        proof {
            assert forall|k0: Seq<char>|
                old(fs)@.contains_key(k0) && is_within(k0, folder_path@) implies {
                let kr = rebase(k0, folder_path@, dest@);
                &&& fs@.contains_key(kr)
                &&& fs@[kr].is_dir == old(fs)@[k0].is_dir
                &&& fs@[kr].content == old(fs)@[k0].content
            } by {
                let kr = rebase(k0, folder_path@, dest@);
                crate::fsmodel::lemma_rebase_within(k0, folder_path@, dest@);
                assert(mid.contains_key(kr));
                assert(mid[kr].is_dir == old(fs)@[k0].is_dir);
                assert(mid[kr].content == old(fs)@[k0].content);
                assert(!is_within(folder_path@, dest@)) by {
                    assert(old(fs)@.contains_key(folder_path@));
                }
                crate::fsmodel::lemma_rebase_escapes(k0, folder_path@, dest@);
                assert(!is_within(kr, folder_path@));
                assert(fs@.contains_key(kr));
                assert(fs@[kr] == mid[kr]);
            }
        }
        Ok(dest)
    }

    /// The raw content of a file together with its basename, for an
    /// external save dialog.
    pub fn export_skill(&self, fs: &FsState, file_path: &str) -> (r: Result<ExportData, AppError>)
        requires
            fs.wf(),
        ensures
            r is Ok <==> (fs@.contains_key(file_path@) && !fs@[file_path@].is_dir),
            r is Ok ==> r->Ok_0.content@ == fs@[file_path@].content && r->Ok_0.filename@ == (
            if basename_of(file_path@).len() == 0 {
                "skill.md"@
            } else {
                basename_of(file_path@)
            }),
            r is Err ==> r->Err_0 is IoError,
    {
        let content = match self.read_content(fs, file_path) {
            Ok(c) => c,
            Err(e) => {
                return Err(e);
            },
        };
        let base = path_basename(file_path);
        let filename = if base.as_str().unicode_len() == 0 {
            String::from_str("skill.md")
        } else {
            base
        };
        Ok(ExportData { filename, content })
    }
}

} // verus!
