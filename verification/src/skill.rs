//! The Skill model: one unit of assistant configuration, either a folder of
//! files or a single file.

use vstd::prelude::*;
use crate::agent::AgentType;
use crate::agent::SkillFormat;
use crate::external::fresh_skill_id;

verus! {

/// One file inside a skill.
pub struct SkillFile {
    pub name: String,
    pub file_path: String,
    pub format: SkillFormat,
    pub is_entry: bool,
    pub size: u64,
}

impl Clone for SkillFile {
    fn clone(&self) -> (r: Self)
        ensures
            r == *self,
    {
        SkillFile {
            name: self.name.clone(),
            file_path: self.file_path.clone(),
            format: self.format,
            is_entry: self.is_entry,
            size: self.size,
        }
    }
}

/// The path of the first file marked as entry, if any.
pub open spec fn first_entry_path(fs: Seq<SkillFile>) -> Option<Seq<char>>
    decreases fs.len(),
{
    if fs.len() == 0 {
        None
    } else if fs[0].is_entry {
        Some(fs[0].file_path@)
    } else {
        first_entry_path(fs.skip(1))
    }
}

/// One unit of the catalog.
pub struct Skill {
    pub id: String,
    pub name: String,
    pub description: Option<String>,
    pub folder_path: String,
    pub agent: AgentType,
    pub files: Vec<SkillFile>,
    pub entry_file: Option<String>,
    pub tags: Vec<String>,
    pub version: Option<String>,
    pub author: Option<String>,
    pub is_local: bool,
    pub is_folder: bool,
    pub file_count: usize,
    pub created_at: i64,
    pub updated_at: i64,
}

impl Skill {
    /// Build a folder-based skill around the given files, stamped with the
    /// given creation time. The entry file is the first file marked as
    /// entry; the id is freshly drawn and carries no information.
    pub fn new_folder(
        name: String,
        folder_path: String,
        agent: AgentType,
        files: Vec<SkillFile>,
        now: i64,
    ) -> (r: Skill)
        ensures
            r.name@ == name@,
            r.folder_path@ == folder_path@,
            r.agent == agent,
            r.files@ == files@,
            r.description is None,
            match (r.entry_file, first_entry_path(files@)) {
                (Some(e), Some(p)) => e@ == p,
                (None, None) => true,
                _ => false,
            },
            r.tags@.len() == 0,
            r.version is None,
            r.author is None,
            r.is_local == true,
            r.is_folder == true,
            r.file_count == files@.len(),
            r.created_at == now && r.updated_at == now,
            r.id@.len() == 36,
    {
        let file_count = files.len();
        let mut entry_file: Option<String> = None;
        let mut found = false;
        let mut i: usize = 0;
        proof {
            assert(files@.skip(0) =~= files@);
        }
        while i < file_count && !found
            invariant
                file_count == files@.len(),
                i <= file_count,
                !found ==> entry_file is None && first_entry_path(files@) == first_entry_path(
                    files@.skip(i as int),
                ),
                found ==> match (entry_file, first_entry_path(files@)) {
                    (Some(e), Some(p)) => e@ == p,
                    _ => false,
                },
            decreases file_count - i,
        {
            proof {
                assert(files@.skip(i as int)[0] == files@[i as int]);
                assert(files@.skip(i as int).skip(1) =~= files@.skip(i + 1));
            }
            if files[i].is_entry {
                entry_file = Some(files[i].file_path.clone());
                found = true;
            }
            i += 1;
        }
        proof {
            if !found {
                assert(files@.skip(file_count as int).len() == 0);
            }
        }
        Skill {
            id: fresh_skill_id(),
            name,
            description: None,
            folder_path,
            agent,
            files,
            entry_file,
            tags: Vec::new(),
            version: None,
            author: None,
            is_local: true,
            is_folder: true,
            file_count,
            created_at: now,
            updated_at: now,
        }
    }

    /// Build a single-file skill, stamped with the given creation time: the
    /// one file is its own entry.
    pub fn new_single_file(
        name: String,
        file_path: String,
        agent: AgentType,
        format: SkillFormat,
        now: i64,
    ) -> (r: Skill)
        ensures
            r.name@ == name@,
            r.folder_path@ == file_path@,
            r.agent == agent,
            r.files@.len() == 1,
            r.files@[0].name@ == name@,
            r.files@[0].file_path@ == file_path@,
            r.files@[0].format == format,
            r.files@[0].is_entry == true,
            r.files@[0].size == 0,
            r.entry_file matches Some(e) && e@ == file_path@,
            r.description is None,
            r.tags@.len() == 0,
            r.version is None,
            r.author is None,
            r.is_local == true,
            r.is_folder == false,
            r.file_count == 1,
            r.created_at == now && r.updated_at == now,
            r.id@.len() == 36,
    {
        let file = SkillFile {
            name: name.clone(),
            file_path: file_path.clone(),
            format,
            is_entry: true,
            size: 0,
        };
        let mut files: Vec<SkillFile> = Vec::new();
        files.push(file);
        Skill {
            id: fresh_skill_id(),
            name,
            description: None,
            folder_path: file_path.clone(),
            agent,
            files,
            entry_file: Some(file_path),
            tags: Vec::new(),
            version: None,
            author: None,
            is_local: true,
            is_folder: false,
            file_count: 1,
            created_at: now,
            updated_at: now,
        }
    }
}

} // verus!
