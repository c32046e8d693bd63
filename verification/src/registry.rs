//! Remote registry manifests, the installed-skills ledger, and the
//! registry-client decisions: cache freshness, per-agent file lookup,
//! deterministic install paths, and the supersede discipline of the ledger.

use vstd::prelude::*;
use crate::agent::lower_seq;
use crate::agent::ascii_lower;
use crate::error::AppError;
use crate::external::cache_dir_string;
use crate::external::data_local_dir_string;
use crate::external::md5_hex;
use crate::external::md5_hex_of;
use crate::fsmodel::FsNode;
use crate::fsmodel::FsState;
use crate::paths::is_within;
use crate::text::str_eq;
use crate::urls::github_raw_spec;
use crate::urls::github_registry_spec;
use crate::urls::resolved_file_url_spec;
use crate::urls::convert_github_repo_to_registry;
use crate::urls::convert_github_url_to_raw;
use crate::urls::resolve_file_url;

verus! {

/// A skill available in a remote registry.
pub struct RemoteSkill {
    pub id: String,
    pub name: String,
    pub description: Option<String>,
    pub version: String,
    pub author: Option<String>,
    pub agents: Vec<String>,
    pub tags: Vec<String>,
    pub files: SkillFiles,
    pub url: Option<String>,
    pub checksum: Option<String>,
}

/// Agent-specific file references within a registry entry.
pub struct SkillFiles {
    pub quill: Option<String>,
    pub cursor: Option<String>,
    pub continue_dev: Option<String>,
    pub aider: Option<String>,
    pub windsurf: Option<String>,
}

/// A remote skill registry manifest.
pub struct SkillRegistry {
    pub version: String,
    pub name: String,
    pub description: Option<String>,
    pub url: String,
    pub skills: Vec<RemoteSkill>,
    pub last_updated: i64,
}

/// One row of the installed-skills ledger.
pub struct InstalledSkill {
    pub skill_id: String,
    pub registry_url: String,
    pub version: String,
    pub installed_path: String,
    pub agent: String,
    pub installed_at: i64,
}

impl Clone for InstalledSkill {
    fn clone(&self) -> (r: Self)
        ensures
            r == *self,
    {
        InstalledSkill {
            skill_id: self.skill_id.clone(),
            registry_url: self.registry_url.clone(),
            version: self.version.clone(),
            installed_path: self.installed_path.clone(),
            agent: self.agent.clone(),
            installed_at: self.installed_at,
        }
    }
}

/// Registry configuration.
pub struct RegistryConfig {
    pub url: String,
    pub name: String,
    pub enabled: bool,
    pub auth_token: Option<String>,
}

/// An available update, at the registry-client level.
pub struct SkillUpdate {
    pub skill_id: String,
    pub current_version: String,
    pub new_version: String,
    pub agent: String,
}

/// The per-agent file reference of a registry entry, by lower-cased agent
/// name; none when the skill does not support the agent.
pub open spec fn agent_file_ref(files: SkillFiles, l: Seq<char>) -> Option<Seq<char>> {
    let field = if l == "quill"@ {
        files.quill
    } else if l == "cursor"@ {
        files.cursor
    } else if l == "continuedev"@ || l == "continue"@ {
        files.continue_dev
    } else if l == "aider"@ {
        files.aider
    } else if l == "windsurf"@ || l == "codeium"@ {
        files.windsurf
    } else {
        None
    };
    match field {
        Some(f) => Some(f@),
        None => None,
    }
}

/// Does the lower-cased name denote an agent with a fixed install layout?
pub open spec fn known_install_agent(l: Seq<char>) -> bool {
    l == "quill"@ || l == "cursor"@ || l == "continuedev"@ || l == "continue"@ || l == "aider"@
        || l == "windsurf"@ || l == "codeium"@
}

/// The deterministic install path of a skill for a lower-cased agent name.
pub open spec fn install_path_spec(home: Seq<char>, l: Seq<char>, skill_id: Seq<char>) -> Seq<
    char,
> {
    if l == "quill"@ {
        home + "/.quill/skills/"@ + skill_id + "/skill.md"@
    } else if l == "cursor"@ {
        home + "/.cursor/skills/"@ + skill_id + "/skill.cursorrules"@
    } else if l == "continuedev"@ || l == "continue"@ {
        home + "/.continue/skills/"@ + skill_id + "/skill.json"@
    } else if l == "aider"@ {
        home + "/.aider/skills/"@ + skill_id + "/skill.txt"@
    } else {
        home + "/.codeium/skills/"@ + skill_id + "/skill.yaml"@
    }
}

/// Everything one install needs: where to download from, where to put the
/// bytes, the ledger row to record, and the ledger with that row recorded.
pub struct InstallPlan {
    pub download_url: String,
    pub dest_path: String,
    pub row: InstalledSkill,
    pub ledger: Vec<InstalledSkill>,
}

/// Two ledger rows describe the same (skill, agent) pair.
pub open spec fn same_install_key(a: InstalledSkill, b: InstalledSkill) -> bool {
    a.skill_id@ == b.skill_id@ && a.agent@ == b.agent@
}

/// At most one ledger row per (skill, agent) pair.
pub open spec fn unique_install_keys(s: Seq<InstalledSkill>) -> bool {
    forall|i: int, j: int| 0 <= i < j < s.len() ==> !same_install_key(s[i], s[j])
}

/// The ledger after recording one install: the new row stands last, any
/// prior row for its (skill, agent) pair is gone, every other row survives,
/// nothing else appears, and keys stay unique.
pub open spec fn ledger_superseded(
    r: Seq<InstalledSkill>,
    installed: Seq<InstalledSkill>,
    row: InstalledSkill,
) -> bool {
    &&& unique_install_keys(r)
    &&& r.len() >= 1
    &&& r[r.len() - 1] == row
    &&& forall|m: int| #![trigger r[m]]
        0 <= m < r.len() - 1 ==> (exists|j: int|
            0 <= j < installed.len() && r[m] == installed[j]) && !same_install_key(r[m], row)
    &&& forall|j: int|
        0 <= j < installed.len() && !same_install_key(#[trigger] installed[j], row) ==> exists|
            m: int,
        | 0 <= m < r.len() && r[m] == installed[j]
}

/// A cached manifest is served unconditionally within this window.
pub open spec fn cache_fresh(last_updated: int, now: int) -> bool {
    now - last_updated < 3600
}

/// What the registry client decides to do about one fetch.
pub enum FetchDecision {
    /// Serve this cached manifest; no network fetch happens.
    UseCache(SkillRegistry),
    /// Fetch the manifest text from this normalized URL.
    FetchFrom(String),
}

/// The registry client's pure decisions; the network and disk mirror lives
/// outside the crate.
pub struct RegistryService {
    cache_dir: String,
    installed_db_path: String,
}

impl RegistryService {
    pub closed spec fn cache_dir_spec(&self) -> Seq<char> {
        self.cache_dir@
    }

    pub closed spec fn ledger_path_spec(&self) -> Seq<char> {
        self.installed_db_path@
    }

    /// A client rooted in the platform's cache and data directories.
    pub fn new() -> (r: RegistryService) {
        let cache_base = match cache_dir_string() {
            Some(d) => d,
            None => String::from_str("."),
        };
        let data_base = match data_local_dir_string() {
            Some(d) => d,
            None => String::from_str("."),
        };
        RegistryService {
            cache_dir: cache_base.concat("/ai-skills-aggregator/registries"),
            installed_db_path: data_base.concat("/ai-skills-aggregator/installed-skills.json"),
        }
    }

    /// A client rooted at the given directories.
    pub fn new_in(cache_dir: String, installed_db_path: String) -> (r: RegistryService)
        ensures
            r.cache_dir_spec() == cache_dir@,
            r.ledger_path_spec() == installed_db_path@,
    {
        RegistryService { cache_dir, installed_db_path }
    }

    /// The cache file name of a registry URL: the first 16 hex digits of
    /// its MD5, with a `.json` suffix.
    pub fn url_to_filename(&self, url: &str) -> (r: String)
        ensures
            r@ == md5_hex_of(url@).take(16) + ".json"@,
    {
        let h = md5_hex(url);
        let mut r = String::from_str(h.as_str().substring_char(0, 16));
        r.append(".json");
        r
    }

    /// Decide how to serve one manifest request: a cached manifest whose
    /// stamp is within 3600 seconds of now is returned as it is and no
    /// fetch is issued; otherwise the source URL is normalized and fetched.
    pub fn fetch_plan(&self, cached: Option<SkillRegistry>, url: &str, now: i64) -> (r:
        FetchDecision)
        ensures
            match cached {
                Some(c) => {
                    &&& cache_fresh(c.last_updated as int, now as int) ==> r
                        == FetchDecision::UseCache(c)
                    &&& !cache_fresh(c.last_updated as int, now as int) ==> (
                    r matches FetchDecision::FetchFrom(u) && u@ == github_registry_spec(url@))
                },
                None => r matches FetchDecision::FetchFrom(u) && u@ == github_registry_spec(
                    url@,
                ),
            },
    {
        match cached {
            Some(c) => {
                if (now as i128) - (c.last_updated as i128) < 3600 {
                    FetchDecision::UseCache(c)
                } else {
                    FetchDecision::FetchFrom(convert_github_repo_to_registry(url))
                }
            },
            None => FetchDecision::FetchFrom(convert_github_repo_to_registry(url)),
        }
    }

    /// The agent-specific file reference of a remote skill, or none when
    /// the skill does not support the agent.
    pub fn get_agent_file(&self, skill: &RemoteSkill, agent: &str) -> (r: Option<String>)
        ensures
            match (r, agent_file_ref(skill.files, lower_seq(agent@))) {
                (Some(a), Some(b)) => a@ == b,
                (None, None) => true,
                _ => false,
            },
    {
        let l = ascii_lower(agent);
        let field: &Option<String> = if str_eq(l.as_str(), "quill") {
            &skill.files.quill
        } else if str_eq(l.as_str(), "cursor") {
            &skill.files.cursor
        } else if str_eq(l.as_str(), "continuedev") || str_eq(l.as_str(), "continue") {
            &skill.files.continue_dev
        } else if str_eq(l.as_str(), "aider") {
            &skill.files.aider
        } else if str_eq(l.as_str(), "windsurf") || str_eq(l.as_str(), "codeium") {
            &skill.files.windsurf
        } else {
            &None
        };
        match field {
            Some(f) => Some(f.clone()),
            None => None,
        }
    }

    /// The deterministic install path of a skill for an agent:
    /// `<home>/<agent-dot-dir>/skills/<skill-id>/skill.<default-ext>`.
    /// An unknown agent name fails `InvalidPath`.
    pub fn get_install_path(&self, home: &str, agent: &str, skill_id: &str) -> (r: Result<
        String,
        AppError,
    >)
        ensures
            r is Ok <==> known_install_agent(lower_seq(agent@)),
            r is Ok ==> r->Ok_0@ == install_path_spec(home@, lower_seq(agent@), skill_id@),
            r is Err ==> r->Err_0 is InvalidPath,
    {
        let l = ascii_lower(agent);
        if str_eq(l.as_str(), "quill") {
            let mut p = home.to_owned();
            p.append("/.quill/skills/");
            p.append(skill_id);
            p.append("/skill.md");
            Ok(p)
        } else if str_eq(l.as_str(), "cursor") {
            let mut p = home.to_owned();
            p.append("/.cursor/skills/");
            p.append(skill_id);
            p.append("/skill.cursorrules");
            Ok(p)
        } else if str_eq(l.as_str(), "continuedev") || str_eq(l.as_str(), "continue") {
            let mut p = home.to_owned();
            p.append("/.continue/skills/");
            p.append(skill_id);
            p.append("/skill.json");
            Ok(p)
        } else if str_eq(l.as_str(), "aider") {
            let mut p = home.to_owned();
            p.append("/.aider/skills/");
            p.append(skill_id);
            p.append("/skill.txt");
            Ok(p)
        } else if str_eq(l.as_str(), "windsurf") || str_eq(l.as_str(), "codeium") {
            let mut p = home.to_owned();
            p.append("/.codeium/skills/");
            p.append(skill_id);
            p.append("/skill.yaml");
            Ok(p)
        } else {
            Err(AppError::InvalidPath(agent.to_owned()))
        }
    }

    /// The index of the ledger row for a (skill, agent) pair.
    pub fn find_installation(&self, installed: &Vec<InstalledSkill>, skill_id: &str, agent: &str)
        -> (r: Option<usize>)
        ensures
            match r {
                Some(i) => i < installed@.len() && installed@[i as int].skill_id@ == skill_id@
                    && installed@[i as int].agent@ == agent@,
                None => forall|i: int|
                    0 <= i < installed@.len() ==> !((#[trigger] installed@[i]).skill_id@
                        == skill_id@ && installed@[i].agent@ == agent@),
            },
    {
        let n = installed.len();
        let mut i: usize = 0;
        while i < n
            invariant
                n == installed@.len(),
                i <= n,
                forall|k: int|
                    0 <= k < i ==> !((#[trigger] installed@[k]).skill_id@ == skill_id@
                        && installed@[k].agent@ == agent@),
            decreases n - i,
        {
            if str_eq(installed[i].skill_id.as_str(), skill_id) && str_eq(
                installed[i].agent.as_str(),
                agent,
            ) {
                return Some(i);
            }
            i += 1;
        }
        None
    }

    /// Record one installation: any prior row for the same (skill, agent)
    /// pair is removed, then the new row is appended — supersede, never
    /// accumulate.
    pub fn record_installation(&self, installed: Vec<InstalledSkill>, row: InstalledSkill) -> (r:
        Vec<InstalledSkill>)
        requires
            unique_install_keys(installed@),
        ensures
            ledger_superseded(r@, installed@, row),
    {
        let n = installed.len();
        let mut kept: Vec<InstalledSkill> = Vec::new();
        let mut i: usize = 0;
        while i < n
            invariant
                n == installed@.len(),
                unique_install_keys(installed@),
                i <= n,
                forall|m: int|
                    0 <= m < kept@.len() ==> !same_install_key(#[trigger] kept@[m], row),
                forall|m: int| #![trigger kept@[m]]
                    0 <= m < kept@.len() ==> exists|j: int|
                        0 <= j < i && kept@[m] == installed@[j],
                forall|j: int|
                    0 <= j < i && !same_install_key(#[trigger] installed@[j], row) ==> exists|
                        m: int,
                    | 0 <= m < kept@.len() && kept@[m] == installed@[j],
                unique_install_keys(kept@),
            decreases n - i,
        {
            let keep = !(str_eq(installed[i].skill_id.as_str(), row.skill_id.as_str()) && str_eq(
                installed[i].agent.as_str(),
                row.agent.as_str(),
            ));
            if keep {
                let ghost kept0 = kept@;
                kept.push(installed[i].clone());
                proof {
                    assert(kept@.drop_last() =~= kept0);
                    assert(kept@[kept@.len() - 1] == installed@[i as int]);
                    assert(unique_install_keys(kept@)) by {
                        assert forall|a: int, b: int|
                            0 <= a < b < kept@.len() implies !same_install_key(
                            kept@[a],
                            kept@[b],
                        ) by {
                            if b == kept@.len() - 1 {
                                let ja = choose|j: int|
                                    0 <= j < i && kept@[a] == #[trigger] installed@[j];
                                assert(!same_install_key(installed@[ja], installed@[i as int]));
                            }
                        }
                    }
                }
            }
            i += 1;
        }
        let ghost keptf = kept@;
        let mut kept = kept;
        kept.push(row);
        proof {
            assert(kept@.drop_last() =~= keptf);
            assert(kept@[kept@.len() - 1] == row);
            assert(unique_install_keys(kept@)) by {
                assert forall|a: int, b: int|
                    0 <= a < b < kept@.len() implies !same_install_key(kept@[a], kept@[b]) by {
                    if b == kept@.len() - 1 {
                        assert(!same_install_key(keptf[a], row));
                    }
                }
            }
            assert(ledger_superseded(kept@, installed@, row));
        }
        kept
    }

    /// Remove the ledger row of a (skill, agent) pair and its installed
    /// artifact; fails `NotFound` when no row matches, changing nothing.
    #[verifier::rlimit(100)]
    pub fn uninstall_skill(
        &self,
        fs: &mut FsState,
        installed: &Vec<InstalledSkill>,
        skill_id: &str,
        agent: &str,
    ) -> (r: Result<Vec<InstalledSkill>, AppError>)
        requires
            old(fs).wf(),
            unique_install_keys(installed@),
        ensures
            final(fs).wf(),
            match r {
                Ok(rest) => ledger_after_removal(rest@, installed@, skill_id@, agent@)
                    && uninstall_fs_effect(old(fs)@, final(fs)@, installed@, skill_id@, agent@),
                Err(e) => {
                    &&& e is NotFound
                    &&& final(fs)@ == old(fs)@
                    &&& no_install_row(installed@, skill_id@, agent@)
                },
            },
    {
        let idx = match self.find_installation(installed, skill_id, agent) {
            Some(i) => i,
            None => {
                proof {
                    assert(no_install_row(installed@, skill_id@, agent@));
                }
                return Err(AppError::NotFound(skill_id.to_owned()));
            },
        };
        fs.remove_subtree(installed[idx].installed_path.as_str());
        proof {
            let ii = idx as int;
            assert(uninstall_fs_effect(old(fs)@, fs@, installed@, skill_id@, agent@)) by {
                assert(0 <= ii < installed@.len() && installed@[ii].skill_id@ == skill_id@
                    && installed@[ii].agent@ == agent@ && (forall|k: Seq<char>|
                    #![trigger fs@.contains_key(k)]
                    #![trigger old(fs)@.contains_key(k)]
                    fs@.contains_key(k) <==> old(fs)@.contains_key(k) && !is_within(
                        k,
                        installed@[ii].installed_path@,
                    )) && (forall|k: Seq<char>| #[trigger]
                    fs@.contains_key(k) ==> fs@[k] == old(fs)@[k]));
            }
        }
        let n = installed.len();
        let mut rest: Vec<InstalledSkill> = Vec::new();
        let mut i: usize = 0;
        while i < n
            invariant
                n == installed@.len(),
                idx < n,
                unique_install_keys(installed@),
                installed@[idx as int].skill_id@ == skill_id@,
                installed@[idx as int].agent@ == agent@,
                i <= n,
                forall|m: int|
                    0 <= m < rest@.len() ==> !((#[trigger] rest@[m]).skill_id@ == skill_id@
                        && rest@[m].agent@ == agent@),
                forall|m: int| #![trigger rest@[m]]
                    0 <= m < rest@.len() ==> exists|j: int|
                        0 <= j < i && rest@[m] == installed@[j],
                forall|j: int|
                    0 <= j < i && !((#[trigger] installed@[j]).skill_id@ == skill_id@
                        && installed@[j].agent@ == agent@) ==> exists|m: int|
                        0 <= m < rest@.len() && rest@[m] == installed@[j],
                unique_install_keys(rest@),
            decreases n - i,
        {
            let keep = !(str_eq(installed[i].skill_id.as_str(), skill_id) && str_eq(
                installed[i].agent.as_str(),
                agent,
            ));
            if keep {
                let ghost rest0 = rest@;
                rest.push(installed[i].clone());
                proof {
                    assert(rest@.drop_last() =~= rest0);
                    assert(rest@[rest@.len() - 1] == installed@[i as int]);
                    assert(unique_install_keys(rest@)) by {
                        assert forall|a: int, b: int|
                            0 <= a < b < rest@.len() implies !same_install_key(
                            rest@[a],
                            rest@[b],
                        ) by {
                            if b == rest@.len() - 1 {
                                let ja = choose|j: int|
                                    0 <= j < i && rest@[a] == #[trigger] installed@[j];
                                assert(!same_install_key(installed@[ja], installed@[i as int]));
                            }
                        }
                    }
                }
            }
            i += 1;
        }
        proof {
            assert(no_install_row(rest@, skill_id@, agent@));
            assert(ledger_after_removal(rest@, installed@, skill_id@, agent@));
        }
        Ok(rest)
    }

    /// Plan one install: resolve the agent's file reference against the
    /// registry base to a raw download URL, fix the deterministic install
    /// path, and record the new ledger row, superseding any prior row for
    /// the same (skill, agent) pair. Fails `InvalidPath` exactly when the
    /// skill does not support the agent or the agent has no install layout.
    pub fn plan_install(
        &self,
        home: &str,
        skill: &RemoteSkill,
        registry_url: &str,
        agent: &str,
        installed: Vec<InstalledSkill>,
        now: i64,
    ) -> (r: Result<InstallPlan, AppError>)
        requires
            unique_install_keys(installed@),
        ensures
            ({
                let l = lower_seq(agent@);
                match r {
                    Ok(p) => {
                        &&& agent_file_ref(skill.files, l) is Some
                        &&& known_install_agent(l)
                        &&& p.download_url@ == github_raw_spec(
                            resolved_file_url_spec(
                                agent_file_ref(skill.files, l)->Some_0,
                                registry_url@,
                            ),
                        )
                        &&& p.dest_path@ == install_path_spec(home@, l, skill.id@)
                        &&& p.row.skill_id@ == skill.id@
                        &&& p.row.registry_url@ == registry_url@
                        &&& p.row.version@ == skill.version@
                        &&& p.row.installed_path@ == p.dest_path@
                        &&& p.row.agent@ == agent@
                        &&& p.row.installed_at == now
                        &&& ledger_superseded(p.ledger@, installed@, p.row)
                    },
                    Err(e) => {
                        &&& e is InvalidPath
                        &&& (agent_file_ref(skill.files, l) is None || !known_install_agent(l))
                    },
                }
            }),
    {
        let file_ref = match self.get_agent_file(skill, agent) {
            Some(f) => f,
            None => {
                return Err(AppError::InvalidPath(skill.id.clone()));
            },
        };
        let dest_path = match self.get_install_path(home, agent, skill.id.as_str()) {
            Ok(p) => p,
            Err(e) => {
                return Err(e);
            },
        };
        let resolved = resolve_file_url(file_ref.as_str(), registry_url);
        let download_url = convert_github_url_to_raw(resolved.as_str());
        let row = InstalledSkill {
            skill_id: skill.id.clone(),
            registry_url: registry_url.to_owned(),
            version: skill.version.clone(),
            installed_path: dest_path.clone(),
            agent: agent.to_owned(),
            installed_at: now,
        };
        let ledger = self.record_installation(installed, row.clone());
        Ok(InstallPlan { download_url, dest_path, row, ledger })
    }

    /// Check a fetched registry against the ledger: an update is reported
    /// for every installed row whose skill appears in the registry under a
    /// strictly newer three-segment numeric version. One canonical numeric
    /// comparison is used at every layer.
    pub fn check_updates(&self, registry: &SkillRegistry, installed: &Vec<InstalledSkill>) -> (r:
        Vec<SkillUpdate>)
        requires
            unique_install_keys(installed@),
        ensures
            forall|m: int|
                0 <= m < r@.len() ==> update_justified(
                    #[trigger] r@[m],
                    installed@,
                    registry.skills@,
                ),
            reg_updates_complete(r@, installed@, registry.skills@),
            forall|m1: int, m2: int|
                0 <= m1 < m2 < r@.len() ==> !(r@[m1].skill_id@ == r@[m2].skill_id@
                    && r@[m1].agent@ == r@[m2].agent@),
    {
        let mut updates: Vec<SkillUpdate> = Vec::new();
        let n = installed.len();
        let mut i: usize = 0;
        while i < n
            invariant
                n == installed@.len(),
                unique_install_keys(installed@),
                i <= n,
                forall|m: int|
                    0 <= m < updates@.len() ==> update_justified(
                        #[trigger] updates@[m],
                        installed@,
                        registry.skills@,
                    ),
                forall|m: int| #![trigger updates@[m]]
                    0 <= m < updates@.len() ==> exists|i2: int|
                        0 <= i2 < i && updates@[m].skill_id@ == installed@[i2].skill_id@
                            && updates@[m].agent@ == installed@[i2].agent@,
                forall|m1: int, m2: int|
                    0 <= m1 < m2 < updates@.len() ==> !(updates@[m1].skill_id@
                        == updates@[m2].skill_id@ && updates@[m1].agent@ == updates@[m2].agent@),
                forall|i2: int, j: int|
                    0 <= i2 < i && 0 <= j < registry.skills@.len() && (
                    #[trigger] registry.skills@[j]).id@ == (#[trigger] installed@[i2]).skill_id@
                        && (forall|j2: int|
                        0 <= j2 < j ==> registry.skills@[j2].id@ != installed@[i2].skill_id@)
                        && crate::version::version_lt(
                        installed@[i2].version@,
                        registry.skills@[j].version@,
                    ) ==> reg_update_listed(
                        updates@,
                        installed@[i2].skill_id@,
                        installed@[i2].agent@,
                        registry.skills@[j].version@,
                    ),
            decreases n - i,
        {
            let row = &installed[i];
            let k = registry.skills.len();
            let mut j: usize = 0;
            let mut found: Option<usize> = None;
            while j < k && found.is_none()
                invariant
                    n == installed@.len(),
                    i < n,
                    *row == installed@[i as int],
                    k == registry.skills@.len(),
                    j <= k,
                    match found {
                        Some(f) => f < k && registry.skills@[f as int].id@ == row.skill_id@ && (
                        forall|j2: int|
                            0 <= j2 < f ==> registry.skills@[j2].id@ != row.skill_id@),
                        None => forall|j2: int|
                            0 <= j2 < j ==> registry.skills@[j2].id@ != row.skill_id@,
                    },
                decreases k - j,
            {
                if str_eq(registry.skills[j].id.as_str(), row.skill_id.as_str()) {
                    found = Some(j);
                }
                j += 1;
            }
            match found {
                Some(f) => {
                    if crate::version::is_newer(
                        row.version.as_str(),
                        registry.skills[f].version.as_str(),
                    ) {
                        let ghost updates0 = updates@;
                        updates.push(
                            SkillUpdate {
                                skill_id: row.skill_id.clone(),
                                current_version: row.version.clone(),
                                new_version: registry.skills[f].version.clone(),
                                agent: row.agent.clone(),
                            },
                        );
                        proof {
                            assert(updates@.drop_last() =~= updates0);
                            assert(updates@ == updates0.push(updates@[updates@.len() - 1]));
                            let u = updates@[updates@.len() - 1];
                            assert(u.skill_id@ == installed@[i as int].skill_id@
                                && registry.skills@[f as int].id@
                                == installed@[i as int].skill_id@ && u.agent@
                                == installed@[i as int].agent@ && u.current_version@
                                == installed@[i as int].version@ && u.new_version@
                                == registry.skills@[f as int].version@
                                && crate::version::version_lt(
                                installed@[i as int].version@,
                                registry.skills@[f as int].version@,
                            ));
                            assert(update_justified(u, installed@, registry.skills@));
                            assert(reg_update_listed(
                                updates@,
                                installed@[i as int].skill_id@,
                                installed@[i as int].agent@,
                                registry.skills@[f as int].version@,
                            ));
                            assert forall|id: Seq<char>, ag: Seq<char>, nv: Seq<char>|
                                #![trigger reg_update_listed(updates0, id, ag, nv)]
                                reg_update_listed(updates0, id, ag, nv) implies reg_update_listed(
                                updates@,
                                id,
                                ag,
                                nv,
                            ) by {
                                lemma_reg_update_listed_push(updates0, u, id, ag, nv);
                            }
                            assert forall|m1: int, m2: int|
                                0 <= m1 < m2 < updates@.len() implies !(updates@[m1].skill_id@
                                == updates@[m2].skill_id@ && updates@[m1].agent@
                                == updates@[m2].agent@) by {
                                if m2 == updates@.len() - 1 {
                                    assert(updates@[m1] == updates0[m1]);
                                    let i2 = choose|i2: int|
                                        0 <= i2 < i && updates0[m1].skill_id@
                                            == installed@[i2].skill_id@ && updates0[m1].agent@
                                            == installed@[i2].agent@;
                                    assert(!same_install_key(
                                        installed@[i2],
                                        installed@[i as int],
                                    ));
                                }
                            }
                            assert forall|m: int|
                                0 <= m < updates@.len() implies update_justified(
                                #[trigger] updates@[m],
                                installed@,
                                registry.skills@,
                            ) by {
                                if m < updates@.len() - 1 {
                                    assert(updates@[m] == updates0[m]);
                                }
                            }
                        }
                    }
                },
                None => (),
            }
            proof {
                assert forall|j3: int|
                    0 <= j3 < registry.skills@.len() && (#[trigger] registry.skills@[j3]).id@
                        == installed@[i as int].skill_id@ && (forall|j2: int|
                        0 <= j2 < j3 ==> registry.skills@[j2].id@
                            != installed@[i as int].skill_id@) && crate::version::version_lt(
                        installed@[i as int].version@,
                        registry.skills@[j3].version@,
                    ) implies reg_update_listed(
                    updates@,
                    installed@[i as int].skill_id@,
                    installed@[i as int].agent@,
                    registry.skills@[j3].version@,
                ) by {
                    match found {
                        Some(f) => {
                            if j3 < f as int {
                                assert(registry.skills@[j3].id@
                                    != installed@[i as int].skill_id@);
                            } else if j3 > f as int {
                                assert(registry.skills@[f as int].id@
                                    != installed@[i as int].skill_id@);
                            }
                        },
                        None => {
                            assert(registry.skills@[j3].id@ != installed@[i as int].skill_id@);
                        },
                    }
                }
            }
            i += 1;
        }
        updates
    }
}

/// An update row is justified: some ledger row and some registry entry
/// share its skill id, and the registry's version is strictly newer.
pub open spec fn update_justified(
    u: SkillUpdate,
    installed: Seq<InstalledSkill>,
    skills: Seq<RemoteSkill>,
) -> bool {
    exists|i: int, j: int|
        0 <= i < installed.len() && 0 <= j < skills.len() && u.skill_id@ == (
        #[trigger] installed[i]).skill_id@ && (#[trigger] skills[j]).id@
            == installed[i].skill_id@ && u.agent@ == installed[i].agent@ && u.current_version@
            == installed[i].version@ && u.new_version@ == skills[j].version@
            && crate::version::version_lt(installed[i].version@, skills[j].version@)
}

/// The filesystem after uninstalling one (skill, agent) pair: the subtree
/// of the recorded installed path is gone, everything else survives
/// unchanged.
pub open spec fn uninstall_fs_effect(
    pre: Map<Seq<char>, FsNode>,
    post: Map<Seq<char>, FsNode>,
    installed: Seq<InstalledSkill>,
    skill_id: Seq<char>,
    agent: Seq<char>,
) -> bool {
    exists|w: int|
        #![trigger installed[w]]
        0 <= w < installed.len() && installed[w].skill_id@ == skill_id && installed[w].agent@
            == agent && (forall|k: Seq<char>|
            #![trigger post.contains_key(k)]
            #![trigger pre.contains_key(k)]
            post.contains_key(k) <==> pre.contains_key(k) && !is_within(
                k,
                installed[w].installed_path@,
            )) && (forall|k: Seq<char>| #[trigger]
            post.contains_key(k) ==> post[k] == pre[k])
}

/// Some update in the list names this (skill, agent) pair and version.
pub open spec fn reg_update_listed(
    updates: Seq<SkillUpdate>,
    skill_id: Seq<char>,
    agent: Seq<char>,
    new_version: Seq<char>,
) -> bool {
    exists|m: int|
        0 <= m < updates.len() && (#[trigger] updates[m]).skill_id@ == skill_id
            && updates[m].agent@ == agent && updates[m].new_version@ == new_version
}

/// Appending to the list keeps everything listed.
pub proof fn lemma_reg_update_listed_push(
    updates: Seq<SkillUpdate>,
    x: SkillUpdate,
    skill_id: Seq<char>,
    agent: Seq<char>,
    new_version: Seq<char>,
)
    requires
        reg_update_listed(updates, skill_id, agent, new_version),
    ensures
        reg_update_listed(updates.push(x), skill_id, agent, new_version),
{
    let m = choose|m: int|
        0 <= m < updates.len() && (#[trigger] updates[m]).skill_id@ == skill_id
            && updates[m].agent@ == agent && updates[m].new_version@ == new_version;
    assert(updates.push(x)[m] == updates[m]);
}

/// Every ledger row whose skill the registry carries (at its first entry
/// with that id) under a strictly newer version has an update in the list.
pub open spec fn reg_updates_complete(
    updates: Seq<SkillUpdate>,
    installed: Seq<InstalledSkill>,
    skills: Seq<RemoteSkill>,
) -> bool {
    forall|i: int, j: int|
        0 <= i < installed.len() && 0 <= j < skills.len() && (#[trigger] skills[j]).id@ == (
        #[trigger] installed[i]).skill_id@ && (forall|j2: int|
            0 <= j2 < j ==> skills[j2].id@ != installed[i].skill_id@) && crate::version::version_lt(
            installed[i].version@,
            skills[j].version@,
        ) ==> reg_update_listed(
            updates,
            installed[i].skill_id@,
            installed[i].agent@,
            skills[j].version@,
        )
}

/// The ledger after removing one (skill, agent) pair: no matching row is
/// left, every other row survives, nothing else appears, keys stay unique.
pub open spec fn ledger_after_removal(
    rest: Seq<InstalledSkill>,
    installed: Seq<InstalledSkill>,
    skill_id: Seq<char>,
    agent: Seq<char>,
) -> bool {
    &&& no_install_row(rest, skill_id, agent)
    &&& forall|m: int| #![trigger rest[m]]
        0 <= m < rest.len() ==> exists|j: int| 0 <= j < installed.len() && rest[m] == installed[j]
    &&& forall|j: int|
        0 <= j < installed.len() && !((#[trigger] installed[j]).skill_id@ == skill_id
            && installed[j].agent@ == agent) ==> exists|m: int|
            0 <= m < rest.len() && rest[m] == installed[j]
    &&& unique_install_keys(rest)
}

/// No ledger row matches the (skill, agent) pair.
pub open spec fn no_install_row(
    installed: Seq<InstalledSkill>,
    skill_id: Seq<char>,
    agent: Seq<char>,
) -> bool {
    forall|i: int|
        0 <= i < installed.len() ==> !((#[trigger] installed[i]).skill_id@ == skill_id
            && installed[i].agent@ == agent)
}

} // verus!
