//! The update engine: computing update sets against fetched registries,
//! skipping versions idempotently, and restoring the most recent backup.

use vstd::prelude::*;
use crate::error::AppError;
use crate::fsmodel::FsState;
use crate::paths::child_name;
use crate::paths::is_child_of;
use crate::paths::path_basename;
use crate::registry::InstalledSkill;
use crate::registry::RegistryService;
use crate::registry::SkillRegistry;
use crate::text::ends_with_spec;
use crate::text::str_eq;
use crate::vault::BackupService;
use crate::version;

verus! {

/// An available update, at the engine level.
pub struct SkillUpdate {
    pub skill_id: String,
    pub skill_name: String,
    pub current_version: String,
    pub new_version: String,
    pub agent: String,
    pub registry_url: String,
    pub changelog: Option<String>,
    pub is_major: bool,
}

/// The outcome of one update check.
pub struct UpdateCheckResult {
    pub available_updates: Vec<SkillUpdate>,
    pub last_checked: i64,
    pub error: Option<String>,
}

/// A persisted opt-out marker for one exact (skill, version) pair.
pub struct SkippedVersion {
    pub skill_id: String,
    pub version: String,
    pub skipped_at: i64,
}

impl Clone for SkippedVersion {
    fn clone(&self) -> (r: Self)
        ensures
            r == *self,
    {
        SkippedVersion {
            skill_id: self.skill_id.clone(),
            version: self.version.clone(),
            skipped_at: self.skipped_at,
        }
    }
}

/// The (skill, version) pair is in the skipped set.
pub open spec fn is_skipped(
    skipped: Seq<SkippedVersion>,
    skill_id: Seq<char>,
    ver: Seq<char>,
) -> bool {
    exists|i: int|
        0 <= i < skipped.len() && (#[trigger] skipped[i]).skill_id@ == skill_id
            && skipped[i].version@ == ver
}

/// An engine-level update is justified against a ledger, a skipped set and a
/// registry: some ledger row and registry entry share its skill id, the
/// remote version is strictly newer under three-segment numeric comparison,
/// that exact version is not skipped, and the major flag reflects the
/// leading segments.
pub open spec fn engine_update_justified(
    u: SkillUpdate,
    installed: Seq<InstalledSkill>,
    skipped: Seq<SkippedVersion>,
    reg: SkillRegistry,
) -> bool {
    exists|i: int, j: int|
        0 <= i < installed.len() && 0 <= j < reg.skills@.len() && u.skill_id@ == (
        #[trigger] installed[i]).skill_id@ && (#[trigger] reg.skills@[j]).id@
            == installed[i].skill_id@ && u.skill_name@ == reg.skills@[j].name@ && u.agent@
            == installed[i].agent@ && u.current_version@ == installed[i].version@
            && u.new_version@ == reg.skills@[j].version@ && u.registry_url@
            == installed[i].registry_url@ && version::version_lt(
            installed[i].version@,
            reg.skills@[j].version@,
        ) && !is_skipped(skipped, installed[i].skill_id@, reg.skills@[j].version@) && u.is_major
            == (version::version_seg_val(installed[i].version@, 0) < version::version_seg_val(
            reg.skills@[j].version@,
            0,
        ))
}

/// Some update in the list names this (skill, agent) pair and version.
pub open spec fn update_listed(
    updates: Seq<SkillUpdate>,
    skill_id: Seq<char>,
    agent: Seq<char>,
    new_version: Seq<char>,
) -> bool {
    exists|m: int|
        0 <= m < updates.len() && (#[trigger] updates[m]).skill_id@ == skill_id
            && updates[m].agent@ == agent && updates[m].new_version@ == new_version
}

/// Appending to the list keeps everything listed.
pub proof fn lemma_update_listed_push(
    updates: Seq<SkillUpdate>,
    x: SkillUpdate,
    skill_id: Seq<char>,
    agent: Seq<char>,
    new_version: Seq<char>,
)
    requires
        update_listed(updates, skill_id, agent, new_version),
    ensures
        update_listed(updates.push(x), skill_id, agent, new_version),
{
    let m = choose|m: int|
        0 <= m < updates.len() && (#[trigger] updates[m]).skill_id@ == skill_id
            && updates[m].agent@ == agent && updates[m].new_version@ == new_version;
    assert(updates.push(x)[m] == updates[m]);
}

/// Every ledger row whose skill the registry carries — at its first entry
/// with that id, as lookups by id go — under a strictly newer, unskipped
/// version has an update in the list.
pub open spec fn engine_updates_complete(
    updates: Seq<SkillUpdate>,
    installed: Seq<InstalledSkill>,
    skipped: Seq<SkippedVersion>,
    reg: SkillRegistry,
) -> bool {
    forall|i: int, j: int|
        0 <= i < installed.len() && 0 <= j < reg.skills@.len() && (#[trigger] reg.skills@[j]).id@
            == (#[trigger] installed[i]).skill_id@ && (forall|j2: int|
            0 <= j2 < j ==> reg.skills@[j2].id@ != installed[i].skill_id@)
            && version::version_lt(installed[i].version@, reg.skills@[j].version@) && !is_skipped(
            skipped,
            installed[i].skill_id@,
            reg.skills@[j].version@,
        ) ==> update_listed(
            updates,
            installed[i].skill_id@,
            installed[i].agent@,
            reg.skills@[j].version@,
        )
}

/// No vault snapshot's stored name ends with the given original name.
pub open spec fn no_snapshot_for(
    m: Map<Seq<char>, crate::fsmodel::FsNode>,
    vault: Seq<char>,
    name: Seq<char>,
) -> bool {
    forall|k: Seq<char>| #[trigger]
        m.contains_key(k) ==> !(is_child_of(k, vault) && ends_with_spec(
            child_name(k, vault),
            name,
        ))
}

/// Computes version diffs, applies skip markers, and restores backups.
pub struct UpdateService;

impl UpdateService {
    /// The three-segment numeric ordering of two version strings: negative
    /// when the first is older, zero when their first three numeric
    /// segments agree, positive when the first is newer.
    pub fn compare_versions(&self, current: &str, available: &str) -> (r: i8)
        ensures
            (r == -1) <==> version::version_lt(current@, available@),
            (r == 1) <==> version::version_lt(available@, current@),
            (r == 0) <==> version::version_eq(current@, available@),
    {
        version::compare_versions(current, available)
    }

    /// Is `available` strictly newer than `current`?
    pub fn is_newer(&self, current: &str, available: &str) -> (r: bool)
        ensures
            r == version::version_lt(current@, available@),
    {
        version::is_newer(current, available)
    }

    /// Is the leading numeric segment of `available` strictly greater?
    pub fn is_major_update(&self, current: &str, available: &str) -> (r: bool)
        ensures
            r == (version::version_seg_val(current@, 0) < version::version_seg_val(
                available@,
                0,
            )),
    {
        version::is_major_update(current, available)
    }

    /// Propose updates: for each ledger row, the registry's first entry with
    /// the row's skill id is consulted; an update is emitted when its version
    /// is strictly newer and that exact version has not been skipped. At most
    /// one update is emitted per (skill, agent) pair.
    pub fn compute_registry_updates(
        &self,
        installed: &Vec<InstalledSkill>,
        skipped: &Vec<SkippedVersion>,
        registry: &SkillRegistry,
    ) -> (r: Vec<SkillUpdate>)
        requires
            crate::registry::unique_install_keys(installed@),
        ensures
            forall|m: int|
                0 <= m < r@.len() ==> engine_update_justified(
                    #[trigger] r@[m],
                    installed@,
                    skipped@,
                    *registry,
                ),
            engine_updates_complete(r@, installed@, skipped@, *registry),
            forall|m1: int, m2: int|
                0 <= m1 < m2 < r@.len() ==> !(r@[m1].skill_id@ == r@[m2].skill_id@
                    && r@[m1].agent@ == r@[m2].agent@),
    {
        let mut updates: Vec<SkillUpdate> = Vec::new();
        let n = installed.len();
        let mut i: usize = 0;
        while i < n
            invariant
                n == installed@.len(),
                crate::registry::unique_install_keys(installed@),
                i <= n,
                forall|m: int|
                    0 <= m < updates@.len() ==> engine_update_justified(
                        #[trigger] updates@[m],
                        installed@,
                        skipped@,
                        *registry,
                    ),
                forall|m: int| #![trigger updates@[m]]
                    0 <= m < updates@.len() ==> exists|i2: int|
                        0 <= i2 < i && updates@[m].skill_id@ == installed@[i2].skill_id@
                            && updates@[m].agent@ == installed@[i2].agent@,
                forall|m1: int, m2: int|
                    0 <= m1 < m2 < updates@.len() ==> !(updates@[m1].skill_id@
                        == updates@[m2].skill_id@ && updates@[m1].agent@ == updates@[m2].agent@),
                forall|i2: int, j: int|
                    0 <= i2 < i && 0 <= j < registry.skills@.len() && (
                    #[trigger] registry.skills@[j]).id@ == (#[trigger] installed@[i2]).skill_id@
                        && (forall|j2: int|
                        0 <= j2 < j ==> registry.skills@[j2].id@ != installed@[i2].skill_id@)
                        && version::version_lt(
                        installed@[i2].version@,
                        registry.skills@[j].version@,
                    ) && !is_skipped(
                        skipped@,
                        installed@[i2].skill_id@,
                        registry.skills@[j].version@,
                    ) ==> update_listed(
                        updates@,
                        installed@[i2].skill_id@,
                        installed@[i2].agent@,
                        registry.skills@[j].version@,
                    ),
            decreases n - i,
        {
            let row = &installed[i];
            let k = registry.skills.len();
            let mut j: usize = 0;
            let mut found: Option<usize> = None;
            while j < k && found.is_none()
                invariant
                    n == installed@.len(),
                    i < n,
                    *row == installed@[i as int],
                    k == registry.skills@.len(),
                    j <= k,
                    match found {
                        Some(f) => f < k && registry.skills@[f as int].id@ == row.skill_id@ && (
                        forall|j2: int|
                            0 <= j2 < f ==> registry.skills@[j2].id@ != row.skill_id@),
                        None => forall|j2: int|
                            0 <= j2 < j ==> registry.skills@[j2].id@ != row.skill_id@,
                    },
                decreases k - j,
            {
                if str_eq(registry.skills[j].id.as_str(), row.skill_id.as_str()) {
                    found = Some(j);
                }
                j += 1;
            }
            match found {
                Some(f) => {
                    let remote = &registry.skills[f];
                    if version::is_newer(row.version.as_str(), remote.version.as_str())
                        && !Self::version_is_skipped(
                        skipped,
                        row.skill_id.as_str(),
                        remote.version.as_str(),
                    ) {
                        let is_major = version::is_major_update(
                            row.version.as_str(),
                            remote.version.as_str(),
                        );
                        let ghost updates0 = updates@;
                        updates.push(
                            SkillUpdate {
                                skill_id: row.skill_id.clone(),
                                skill_name: remote.name.clone(),
                                current_version: row.version.clone(),
                                new_version: remote.version.clone(),
                                agent: row.agent.clone(),
                                registry_url: row.registry_url.clone(),
                                changelog: None,
                                is_major,
                            },
                        );
                        proof {
                            assert(updates@.drop_last() =~= updates0);
                            assert(updates@ == updates0.push(updates@[updates@.len() - 1]));
                            let u = updates@[updates@.len() - 1];
                            let ii = i as int;
                            let ff = f as int;
                            assert(u.skill_id@ == installed@[ii].skill_id@
                                && registry.skills@[ff].id@ == installed@[ii].skill_id@
                                && u.skill_name@ == registry.skills@[ff].name@ && u.agent@
                                == installed@[ii].agent@ && u.current_version@
                                == installed@[ii].version@ && u.new_version@
                                == registry.skills@[ff].version@ && u.registry_url@
                                == installed@[ii].registry_url@ && version::version_lt(
                                installed@[ii].version@,
                                registry.skills@[ff].version@,
                            ) && !is_skipped(
                                skipped@,
                                installed@[ii].skill_id@,
                                registry.skills@[ff].version@,
                            ) && u.is_major == (version::version_seg_val(
                                installed@[ii].version@,
                                0,
                            ) < version::version_seg_val(registry.skills@[ff].version@, 0)));
                            assert(engine_update_justified(u, installed@, skipped@, *registry));
                            assert(update_listed(
                                updates@,
                                installed@[ii].skill_id@,
                                installed@[ii].agent@,
                                registry.skills@[ff].version@,
                            ));
                            assert forall|id: Seq<char>, ag: Seq<char>, nv: Seq<char>|
                                #![trigger update_listed(updates0, id, ag, nv)]
                                update_listed(updates0, id, ag, nv) implies update_listed(
                                updates@,
                                id,
                                ag,
                                nv,
                            ) by {
                                lemma_update_listed_push(updates0, u, id, ag, nv);
                            }
                            assert forall|m1: int, m2: int|
                                0 <= m1 < m2 < updates@.len() implies !(updates@[m1].skill_id@
                                == updates@[m2].skill_id@ && updates@[m1].agent@
                                == updates@[m2].agent@) by {
                                if m2 == updates@.len() - 1 {
                                    assert(updates@[m1] == updates0[m1]);
                                    let i2 = choose|i2: int|
                                        0 <= i2 < i && updates0[m1].skill_id@
                                            == installed@[i2].skill_id@ && updates0[m1].agent@
                                            == installed@[i2].agent@;
                                    assert(!crate::registry::same_install_key(
                                        installed@[i2],
                                        installed@[ii],
                                    ));
                                }
                            }
                            assert forall|m: int|
                                0 <= m < updates@.len() implies engine_update_justified(
                                #[trigger] updates@[m],
                                installed@,
                                skipped@,
                                *registry,
                            ) by {
                                if m < updates@.len() - 1 {
                                    assert(updates@[m] == updates0[m]);
                                }
                            }
                        }
                    }
                },
                None => (),
            }
            proof {
                assert forall|j3: int|
                    0 <= j3 < registry.skills@.len() && (#[trigger] registry.skills@[j3]).id@
                        == installed@[i as int].skill_id@ && (forall|j2: int|
                        0 <= j2 < j3 ==> registry.skills@[j2].id@
                            != installed@[i as int].skill_id@) && version::version_lt(
                        installed@[i as int].version@,
                        registry.skills@[j3].version@,
                    ) && !is_skipped(
                        skipped@,
                        installed@[i as int].skill_id@,
                        registry.skills@[j3].version@,
                    ) implies update_listed(
                    updates@,
                    installed@[i as int].skill_id@,
                    installed@[i as int].agent@,
                    registry.skills@[j3].version@,
                ) by {
                    match found {
                        Some(f) => {
                            if j3 < f as int {
                                assert(registry.skills@[j3].id@
                                    != installed@[i as int].skill_id@);
                            } else if j3 > f as int {
                                assert(registry.skills@[f as int].id@
                                    != installed@[i as int].skill_id@);
                            }
                        },
                        None => {
                            assert(registry.skills@[j3].id@ != installed@[i as int].skill_id@);
                        },
                    }
                }
            }
            i += 1;
        }
        updates
    }

    /// Is this exact (skill, version) pair marked as skipped?
    pub fn version_is_skipped(skipped: &Vec<SkippedVersion>, skill_id: &str, ver: &str) -> (r:
        bool)
        ensures
            r == is_skipped(skipped@, skill_id@, ver@),
    {
        let n = skipped.len();
        let mut i: usize = 0;
        while i < n
            invariant
                n == skipped@.len(),
                i <= n,
                forall|m: int|
                    0 <= m < i ==> !((#[trigger] skipped@[m]).skill_id@ == skill_id@
                        && skipped@[m].version@ == ver@),
            decreases n - i,
        {
            if str_eq(skipped[i].skill_id.as_str(), skill_id) && str_eq(
                skipped[i].version.as_str(),
                ver,
            ) {
                return true;
            }
            i += 1;
        }
        false
    }

    /// Mark one exact (skill, version) pair as skipped, idempotently: a
    /// pair already present leaves the set unchanged.
    pub fn skip_version(
        &self,
        skipped: Vec<SkippedVersion>,
        skill_id: &str,
        ver: &str,
        now: i64,
    ) -> (r: Vec<SkippedVersion>)
        ensures
            is_skipped(skipped@, skill_id@, ver@) ==> r@ == skipped@,
            !is_skipped(skipped@, skill_id@, ver@) ==> {
                &&& r@.len() == skipped@.len() + 1
                &&& r@.drop_last() == skipped@
                &&& r@.last().skill_id@ == skill_id@
                &&& r@.last().version@ == ver@
                &&& r@.last().skipped_at == now
            },
            is_skipped(r@, skill_id@, ver@),
    {
        if Self::version_is_skipped(&skipped, skill_id, ver) {
            return skipped;
        }
        let mut skipped = skipped;
        let ghost skipped0 = skipped@;
        skipped.push(
            SkippedVersion { skill_id: skill_id.to_owned(), version: ver.to_owned(), skipped_at: now },
        );
        proof {
            assert(skipped@.drop_last() =~= skipped0);
            let w = skipped@.len() - 1;
            assert((#[trigger] skipped@[w]).skill_id@ == skill_id@ && skipped@[w].version@
                == ver@);
        }
        skipped
    }

    /// Locate the remote skill an update refers to in a freshly fetched
    /// registry: its first entry with the update's skill id. Fails
    /// `NotFound` exactly when the registry no longer carries the skill —
    /// say, it was removed between the check and the apply.
    pub fn locate_update_target(registry: &SkillRegistry, update: &SkillUpdate) -> (r: Result<
        usize,
        AppError,
    >)
        ensures
            match r {
                Ok(j) => j < registry.skills@.len() && registry.skills@[j as int].id@
                    == update.skill_id@ && (forall|j2: int|
                    0 <= j2 < j ==> registry.skills@[j2].id@ != update.skill_id@),
                Err(e) => e is NotFound && forall|j: int|
                    0 <= j < registry.skills@.len() ==> (#[trigger] registry.skills@[j]).id@
                        != update.skill_id@,
            },
    {
        let k = registry.skills.len();
        let mut j: usize = 0;
        while j < k
            invariant
                k == registry.skills@.len(),
                j <= k,
                forall|j2: int|
                    0 <= j2 < j ==> (#[trigger] registry.skills@[j2]).id@ != update.skill_id@,
            decreases k - j,
        {
            if str_eq(registry.skills[j].id.as_str(), update.skill_id.as_str()) {
                return Ok(j);
            }
            j += 1;
        }
        Err(AppError::NotFound(update.skill_id.clone()))
    }

    /// Restore the most recent vault snapshot of an installed artifact over
    /// its installed path. Fails `NotFound` when no ledger row or no
    /// snapshot matches; the state is unchanged then.
    pub fn rollback_skill(
        &self,
        fs: &mut FsState,
        vault: &BackupService,
        registry: &RegistryService,
        installed: &Vec<InstalledSkill>,
        skill_id: &str,
        agent: &str,
        now: i64,
    ) -> (r: Result<(), AppError>)
        requires
            old(fs).wf(),
            crate::registry::unique_install_keys(installed@),
        ensures
            final(fs).wf(),
            r is Err ==> r->Err_0 is NotFound && final(fs)@ == old(fs)@,
            r is Err <==> (crate::registry::no_install_row(installed@, skill_id@, agent@) || (
            exists|w: int|
                #![trigger installed@[w]]
                0 <= w < installed@.len() && installed@[w].skill_id@ == skill_id@
                    && installed@[w].agent@ == agent@ && no_snapshot_for(
                    old(fs)@,
                    vault.vault_dir(),
                    crate::paths::basename_of(installed@[w].installed_path@),
                ))),
            r is Ok ==> exists|w: int, bp: Seq<char>|
                #![trigger installed@[w], old(fs)@.contains_key(bp)]
                0 <= w < installed@.len() && installed@[w].skill_id@ == skill_id@
                    && installed@[w].agent@ == agent@ && old(fs)@.contains_key(bp)
                    && is_child_of(bp, vault.vault_dir()) && ends_with_spec(
                    child_name(bp, vault.vault_dir()),
                    crate::paths::basename_of(installed@[w].installed_path@),
                ) && (forall|k: Seq<char>| #[trigger]
                    old(fs)@.contains_key(k) && is_child_of(k, vault.vault_dir())
                        && ends_with_spec(
                        child_name(k, vault.vault_dir()),
                        crate::paths::basename_of(installed@[w].installed_path@),
                    ) ==> old(fs)@[k].modified_at <= old(fs)@[bp].modified_at) && final(fs)@
                    =~= old(fs)@.insert(
                    installed@[w].installed_path@,
                    crate::fsmodel::FsNode {
                        is_dir: old(fs)@[bp].is_dir,
                        content: old(fs)@[bp].content,
                        modified_at: now as int,
                    },
                ),
    {
        let idx = match registry.find_installation(installed, skill_id, agent) {
            Some(i) => i,
            None => {
                proof {
                    assert(crate::registry::no_install_row(installed@, skill_id@, agent@));
                }
                return Err(AppError::NotFound(skill_id.to_owned()));
            },
        };
        let ghost ii = idx as int;
        let filename = path_basename(installed[idx].installed_path.as_str());
        let backups = vault.list_backups(fs, filename.as_str());
        if backups.len() == 0 {
            proof {
                assert(no_snapshot_for(old(fs)@, vault.vault_dir(), filename@)) by {
                    assert forall|k: Seq<char>| #[trigger]
                        old(fs)@.contains_key(k) implies !(is_child_of(k, vault.vault_dir())
                        && ends_with_spec(child_name(k, vault.vault_dir()), filename@)) by {
                        if is_child_of(k, vault.vault_dir()) && ends_with_spec(
                            child_name(k, vault.vault_dir()),
                            filename@,
                        ) {
                            let m = choose|m: int|
                                0 <= m < backups@.len() && #[trigger] backups@[m].path@ == k;
                        }
                    }
                }
                assert(0 <= ii < installed@.len() && installed@[ii].skill_id@ == skill_id@
                    && installed@[ii].agent@ == agent@ && no_snapshot_for(
                    old(fs)@,
                    vault.vault_dir(),
                    crate::paths::basename_of(installed@[ii].installed_path@),
                ));
            }
            return Err(AppError::NotFound(filename));
        }
        let bp = backups[0].path.clone();
        let ghost bpg = bp@;
        proof {
            // the listed snapshots are sorted by recency, so the first is
            // at least as recent as any other matching snapshot
            assert(crate::vault::matching_backup(old(fs)@, vault.vault_dir(), filename@, backups@[0]));
            assert forall|k: Seq<char>| #[trigger]
                old(fs)@.contains_key(k) && is_child_of(k, vault.vault_dir()) && ends_with_spec(
                    child_name(k, vault.vault_dir()),
                    filename@,
                ) implies old(fs)@[k].modified_at <= old(fs)@[bpg].modified_at by {
                let m = choose|m: int| 0 <= m < backups@.len() && #[trigger] backups@[m].path@ == k;
                assert(crate::vault::matching_backup(
                    old(fs)@,
                    vault.vault_dir(),
                    filename@,
                    backups@[m],
                ));
                if m > 0 {
                    assert(backups@[0].created_at >= backups@[m].created_at);
                }
            }
        }
        match vault.restore_file(fs, bp.as_str(), installed[idx].installed_path.as_str(), now) {
            Ok(_) => {
                proof {
                    assert(0 <= ii && ii < installed@.len() && installed@[ii].skill_id@
                        == skill_id@ && installed@[ii].agent@ == agent@ && old(fs)@.contains_key(
                        bpg,
                    ) && is_child_of(bpg, vault.vault_dir()) && ends_with_spec(
                        child_name(bpg, vault.vault_dir()),
                        crate::paths::basename_of(installed@[ii].installed_path@),
                    ));
                    // the result is not an error, so neither error condition held
                    assert(!crate::registry::no_install_row(installed@, skill_id@, agent@)) by {
                        assert(installed@[ii].skill_id@ == skill_id@ && installed@[ii].agent@
                            == agent@);
                    }
                    assert forall|w: int|
                        #![trigger installed@[w]]
                        0 <= w < installed@.len() && installed@[w].skill_id@ == skill_id@
                            && installed@[w].agent@ == agent@ implies !no_snapshot_for(
                        old(fs)@,
                        vault.vault_dir(),
                        crate::paths::basename_of(installed@[w].installed_path@),
                    ) by {
                        if w != ii {
                            assert(crate::registry::same_install_key(
                                installed@[if w < ii {
                                    w
                                } else {
                                    ii
                                }],
                                installed@[if w < ii {
                                    ii
                                } else {
                                    w
                                }],
                            ));
                        }
                        assert(old(fs)@.contains_key(bpg));
                    }
                }
                Ok(())
            },
            Err(_) => {
                proof {
                    assert(false);
                }
                Err(AppError::NotFound(skill_id.to_owned()))
            },
        }
    }
}

} // verus!
