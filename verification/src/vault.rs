//! The Backup Vault: copy-before-mutate protection and recovery. Snapshots
//! are stored flat in one vault directory under `<unix-timestamp>_<basename>`
//! and found again by a suffix match on the stored filename.

use vstd::prelude::*;
use crate::error::AppError;
use crate::external::data_local_dir_string;
use crate::external::push_char;
use crate::fsmodel::FsNode;
use crate::fsmodel::FsState;
use crate::paths::basename_of;
use crate::paths::child_name;
use crate::paths::is_child_of;
use crate::paths::is_strictly_under;
use crate::paths::is_within;
use crate::paths::path_basename;
use crate::paths::path_child_name;
use crate::paths::path_join;
use crate::paths::path_join_spec;
use crate::text::ends_with_spec;
use crate::text::str_ends_with;

verus! {

/// The decimal numeral of `n`.
pub open spec fn dec_str_of(n: nat) -> Seq<char>
    decreases n,
{
    if n < 10 {
        seq![((48 + n) as u8) as char]
    } else {
        dec_str_of(n / 10) + seq![((48 + (n % 10)) as u8) as char]
    }
}

/// Render `n` in decimal.
pub fn u64_to_string(n: u64) -> (r: String)
    ensures
        r@ == dec_str_of(n as nat),
    decreases n,
{
    if n < 10 {
        let mut r = String::new();
        let d: u8 = 48 + (n as u8);
        push_char(&mut r, d as char);
        proof {
            assert(r@ =~= dec_str_of(n as nat));
        }
        r
    } else {
        let mut r = u64_to_string(n / 10);
        let d: u8 = 48 + ((n % 10) as u8);
        push_char(&mut r, d as char);
        proof {
            assert(r@ =~= dec_str_of(n as nat));
        }
        r
    }
}

/// The name a snapshot of `src` taken at `now` is stored under.
pub open spec fn backup_name_spec(now: int, src: Seq<char>) -> Seq<char> {
    dec_str_of(now as nat) + seq!['_'] + basename_of(src)
}

/// The full vault path of that snapshot.
pub open spec fn backup_path_spec(vault: Seq<char>, now: int, src: Seq<char>) -> Seq<char> {
    path_join_spec(vault, backup_name_spec(now, src))
}

/// One snapshot found in the vault.
pub struct BackupInfo {
    pub path: String,
    pub name: String,
    pub size: u64,
    pub created_at: i64,
}

impl Clone for BackupInfo {
    fn clone(&self) -> (r: Self)
        ensures
            r.path@ == self.path@,
            r.name@ == self.name@,
            r.size == self.size,
            r.created_at == self.created_at,
    {
        BackupInfo {
            path: self.path.clone(),
            name: self.name.clone(),
            size: self.size,
            created_at: self.created_at,
        }
    }
}

/// `b` describes the vault entry at `b.path` whose stored name ends with
/// `suffix`.
pub open spec fn matching_backup(
    m: Map<Seq<char>, FsNode>,
    vault: Seq<char>,
    suffix: Seq<char>,
    b: BackupInfo,
) -> bool {
    &&& m.contains_key(b.path@)
    &&& is_child_of(b.path@, vault)
    &&& b.name@ == child_name(b.path@, vault)
    &&& ends_with_spec(b.name@, suffix)
    &&& b.size == (vstd::utf8::encode_utf8(m[b.path@].content).len() as usize) as u64
    &&& b.created_at == m[b.path@].modified_at
}

/// Insert `info` into a list sorted by creation time descending, keeping it
/// sorted.
fn insert_by_recency(out: &mut Vec<BackupInfo>, info: BackupInfo)
    requires
        forall|m1: int, m2: int|
            0 <= m1 < m2 < old(out)@.len() ==> old(out)@[m1].created_at >= old(out)@[m2].created_at,
    ensures
        exists|p: int| 0 <= p <= old(out)@.len() && final(out)@ == old(out)@.insert(p, info),
        forall|m1: int, m2: int|
            0 <= m1 < m2 < final(out)@.len() ==> final(out)@[m1].created_at
                >= final(out)@[m2].created_at,
{
    let olen = out.len();
    let mut p: usize = 0;
    while p < olen && out[p].created_at >= info.created_at
        invariant
            olen == out@.len(),
            p <= olen,
            forall|m: int| 0 <= m < p ==> out@[m].created_at >= info.created_at,
        decreases olen - p,
    {
        p += 1;
    }
    let ghost out0 = out@;
    let ghost pos = p as int;
    out.insert(p, info);
    proof {
        assert(out@ == out0.insert(pos, info));
        assert forall|m1: int, m2: int|
            0 <= m1 < m2 < out@.len() implies out@[m1].created_at >= out@[m2].created_at by {
            if m2 < pos {
                assert(out@[m1] == out0[m1] && out@[m2] == out0[m2]);
            } else if m2 == pos {
                assert(out@[m1] == out0[m1]);
            } else {
                assert(out@[m2] == out0[m2 - 1]);
                assert(pos < olen);
                assert(out0[pos].created_at < info.created_at);
                if m2 - 1 > pos {
                    assert(out0[pos].created_at >= out0[m2 - 1].created_at);
                }
                if m1 < pos {
                    assert(out@[m1] == out0[m1]);
                } else if m1 == pos {
                    assert(out@[m1] == info);
                } else {
                    assert(out@[m1] == out0[m1 - 1]);
                    assert(out0[m1 - 1].created_at >= out0[m2 - 1].created_at);
                }
            }
        }
    }
}

/// A complete, duplicate-free list of the vault's stale children: exactly
/// the immediate children of the vault whose timestamp is older than the
/// cutoff.
pub open spec fn stale_vault_children(
    rem: Seq<Seq<char>>,
    m0: Map<Seq<char>, FsNode>,
    vault: Seq<char>,
    cutoff: int,
) -> bool {
    &&& forall|m1: int, m2: int| 0 <= m1 < m2 < rem.len() ==> rem[m1] != rem[m2]
    &&& forall|m: int| #![trigger rem[m]]
        0 <= m < rem.len() ==> m0.contains_key(rem[m]) && is_child_of(rem[m], vault)
            && m0[rem[m]].modified_at < cutoff
    &&& forall|k: Seq<char>| #![trigger m0.contains_key(k)]
        m0.contains_key(k) && is_child_of(k, vault) && m0[k].modified_at < cutoff
            ==> rem.contains(k)
}

/// Timestamped copy-before-mutate storage with retention-based cleanup and
/// restore-by-name lookup.
pub struct BackupService {
    backup_dir: String,
    retention_days: u64,
}

impl BackupService {
    /// The vault directory.
    pub closed spec fn vault_dir(&self) -> Seq<char> {
        self.backup_dir@
    }

    /// How long snapshots are kept, in days.
    pub closed spec fn retention(&self) -> u64 {
        self.retention_days
    }

    /// A vault rooted in the platform's local data directory, with the
    /// default retention of 7 days.
    pub fn new() -> (r: BackupService)
        ensures
            r.retention() == 7,
    {
        let base = match data_local_dir_string() {
            Some(d) => d,
            None => String::from_str("."),
        };
        BackupService {
            backup_dir: base.concat("/ai-skills-aggregator/backups"),
            retention_days: 7,
        }
    }

    /// A vault rooted at the given directory, with the default retention of
    /// 7 days.
    pub fn new_in(backup_dir: String) -> (r: BackupService)
        ensures
            r.vault_dir() == backup_dir@,
            r.retention() == 7,
    {
        BackupService { backup_dir, retention_days: 7 }
    }

    /// Snapshot one file into the vault under `<now>_<basename>`. Fails
    /// `FileNotFound` when the source does not exist, and changes nothing
    /// then.
    pub fn backup_file(&self, fs: &mut FsState, file_path: &str, now: i64) -> (r: Result<
        String,
        AppError,
    >)
        requires
            old(fs).wf(),
            now >= 0,
        ensures
            final(fs).wf(),
            match r {
                Ok(bp) => {
                    &&& old(fs)@.contains_key(file_path@)
                    &&& bp@ == backup_path_spec(self.vault_dir(), now as int, file_path@)
                    &&& final(fs)@ =~= old(fs)@.insert(
                        self.vault_dir(),
                        FsNode { is_dir: true, content: Seq::empty(), modified_at: now as int },
                    ).insert(
                        bp@,
                        FsNode {
                            is_dir: old(fs)@[file_path@].is_dir,
                            content: old(fs)@[file_path@].content,
                            modified_at: now as int,
                        },
                    )
                },
                Err(e) => {
                    &&& e is FileNotFound
                    &&& !old(fs)@.contains_key(file_path@)
                    &&& final(fs)@ == old(fs)@
                },
            },
    {
        let node = match fs.get_entry(file_path) {
            None => {
                return Err(AppError::FileNotFound(file_path.to_owned()));
            },
            Some(e) => e.clone(),
        };
        let base = path_basename(file_path);
        let mut name = u64_to_string(now as u64);
        push_char(&mut name, '_');
        name.append(base.as_str());
        assert(name@ =~= backup_name_spec(now as int, file_path@));
        let bp = path_join(self.backup_dir.as_str(), name.as_str());
        fs.put_dir(self.backup_dir.clone(), now);
        fs.put_entry(
            crate::fsmodel::FsEntry {
                path: bp.clone(),
                is_dir: node.is_dir,
                content: node.content,
                modified_at: now,
            },
        );
        Ok(bp)
    }

    /// Snapshot a whole folder into the vault under `<now>_<basename>`.
    /// Fails `FileNotFound` when the source does not exist, and `IoError`
    /// when the vault slot for that name is already occupied; changes
    /// nothing in either case.
    pub fn backup_folder(&self, fs: &mut FsState, folder_path: &str, now: i64) -> (r: Result<
        String,
        AppError,
    >)
        requires
            old(fs).wf(),
            now >= 0,
        ensures
            final(fs).wf(),
            match r {
                Ok(bp) => {
                    &&& old(fs)@.contains_key(folder_path@)
                    &&& bp@ == backup_path_spec(self.vault_dir(), now as int, folder_path@)
                    &&& !is_within(bp@, folder_path@)
                    &&& !is_within(folder_path@, bp@)
                    &&& forall|k: Seq<char>| #[trigger]
                        old(fs)@.contains_key(k) && k != self.vault_dir() && !is_within(k, bp@)
                            ==> final(fs)@.contains_key(k) && final(fs)@[k] == old(fs)@[k]
                    &&& forall|k0: Seq<char>|
                        old(fs)@.contains_key(k0) && is_within(k0, folder_path@) ==> {
                            let kr = #[trigger] crate::paths::rebase(k0, folder_path@, bp@);
                            &&& final(fs)@.contains_key(kr)
                            &&& final(fs)@[kr].is_dir == old(fs)@[k0].is_dir
                            &&& final(fs)@[kr].content == old(fs)@[k0].content
                            &&& final(fs)@[kr].modified_at == now as int
                        }
                    &&& forall|k: Seq<char>| #[trigger]
                        final(fs)@.contains_key(k) ==> old(fs)@.contains_key(k) || is_within(
                            k,
                            bp@,
                        ) || k == self.vault_dir()
                },
                Err(e) => {
                    let bp = backup_path_spec(self.vault_dir(), now as int, folder_path@);
                    &&& e is FileNotFound || e is IoError
                    &&& (e is FileNotFound <==> !old(fs)@.contains_key(folder_path@))
                    &&& (e is IoError <==> old(fs)@.contains_key(folder_path@) && (is_within(
                        bp,
                        folder_path@,
                    ) || is_within(folder_path@, bp)))
                    &&& final(fs)@ == old(fs)@
                },
            },
    {
        if !fs.contains_path(folder_path) {
            return Err(AppError::FileNotFound(folder_path.to_owned()));
        }
        let base = path_basename(folder_path);
        let mut name = u64_to_string(now as u64);
        push_char(&mut name, '_');
        name.append(base.as_str());
        assert(name@ =~= backup_name_spec(now as int, folder_path@));
        let bp = path_join(self.backup_dir.as_str(), name.as_str());
        // the snapshot slot and the source must not contain one another
        if crate::paths::path_within(bp.as_str(), folder_path) {
            return Err(AppError::IoError(bp));
        }
        if crate::paths::path_within(folder_path, bp.as_str()) {
            return Err(AppError::IoError(bp));
        }
        let ghost pre = fs@;
        proof {
            assert(is_strictly_under(bp@, self.vault_dir())) by {
                assert(bp@.take(self.vault_dir().len() as int) =~= self.vault_dir());
                assert(bp@[self.vault_dir().len() as int] == '/');
            }
            // the vault directory is a proper prefix of bp, so inserting it
            // keeps the bp subtree vacant ...
            assert(!is_within(self.vault_dir(), bp@));
            // ... and it cannot lie inside the source, else bp would too
            if is_within(self.vault_dir(), folder_path@) {
                crate::paths::lemma_within_trans(bp@, self.vault_dir(), folder_path@);
            }
        }
        // a same-named snapshot from this very second is overwritten
        fs.remove_subtree(bp.as_str());
        let ghost cleared = fs@;
        fs.put_dir(self.backup_dir.clone(), now);
        let ghost mid = fs@;
        fs.copy_subtree(folder_path, bp.as_str(), now);
        proof {
            assert forall|k: Seq<char>| #[trigger]
                old(fs)@.contains_key(k) && k != self.vault_dir() && !is_within(
                k,
                bp@,
            ) implies fs@.contains_key(k) && fs@[k] == old(fs)@[k] by {
                assert(cleared.contains_key(k) && cleared[k] == old(fs)@[k]);
                assert(mid.contains_key(k) && mid[k] == old(fs)@[k]);
            }
            assert forall|k0: Seq<char>|
                old(fs)@.contains_key(k0) && is_within(k0, folder_path@) implies {
                let kr = crate::paths::rebase(k0, folder_path@, bp@);
                &&& fs@.contains_key(kr)
                &&& fs@[kr].is_dir == old(fs)@[k0].is_dir
                &&& fs@[kr].content == old(fs)@[k0].content
                &&& fs@[kr].modified_at == now as int
            } by {
                // a key within the source cannot lie within the slot: that
                // would nest the source and the slot in one another
                if is_within(k0, bp@) {
                    crate::paths::lemma_ancestors_comparable(k0, folder_path@, bp@);
                }
                assert(cleared.contains_key(k0));
                assert(cleared[k0] == old(fs)@[k0]);
                assert(k0 != self.vault_dir());
                assert(mid.contains_key(k0));
                assert(mid[k0] == old(fs)@[k0]);
            }
            assert forall|k: Seq<char>| #[trigger]
                fs@.contains_key(k) implies old(fs)@.contains_key(k) || is_within(k, bp@) || k
                == self.vault_dir() by {
                if !is_within(k, bp@) && k != self.vault_dir() {
                    assert(mid.contains_key(k));
                    assert(cleared.contains_key(k));
                }
            }
        }
        Ok(bp)
    }

    /// Copy a snapshot back onto a destination path. Fails `FileNotFound`
    /// when the snapshot does not exist, and changes nothing then.
    pub fn restore_file(&self, fs: &mut FsState, backup_path: &str, dest_path: &str, now: i64)
        -> (r: Result<(), AppError>)
        requires
            old(fs).wf(),
        ensures
            final(fs).wf(),
            match r {
                Ok(_) => {
                    &&& old(fs)@.contains_key(backup_path@)
                    &&& final(fs)@ =~= old(fs)@.insert(
                        dest_path@,
                        FsNode {
                            is_dir: old(fs)@[backup_path@].is_dir,
                            content: old(fs)@[backup_path@].content,
                            modified_at: now as int,
                        },
                    )
                },
                Err(e) => {
                    &&& e is FileNotFound
                    &&& !old(fs)@.contains_key(backup_path@)
                    &&& final(fs)@ == old(fs)@
                },
            },
    {
        let node = match fs.get_entry(backup_path) {
            None => {
                return Err(AppError::FileNotFound(backup_path.to_owned()));
            },
            Some(e) => e.clone(),
        };
        fs.put_entry(
            crate::fsmodel::FsEntry {
                path: dest_path.to_owned(),
                is_dir: node.is_dir,
                content: node.content,
                modified_at: now,
            },
        );
        Ok(())
    }

    /// Every vault entry whose stored filename ends with `original_filename`,
    /// sorted by creation time descending, so the first entry is the most
    /// recent.
    #[verifier::rlimit(100)]
    pub fn list_backups(&self, fs: &FsState, original_filename: &str) -> (r: Vec<BackupInfo>)
        requires
            fs.wf(),
        ensures
            forall|m: int|
                0 <= m < r@.len() ==> matching_backup(
                    fs@,
                    self.vault_dir(),
                    original_filename@,
                    #[trigger] r@[m],
                ),
            forall|k: Seq<char>|
                fs@.contains_key(k) && is_child_of(k, self.vault_dir()) && ends_with_spec(
                    child_name(k, self.vault_dir()),
                    original_filename@,
                ) ==> exists|m: int| 0 <= m < r@.len() && #[trigger] r@[m].path@ == k,
            forall|m1: int, m2: int| 0 <= m1 < m2 < r@.len() ==> r@[m1].path@ != r@[m2].path@,
            forall|m1: int, m2: int|
                0 <= m1 < m2 < r@.len() ==> r@[m1].created_at >= r@[m2].created_at,
    {
        let kids = fs.child_paths(self.backup_dir.as_str());
        let n = kids.len();
        let mut out: Vec<BackupInfo> = Vec::new();
        let mut i: usize = 0;
        while i < n
            invariant
                fs.wf(),
                n == kids@.len(),
                i <= n,
                forall|m: int|
                    0 <= m < kids@.len() ==> fs@.contains_key(#[trigger] kids@[m]@) && is_child_of(
                        kids@[m]@,
                        self.vault_dir(),
                    ),
                forall|k: Seq<char>|
                    fs@.contains_key(k) && is_child_of(k, self.vault_dir()) ==> exists|m: int|
                        0 <= m < kids@.len() && #[trigger] kids@[m]@ == k,
                forall|m1: int, m2: int| 0 <= m1 < m2 < kids@.len() ==> kids@[m1]@ != kids@[m2]@,
                forall|m: int|
                    0 <= m < out@.len() ==> matching_backup(
                        fs@,
                        self.vault_dir(),
                        original_filename@,
                        #[trigger] out@[m],
                    ),
                forall|j: int|
                    0 <= j < i && ends_with_spec(
                        child_name(#[trigger] kids@[j]@, self.vault_dir()),
                        original_filename@,
                    ) ==> exists|m: int|
                        0 <= m < out@.len() && #[trigger] out@[m].path@ == kids@[j]@,
                forall|m: int| 0 <= m < out@.len() ==> exists|j: int|
                    0 <= j < i && #[trigger] out@[m].path@ == kids@[j]@,
                forall|m1: int, m2: int|
                    0 <= m1 < m2 < out@.len() ==> out@[m1].path@ != out@[m2].path@,
                forall|m1: int, m2: int|
                    0 <= m1 < m2 < out@.len() ==> out@[m1].created_at >= out@[m2].created_at,
            decreases n - i,
        {
            let name = path_child_name(kids[i].as_str(), self.backup_dir.as_str());
            if str_ends_with(name.as_str(), original_filename) {
                let mut created_at: i64 = 0;
                let mut size: u64 = 0;
                match fs.get_entry(kids[i].as_str()) {
                    Some(e) => {
                        created_at = e.modified_at;
                        size = e.content.as_str().len() as u64;
                    },
                    None => {
                        proof {
                            assert(false);
                        }
                    },
                }
                let info = BackupInfo { path: kids[i].clone(), name, size, created_at };
                let ghost out0 = out@;
                insert_by_recency(&mut out, info);
                proof {
                    let p = choose|p: int|
                        0 <= p <= out0.len() && out@ == out0.insert(p, info);
                    assert(out@[p] == info);
                    assert(forall|m: int| 0 <= m < p ==> out@[m] == out0[m]);
                    assert(forall|m: int| p < m < out@.len() ==> out@[m] == out0[m - 1]);
                    assert(info.path@ == kids@[i as int]@);
                    assert forall|m1: int, m2: int|
                        0 <= m1 < m2 < out@.len() implies out@[m1].path@ != out@[m2].path@ by {
                        if m1 == p || m2 == p {
                            let other = if m1 == p {
                                m2
                            } else {
                                m1
                            };
                            let o = if other < p {
                                out0[other]
                            } else {
                                out0[other - 1]
                            };
                            let j = choose|j: int| 0 <= j < i && o.path@ == kids@[j]@;
                            assert(kids@[j]@ != kids@[i as int]@);
                        }
                    }
                    assert forall|m: int|
                        0 <= m < out@.len() implies exists|j: int|
                        0 <= j <= i && #[trigger] out@[m].path@ == kids@[j]@ by {
                        if m == p {
                            assert(out@[m].path@ == kids@[i as int]@);
                        } else {
                            let o = if m < p {
                                out0[m]
                            } else {
                                out0[m - 1]
                            };
                            let j = choose|j: int| 0 <= j < i && o.path@ == kids@[j]@;
                            assert(out@[m].path@ == kids@[j]@);
                        }
                    }
                    assert forall|j: int|
                        0 <= j <= i && ends_with_spec(
                            child_name(#[trigger] kids@[j]@, self.vault_dir()),
                            original_filename@,
                        ) implies exists|m: int|
                        0 <= m < out@.len() && #[trigger] out@[m].path@ == kids@[j]@ by {
                        if j == i {
                            assert(out@[p].path@ == kids@[j]@);
                        } else {
                            let m = choose|m: int|
                                0 <= m < out0.len() && #[trigger] out0[m].path@ == kids@[j]@;
                            if m < p {
                                assert(out@[m].path@ == kids@[j]@);
                            } else {
                                assert(out@[m + 1].path@ == kids@[j]@);
                            }
                        }
                    }
                }
            }
            i += 1;
        }
        proof {
            assert forall|k: Seq<char>|
                fs@.contains_key(k) && is_child_of(k, self.vault_dir()) && ends_with_spec(
                    child_name(k, self.vault_dir()),
                    original_filename@,
                ) implies exists|m: int| 0 <= m < out@.len() && #[trigger] out@[m].path@ == k by {
                let j = choose|j: int| 0 <= j < kids@.len() && #[trigger] kids@[j]@ == k;
            }
        }
        out
    }

    /// Remove every vault entry older than the retention window, returning
    /// how many were removed. Entries removed take everything below them.
    pub fn cleanup_old_backups(&self, fs: &mut FsState, now: i64) -> (r: usize)
        requires
            old(fs).wf(),
            self.retention() == 7,
            now >= i64::MIN + 604800,
        ensures
            final(fs).wf(),
            forall|k: Seq<char>| #[trigger]
                final(fs)@.contains_key(k) <==> old(fs)@.contains_key(k) && !(exists|c: Seq<char>|
                    old(fs)@.contains_key(c) && is_child_of(c, self.vault_dir()) && old(
                        fs,
                    )@[c].modified_at < now - 604800 && #[trigger] is_within(k, c)),
            forall|k: Seq<char>| #[trigger]
                final(fs)@.contains_key(k) ==> final(fs)@[k] == old(fs)@[k],
            exists|rem: Seq<Seq<char>>|
                rem.len() == r && stale_vault_children(
                    rem,
                    old(fs)@,
                    self.vault_dir(),
                    now - 604800,
                ),
    {
        let cutoff: i64 = now - 604800;
        let kids = fs.child_paths(self.backup_dir.as_str());
        let ghost m0 = fs@;
        let n = kids.len();
        let mut removed: usize = 0;
        let ghost mut remg = Seq::<Seq<char>>::empty();
        let mut i: usize = 0;
        while i < n
            invariant
                n == kids@.len(),
                i <= n,
                removed <= i,
                remg.len() == removed,
                forall|m: int| #![trigger remg[m]]
                    0 <= m < remg.len() ==> exists|j: int| 0 <= j < i && remg[m] == kids@[j]@,
                forall|m: int| #![trigger remg[m]]
                    0 <= m < remg.len() ==> m0.contains_key(remg[m]) && is_child_of(
                        remg[m],
                        self.vault_dir(),
                    ) && m0[remg[m]].modified_at < cutoff,
                forall|m1: int, m2: int| 0 <= m1 < m2 < remg.len() ==> remg[m1] != remg[m2],
                forall|j: int|
                    0 <= j < i && m0[#[trigger] kids@[j]@].modified_at < cutoff ==> remg.contains(
                        kids@[j]@,
                    ),
                cutoff == now - 604800,
                fs.wf(),
                forall|m: int|
                    0 <= m < kids@.len() ==> m0.contains_key(#[trigger] kids@[m]@) && is_child_of(
                        kids@[m]@,
                        self.vault_dir(),
                    ),
                forall|k: Seq<char>|
                    m0.contains_key(k) && is_child_of(k, self.vault_dir()) ==> exists|m: int|
                        0 <= m < kids@.len() && #[trigger] kids@[m]@ == k,
                forall|m1: int, m2: int| 0 <= m1 < m2 < kids@.len() ==> kids@[m1]@ != kids@[m2]@,
                forall|k: Seq<char>| #[trigger]
                    fs@.contains_key(k) <==> m0.contains_key(k) && !(exists|j: int|
                        0 <= j < i && m0[kids@[j]@].modified_at < cutoff && #[trigger] is_within(
                            k,
                            kids@[j]@,
                        )),
                forall|k: Seq<char>| #[trigger] fs@.contains_key(k) ==> fs@[k] == m0[k],
            decreases n - i,
        {
            proof {
                if !fs@.contains_key(kids@[i as int]@) {
                    let j = choose|j: int|
                        0 <= j < i && m0[kids@[j]@].modified_at < cutoff && #[trigger] is_within(
                            kids@[i as int]@,
                            kids@[j]@,
                        );
                    crate::paths::lemma_siblings_not_nested(
                        kids@[i as int]@,
                        kids@[j]@,
                        self.vault_dir(),
                    );
                }
            }
            let keep = match fs.get_entry(kids[i].as_str()) {
                Some(e) => e.modified_at >= cutoff,
                None => true,
            };
            if !keep {
                let ghost pre = fs@;
                fs.remove_subtree(kids[i].as_str());
                removed += 1;
                proof {
                    let ghost remg0 = remg;
                    remg = remg.push(kids@[i as int]@);
                    assert(remg.drop_last() =~= remg0);
                    assert(remg[remg.len() - 1] == kids@[i as int]@);
                    assert(m0[kids@[i as int]@].modified_at < cutoff);
                    assert forall|m1: int, m2: int|
                        0 <= m1 < m2 < remg.len() implies remg[m1] != remg[m2] by {
                        if m2 == remg.len() - 1 {
                            let j = choose|j: int| 0 <= j < i && remg[m1] == #[trigger] kids@[j]@;
                            assert(kids@[j]@ != kids@[i as int]@);
                        }
                    }
                    assert forall|j: int|
                        0 <= j <= i && m0[#[trigger] kids@[j]@].modified_at < cutoff
                        implies remg.contains(kids@[j]@) by {
                        if j < i {
                            let m = choose|m: int|
                                0 <= m < remg0.len() && #[trigger] remg0[m] == kids@[j]@;
                            assert(remg[m] == kids@[j]@);
                        } else {
                            assert(remg[remg.len() - 1] == kids@[j]@);
                        }
                    }
                }
                proof {
                    assert forall|k: Seq<char>| #[trigger]
                        fs@.contains_key(k) <==> m0.contains_key(k) && !(exists|j: int|
                            0 <= j <= i && m0[kids@[j]@].modified_at < cutoff
                                && #[trigger] is_within(k, kids@[j]@)) by {
                        if fs@.contains_key(k) {
                            assert(pre.contains_key(k) && !is_within(k, kids@[i as int]@));
                        } else {
                            if m0.contains_key(k) && !(exists|j: int|
                                0 <= j <= i && m0[kids@[j]@].modified_at < cutoff && is_within(
                                    k,
                                    kids@[j]@,
                                )) {
                                assert(pre.contains_key(k));
                                assert(!is_within(k, kids@[i as int]@));
                                assert(fs@.contains_key(k));
                            }
                        }
                    }
                }
            } else {
                proof {
                    assert forall|k: Seq<char>| #[trigger]
                        fs@.contains_key(k) <==> m0.contains_key(k) && !(exists|j: int|
                            0 <= j <= i && m0[kids@[j]@].modified_at < cutoff
                                && #[trigger] is_within(k, kids@[j]@)) by {
                        if m0.contains_key(k) && !(exists|j: int|
                            0 <= j <= i && m0[kids@[j]@].modified_at < cutoff && is_within(
                                k,
                                kids@[j]@,
                            )) {
                            assert(!(exists|j: int|
                                0 <= j < i && m0[kids@[j]@].modified_at < cutoff && is_within(
                                    k,
                                    kids@[j]@,
                                )));
                        }
                    }
                }
            }
            i += 1;
        }
        proof {
            assert forall|k: Seq<char>| #[trigger]
                fs@.contains_key(k) <==> m0.contains_key(k) && !(exists|c: Seq<char>|
                    m0.contains_key(c) && is_child_of(c, self.vault_dir()) && m0[c].modified_at
                        < now - 604800 && #[trigger] is_within(k, c)) by {
                if fs@.contains_key(k) {
                    if exists|c: Seq<char>|
                        m0.contains_key(c) && is_child_of(c, self.vault_dir()) && m0[c].modified_at
                            < now - 604800 && is_within(k, c) {
                        let c = choose|c: Seq<char>|
                            m0.contains_key(c) && is_child_of(c, self.vault_dir())
                                && m0[c].modified_at < now - 604800 && is_within(k, c);
                        let j = choose|j: int| 0 <= j < kids@.len() && #[trigger] kids@[j]@ == c;
                        assert(m0[kids@[j]@].modified_at < now - 604800 && is_within(k, kids@[j]@));
                    }
                } else {
                    if m0.contains_key(k) {
                        let j = choose|j: int|
                            0 <= j < n && m0[kids@[j]@].modified_at < now - 604800
                                && #[trigger] is_within(k, kids@[j]@);
                        assert(m0.contains_key(kids@[j]@) && is_child_of(
                            kids@[j]@,
                            self.vault_dir(),
                        ));
                    }
                }
            }
            assert(stale_vault_children(remg, m0, self.vault_dir(), now - 604800)) by {
                assert forall|k: Seq<char>| #![trigger m0.contains_key(k)]
                    m0.contains_key(k) && is_child_of(k, self.vault_dir()) && m0[k].modified_at
                        < now - 604800 implies remg.contains(k) by {
                    let j = choose|j: int| 0 <= j < kids@.len() && #[trigger] kids@[j]@ == k;
                }
            }
        }
        removed
    }
}

} // verus!
