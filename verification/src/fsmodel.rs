//! An explicit model of the slice of the filesystem that the engine works
//! on: a flat collection of uniquely named files and directories. The view
//! of the model is a map from path to node, and every mutating operation of
//! the library states its effect over that map.

use vstd::prelude::*;
use crate::paths::is_child_of;
use crate::paths::is_within;
use crate::paths::path_is_child_of;
use crate::paths::path_rebase;
use crate::paths::path_within;
use crate::paths::rebase;
use crate::text::str_eq;

verus! {

/// One modelled file or directory.
pub struct FsEntry {
    pub path: String,
    pub is_dir: bool,
    pub content: String,
    pub modified_at: i64,
}

/// The mathematical image of one entry.
pub struct FsNode {
    pub is_dir: bool,
    pub content: Seq<char>,
    pub modified_at: int,
}

impl FsEntry {
    pub open spec fn node(&self) -> FsNode {
        FsNode {
            is_dir: self.is_dir,
            content: self.content@,
            modified_at: self.modified_at as int,
        }
    }
}

impl Clone for FsEntry {
    fn clone(&self) -> (r: Self)
        ensures
            r.path@ == self.path@,
            r.node() == self.node(),
    {
        FsEntry {
            path: self.path.clone(),
            is_dir: self.is_dir,
            content: self.content.clone(),
            modified_at: self.modified_at,
        }
    }
}

/// No two entries share a path.
pub open spec fn unique_paths(es: Seq<FsEntry>) -> bool {
    forall|i: int, j: int| 0 <= i < j < es.len() ==> es[i].path@ != es[j].path@
}

/// The modelled filesystem state.
pub struct FsState {
    pub entries: Vec<FsEntry>,
}

impl View for FsState {
    type V = Map<Seq<char>, FsNode>;

    open spec fn view(&self) -> Map<Seq<char>, FsNode> {
        map_of(self.entries@)
    }
}

/// The map from path to node described by a sequence of entries; a later
/// entry wins, though a well-formed state never has two entries on one path.
pub open spec fn map_of(es: Seq<FsEntry>) -> Map<Seq<char>, FsNode>
    decreases es.len(),
{
    if es.len() == 0 {
        Map::empty()
    } else {
        map_of(es.drop_last()).insert(es.last().path@, es.last().node())
    }
}

pub proof fn lemma_map_of_contains(es: Seq<FsEntry>, p: Seq<char>)
    ensures
        map_of(es).contains_key(p) <==> exists|i: int| 0 <= i < es.len() && es[i].path@ == p,
    decreases es.len(),
{
    if es.len() > 0 {
        lemma_map_of_contains(es.drop_last(), p);
        if map_of(es).contains_key(p) {
            if es.last().path@ == p {
                assert(es[es.len() - 1].path@ == p);
            } else {
                let i = choose|i: int| 0 <= i < es.drop_last().len() && es.drop_last()[i].path@
                    == p;
                assert(es[i].path@ == p);
            }
        }
        if exists|i: int| 0 <= i < es.len() && es[i].path@ == p {
            let i = choose|i: int| 0 <= i < es.len() && es[i].path@ == p;
            if i < es.len() - 1 {
                assert(es.drop_last()[i].path@ == p);
            }
        }
    }
}

pub proof fn lemma_map_of_index(es: Seq<FsEntry>, i: int)
    requires
        unique_paths(es),
        0 <= i < es.len(),
    ensures
        map_of(es).contains_key(es[i].path@),
        map_of(es)[es[i].path@] == es[i].node(),
    decreases es.len(),
{
    if i == es.len() - 1 {
    } else {
        assert(unique_paths(es.drop_last()));
        lemma_map_of_index(es.drop_last(), i);
        assert(es[i].path@ != es.last().path@);
    }
}

pub proof fn lemma_map_of_remove(es: Seq<FsEntry>, i: int)
    requires
        unique_paths(es),
        0 <= i < es.len(),
    ensures
        map_of(es.remove(i)) =~= map_of(es).remove(es[i].path@),
        unique_paths(es.remove(i)),
    decreases es.len(),
{
    let p = es[i].path@;
    assert(unique_paths(es.remove(i))) by {
        assert forall|a: int, b: int|
            0 <= a < b < es.remove(i).len() implies es.remove(i)[a].path@ != es.remove(
            i,
        )[b].path@ by {
            let a0 = if a < i {
                a
            } else {
                a + 1
            };
            let b0 = if b < i {
                b
            } else {
                b + 1
            };
            assert(es.remove(i)[a] == es[a0] && es.remove(i)[b] == es[b0]);
        }
    }
    if i == es.len() - 1 {
        assert(es.remove(i) =~= es.drop_last());
        lemma_map_of_contains(es.drop_last(), p);
        assert(!map_of(es.drop_last()).contains_key(p));
        assert(map_of(es.drop_last()) =~= map_of(es).remove(p));
    } else {
        lemma_map_of_remove(es.drop_last(), i);
        assert(es.remove(i).drop_last() =~= es.drop_last().remove(i));
        assert(es.remove(i).last() == es.last());
        assert(map_of(es.remove(i)) == map_of(es.drop_last().remove(i)).insert(
            es.last().path@,
            es.last().node(),
        ));
        assert(es.last().path@ != p);
    }
}

/// Rebasing is injective on the keys within `src`.
pub proof fn lemma_rebase_injective(k1: Seq<char>, k2: Seq<char>, src: Seq<char>, dst: Seq<char>)
    requires
        is_within(k1, src),
        is_within(k2, src),
        rebase(k1, src, dst) == rebase(k2, src, dst),
    ensures
        k1 == k2,
{
    let l = src.len() as int;
    assert(k1.take(l) =~= src);
    assert(k2.take(l) =~= src);
    assert(k1.skip(l).len() == k2.skip(l).len()) by {
        assert(rebase(k1, src, dst).len() == rebase(k2, src, dst).len());
    }
    assert(k1.skip(l) =~= k2.skip(l)) by {
        assert forall|i: int| 0 <= i < k1.skip(l).len() implies k1.skip(l)[i] == k2.skip(
            l,
        )[i] by {
            assert(rebase(k1, src, dst)[dst.len() + i] == k1.skip(l)[i]);
            assert(rebase(k2, src, dst)[dst.len() + i] == k2.skip(l)[i]);
        }
    }
    assert(k1 =~= k2) by {
        assert forall|i: int| 0 <= i < k1.len() implies k1[i] == k2[i] by {
            if i < l {
                assert(k1.take(l)[i] == k1[i] && k2.take(l)[i] == k2[i]);
            } else {
                assert(k1.skip(l)[i - l] == k1[i] && k2.skip(l)[i - l] == k2[i]);
            }
        }
    }
}

/// A key within `src` rebases to a key within `dst`.
pub proof fn lemma_rebase_within(k: Seq<char>, src: Seq<char>, dst: Seq<char>)
    requires
        is_within(k, src),
    ensures
        is_within(rebase(k, src, dst), dst),
{
    let l = src.len() as int;
    let r = rebase(k, src, dst);
    if k == src {
        assert(r =~= dst);
    } else {
        assert(r.len() > dst.len());
        assert(r.take(dst.len() as int) =~= dst);
        assert(r[dst.len() as int] == k.skip(l)[0]);
        assert(k.skip(l)[0] == k[l]);
    }
}

/// A key within `src`, rebased onto a destination that neither contains nor
/// lies within `src`, escapes `src`.
pub proof fn lemma_rebase_escapes(k0: Seq<char>, src: Seq<char>, dst: Seq<char>)
    requires
        is_within(k0, src),
        !is_within(dst, src),
        !is_within(src, dst),
    ensures
        !is_within(rebase(k0, src, dst), src),
{
    lemma_rebase_within(k0, src, dst);
    let kr = rebase(k0, src, dst);
    if is_within(kr, src) {
        crate::paths::lemma_ancestors_comparable(kr, dst, src);
    }
}

pub proof fn lemma_map_of_concat(a: Seq<FsEntry>, b: Seq<FsEntry>)
    ensures
        map_of(a + b) =~= map_of(a).union_prefer_right(map_of(b)),
    decreases b.len(),
{
    if b.len() == 0 {
        assert(a + b =~= a);
    } else {
        lemma_map_of_concat(a, b.drop_last());
        assert((a + b).drop_last() =~= a + b.drop_last());
        assert((a + b).last() == b.last());
    }
}

/// Nothing in the map lies at or below `d`.
pub open spec fn map_subtree_vacant(m: Map<Seq<char>, FsNode>, d: Seq<char>) -> bool {
    forall|k: Seq<char>| #[trigger] m.contains_key(k) ==> !is_within(k, d)
}

impl FsState {
    /// Well-formed: no two entries share a path.
    pub open spec fn wf(&self) -> bool {
        unique_paths(self.entries@)
    }

    /// An empty filesystem model.
    pub fn new() -> (r: FsState)
        ensures
            r.wf(),
            r@ =~= Map::<Seq<char>, FsNode>::empty(),
    {
        FsState { entries: Vec::new() }
    }

    /// The index of the entry at `path`, if one exists.
    pub fn find_index(&self, path: &str) -> (r: Option<usize>)
        ensures
            match r {
                Some(i) => i < self.entries@.len() && self.entries@[i as int].path@ == path@,
                None => !self@.contains_key(path@),
            },
    {
        proof {
            lemma_map_of_contains(self.entries@, path@);
        }
        let n = self.entries.len();
        let mut i: usize = 0;
        while i < n
            invariant
                n == self.entries@.len(),
                i <= n,
                forall|k: int| 0 <= k < i ==> self.entries@[k].path@ != path@,
                map_of(self.entries@).contains_key(path@) <==> exists|k: int|
                    0 <= k < n && self.entries@[k].path@ == path@,
            decreases n - i,
        {
            if str_eq(self.entries[i].path.as_str(), path) {
                return Some(i);
            }
            i += 1;
        }
        None
    }

    /// Does an entry exist at `path`?
    pub fn contains_path(&self, path: &str) -> (r: bool)
        requires
            self.wf(),
        ensures
            r == self@.contains_key(path@),
    {
        match self.find_index(path) {
            Some(i) => {
                proof {
                    lemma_map_of_index(self.entries@, i as int);
                }
                true
            },
            None => false,
        }
    }

    /// The entry at `path`, if one exists.
    pub fn get_entry(&self, path: &str) -> (r: Option<&FsEntry>)
        requires
            self.wf(),
        ensures
            match r {
                Some(e) => self@.contains_key(path@) && e.path@ == path@ && self@[path@]
                    == e.node(),
                None => !self@.contains_key(path@),
            },
    {
        match self.find_index(path) {
            Some(i) => {
                proof {
                    lemma_map_of_index(self.entries@, i as int);
                }
                Some(&self.entries[i])
            },
            None => None,
        }
    }

    /// Insert or overwrite the entry at `e.path`.
    pub fn put_entry(&mut self, e: FsEntry)
        requires
            old(self).wf(),
        ensures
            final(self).wf(),
            final(self)@ =~= old(self)@.insert(e.path@, e.node()),
    {
        let ghost es0 = self.entries@;
        match self.find_index(e.path.as_str()) {
            Some(i) => {
                proof {
                    lemma_map_of_remove(es0, i as int);
                    lemma_map_of_contains(es0.remove(i as int), e.path@);
                }
                self.entries.remove(i);
                self.entries.push(e);
                proof {
                    let ghost es1 = es0.remove(i as int);
                    assert(self.entries@ == es1.push(e));
                    assert(self.entries@.drop_last() =~= es1);
                    assert(unique_paths(self.entries@)) by {
                        assert forall|a: int, b: int|
                            0 <= a < b < self.entries@.len() implies self.entries@[a].path@
                            != self.entries@[b].path@ by {
                            if b == self.entries@.len() - 1 {
                                assert(!map_of(es1).contains_key(e.path@));
                                assert(es1[a].path@ != e.path@);
                            }
                        }
                    }
                    assert(self@ =~= old(self)@.insert(e.path@, e.node()));
                }
            },
            None => {
                proof {
                    lemma_map_of_contains(es0, e.path@);
                }
                self.entries.push(e);
                proof {
                    assert(self.entries@.drop_last() =~= es0);
                    assert(unique_paths(self.entries@)) by {
                        assert forall|a: int, b: int|
                            0 <= a < b < self.entries@.len() implies self.entries@[a].path@
                            != self.entries@[b].path@ by {
                            if b == self.entries@.len() - 1 {
                                assert(es0[a].path@ != self.entries@[b].path@);
                            }
                        }
                    }
                    assert(self@ =~= old(self)@.insert(e.path@, e.node()));
                }
            },
        }
    }

    /// Create or overwrite a file.
    pub fn put_file(&mut self, path: String, content: String, mtime: i64)
        requires
            old(self).wf(),
        ensures
            final(self).wf(),
            final(self)@ =~= old(self)@.insert(
                path@,
                FsNode { is_dir: false, content: content@, modified_at: mtime as int },
            ),
    {
        self.put_entry(FsEntry { path, is_dir: false, content, modified_at: mtime });
    }

    /// Create or overwrite a directory node.
    pub fn put_dir(&mut self, path: String, mtime: i64)
        requires
            old(self).wf(),
        ensures
            final(self).wf(),
            final(self)@ =~= old(self)@.insert(
                path@,
                FsNode { is_dir: true, content: Seq::empty(), modified_at: mtime as int },
            ),
    {
        let e = FsEntry { path, is_dir: true, content: String::new(), modified_at: mtime };
        assert(e.content@ =~= Seq::<char>::empty());
        self.put_entry(e);
    }

    /// Remove the entry at `path`, if any.
    pub fn remove_path(&mut self, path: &str)
        requires
            old(self).wf(),
        ensures
            final(self).wf(),
            final(self)@ =~= old(self)@.remove(path@),
    {
        match self.find_index(path) {
            Some(i) => {
                proof {
                    lemma_map_of_remove(self.entries@, i as int);
                }
                self.entries.remove(i);
            },
            None => {
                proof {
                    assert(self@ =~= old(self)@.remove(path@));
                }
            },
        }
    }

    /// Remove `path` and everything below it.
    pub fn remove_subtree(&mut self, path: &str)
        requires
            old(self).wf(),
        ensures
            final(self).wf(),
            forall|k: Seq<char>| #[trigger]
                final(self)@.contains_key(k) <==> old(self)@.contains_key(k) && !is_within(
                    k,
                    path@,
                ),
            forall|k: Seq<char>| #[trigger]
                final(self)@.contains_key(k) ==> final(self)@[k] == old(self)@[k],
    {
        let ghost es0 = self.entries@;
        let mut kept: Vec<FsEntry> = Vec::new();
        let n = self.entries.len();
        let mut i: usize = 0;
        while i < n
            invariant
                n == es0.len(),
                self.entries@ == es0,
                unique_paths(es0),
                i <= n,
                forall|m: int| 0 <= m < kept@.len() ==> exists|j: int|
                    0 <= j < i && #[trigger] kept@[m].path@ == es0[j].path@ && kept@[m].node()
                        == es0[j].node(),
                forall|j: int|
                    0 <= j < i && !is_within(es0[j].path@, path@) ==> exists|m: int|
                        0 <= m < kept@.len() && #[trigger] kept@[m].path@ == es0[j].path@
                            && kept@[m].node() == es0[j].node(),
                forall|m: int|
                    0 <= m < kept@.len() ==> !is_within(#[trigger] kept@[m].path@, path@),
                unique_paths(kept@),
            decreases n - i,
        {
            if !path_within(self.entries[i].path.as_str(), path) {
                let e = self.entries[i].clone();
                let ghost kept0 = kept@;
                kept.push(e);
                proof {
                    assert(kept@.drop_last() =~= kept0);
                    assert(kept@[kept@.len() - 1].path@ == es0[i as int].path@);
                    assert(unique_paths(kept@)) by {
                        assert forall|a: int, b: int|
                            0 <= a < b < kept@.len() implies kept@[a].path@ != kept@[b].path@ by {
                            if b == kept@.len() - 1 {
                                let j = choose|j: int|
                                    0 <= j < i && kept@[a].path@ == es0[j].path@ && kept@[a].node()
                                        == es0[j].node();
                                assert(es0[j].path@ != es0[i as int].path@);
                            }
                        }
                    }
                }
            }
            i += 1;
        }
        self.entries = kept;
        proof {
            assert forall|k: Seq<char>| #[trigger]
                self@.contains_key(k) <==> (old(self)@.contains_key(k) && !is_within(
                k,
                path@,
            )) by {
                lemma_map_of_contains(self.entries@, k);
                lemma_map_of_contains(es0, k);
                if self@.contains_key(k) {
                    let m = choose|m: int|
                        0 <= m < self.entries@.len() && self.entries@[m].path@ == k;
                    let j = choose|j: int|
                        0 <= j < n && self.entries@[m].path@ == es0[j].path@
                            && self.entries@[m].node() == es0[j].node();
                    assert(es0[j].path@ == k);
                } else {
                    if old(self)@.contains_key(k) && !is_within(k, path@) {
                        let j = choose|j: int| 0 <= j < es0.len() && es0[j].path@ == k;
                        assert(exists|m: int|
                            0 <= m < self.entries@.len() && self.entries@[m].path@ == es0[j].path@
                                && self.entries@[m].node() == es0[j].node());
                    }
                }
            }
            assert forall|k: Seq<char>| #[trigger]
                self@.contains_key(k) implies self@[k] == old(self)@[k] by {
                lemma_map_of_contains(self.entries@, k);
                let m = choose|m: int| 0 <= m < self.entries@.len() && self.entries@[m].path@ == k;
                lemma_map_of_index(self.entries@, m);
                let j = choose|j: int|
                    0 <= j < n && self.entries@[m].path@ == es0[j].path@ && self.entries@[m].node()
                        == es0[j].node();
                lemma_map_of_index(es0, j);
            }
        }
    }

    /// Is nothing stored at or below `dir`?
    pub fn subtree_vacant(&self, dir: &str) -> (r: bool)
        requires
            self.wf(),
        ensures
            r == map_subtree_vacant(self@, dir@),
    {
        let ghost es0 = self.entries@;
        let n = self.entries.len();
        let mut i: usize = 0;
        while i < n
            invariant
                n == es0.len(),
                self.entries@ == es0,
                unique_paths(es0),
                i <= n,
                forall|j: int| 0 <= j < i ==> !is_within(#[trigger] es0[j].path@, dir@),
            decreases n - i,
        {
            if path_within(self.entries[i].path.as_str(), dir) {
                proof {
                    lemma_map_of_index(es0, i as int);
                }
                return false;
            }
            i += 1;
        }
        proof {
            assert forall|k: Seq<char>| self@.contains_key(k) implies !is_within(k, dir@) by {
                lemma_map_of_contains(es0, k);
                let j = choose|j: int| 0 <= j < es0.len() && es0[j].path@ == k;
            }
        }
        assert(map_subtree_vacant(self@, dir@));
        true
    }

    /// Every entry at or below `dir`, in entry order.
    pub fn subtree_entries(&self, dir: &str) -> (r: Vec<FsEntry>)
        requires
            self.wf(),
        ensures
            forall|m: int|
                0 <= m < r@.len() ==> is_within(#[trigger] r@[m].path@, dir@)
                    && self@.contains_key(r@[m].path@) && self@[r@[m].path@] == r@[m].node(),
            forall|k: Seq<char>|
                self@.contains_key(k) && is_within(k, dir@) ==> exists|m: int|
                    0 <= m < r@.len() && #[trigger] r@[m].path@ == k,
            forall|m1: int, m2: int| 0 <= m1 < m2 < r@.len() ==> r@[m1].path@ != r@[m2].path@,
    {
        let ghost es0 = self.entries@;
        let mut r: Vec<FsEntry> = Vec::new();
        let n = self.entries.len();
        let mut i: usize = 0;
        while i < n
            invariant
                n == es0.len(),
                self.entries@ == es0,
                unique_paths(es0),
                i <= n,
                forall|m: int| 0 <= m < r@.len() ==> exists|j: int|
                    0 <= j < i && #[trigger] r@[m].path@ == es0[j].path@ && r@[m].node()
                        == es0[j].node() && is_within(r@[m].path@, dir@),
                forall|j: int|
                    0 <= j < i && is_within(#[trigger] es0[j].path@, dir@) ==> exists|m: int|
                        0 <= m < r@.len() && r@[m].path@ == es0[j].path@,
                forall|m1: int, m2: int| 0 <= m1 < m2 < r@.len() ==> r@[m1].path@ != r@[m2].path@,
            decreases n - i,
        {
            if path_within(self.entries[i].path.as_str(), dir) {
                let ghost r0 = r@;
                r.push(self.entries[i].clone());
                proof {
                    assert(r@.drop_last() =~= r0);
                    assert(r@[r@.len() - 1].path@ == es0[i as int].path@ && r@[r@.len() - 1].node()
                        == es0[i as int].node());
                    assert forall|m1: int, m2: int|
                        0 <= m1 < m2 < r@.len() implies r@[m1].path@ != r@[m2].path@ by {
                        if m2 == r@.len() - 1 {
                            let j = choose|j: int|
                                0 <= j < i && r@[m1].path@ == es0[j].path@ && r@[m1].node()
                                    == es0[j].node() && is_within(r@[m1].path@, dir@);
                            assert(es0[j].path@ != es0[i as int].path@);
                        }
                    }
                }
            }
            i += 1;
        }
        proof {
            assert forall|m: int|
                0 <= m < r@.len() implies is_within(#[trigger] r@[m].path@, dir@)
                && self@.contains_key(r@[m].path@) && self@[r@[m].path@] == r@[m].node() by {
                let j = choose|j: int|
                    0 <= j < n && r@[m].path@ == es0[j].path@ && r@[m].node() == es0[j].node()
                        && is_within(r@[m].path@, dir@);
                lemma_map_of_index(es0, j);
            }
            assert forall|k: Seq<char>|
                self@.contains_key(k) && is_within(k, dir@) implies exists|m: int|
                0 <= m < r@.len() && #[trigger] r@[m].path@ == k by {
                lemma_map_of_contains(es0, k);
                let j = choose|j: int| 0 <= j < es0.len() && es0[j].path@ == k;
            }
        }
        r
    }

    /// Copy `src` and everything below it beneath `dst`, stamping the copies
    /// with `mtime`. The destination subtree must be vacant.
    pub fn copy_subtree(&mut self, src: &str, dst: &str, mtime: i64)
        requires
            old(self).wf(),
            forall|k: Seq<char>| old(self)@.contains_key(k) ==> !is_within(k, dst@),
            !is_within(dst@, src@),
        ensures
            final(self).wf(),
            forall|k: Seq<char>| #[trigger]
                old(self)@.contains_key(k) ==> final(self)@.contains_key(k) && final(self)@[k]
                    == old(self)@[k],
            forall|k: Seq<char>| #[trigger]
                final(self)@.contains_key(k) ==> old(self)@.contains_key(k) || is_within(k, dst@),
            forall|k0: Seq<char>|
                old(self)@.contains_key(k0) && is_within(k0, src@) ==> {
                    let kr = #[trigger] rebase(k0, src@, dst@);
                    &&& final(self)@.contains_key(kr)
                    &&& final(self)@[kr].is_dir == old(self)@[k0].is_dir
                    &&& final(self)@[kr].content == old(self)@[k0].content
                    &&& final(self)@[kr].modified_at == mtime as int
                },
    {
        let ghost m0 = self@;
        let snap = self.subtree_entries(src);
        let ghost snapg = snap@;
        let t_end = snap.len();
        let mut t: usize = 0;
        while t < t_end
            invariant
                t_end == snapg.len(),
                snap@ == snapg,
                t <= t_end,
                self.wf(),
                forall|k: Seq<char>| m0.contains_key(k) ==> !is_within(k, dst@),
                forall|m: int|
                    0 <= m < snapg.len() ==> is_within(#[trigger] snapg[m].path@, src@)
                        && m0.contains_key(snapg[m].path@) && m0[snapg[m].path@]
                        == snapg[m].node(),
                forall|m1: int, m2: int|
                    0 <= m1 < m2 < snapg.len() ==> snapg[m1].path@ != snapg[m2].path@,
                forall|k: Seq<char>| #[trigger]
                    m0.contains_key(k) ==> self@.contains_key(k) && self@[k] == m0[k],
                forall|k: Seq<char>| #[trigger]
                    self@.contains_key(k) ==> m0.contains_key(k) || is_within(k, dst@),
                forall|m: int|
                    0 <= m < t ==> {
                        let kr = rebase(#[trigger] snapg[m].path@, src@, dst@);
                        &&& self@.contains_key(kr)
                        &&& self@[kr].is_dir == snapg[m].is_dir
                        &&& self@[kr].content == snapg[m].content@
                        &&& self@[kr].modified_at == mtime as int
                    },
            decreases t_end - t,
        {
            let newp = path_rebase(snap[t].path.as_str(), src, dst);
            proof {
                lemma_rebase_within(snapg[t as int].path@, src@, dst@);
                assert forall|m: int| 0 <= m < t implies rebase(snapg[m].path@, src@, dst@)
                    != newp@ by {
                    if rebase(snapg[m].path@, src@, dst@) == newp@ {
                        lemma_rebase_injective(
                            snapg[m].path@,
                            snapg[t as int].path@,
                            src@,
                            dst@,
                        );
                    }
                }
            }
            let e = FsEntry {
                path: newp,
                is_dir: snap[t].is_dir,
                content: snap[t].content.clone(),
                modified_at: mtime,
            };
            self.put_entry(e);
            t += 1;
        }
        proof {
            assert forall|k0: Seq<char>|
                old(self)@.contains_key(k0) && is_within(k0, src@) implies {
                let kr = rebase(k0, src@, dst@);
                &&& self@.contains_key(kr)
                &&& self@[kr].is_dir == old(self)@[k0].is_dir
                &&& self@[kr].content == old(self)@[k0].content
                &&& self@[kr].modified_at == mtime as int
            } by {
                let m = choose|m: int| 0 <= m < snapg.len() && #[trigger] snapg[m].path@ == k0;
                assert(0 <= m < t_end);
            }
        }
    }

    /// The paths of the immediate children of `dir`, in entry order.
    pub fn child_paths(&self, dir: &str) -> (r: Vec<String>)
        requires
            self.wf(),
        ensures
            forall|m: int|
                0 <= m < r@.len() ==> self@.contains_key(#[trigger] r@[m]@) && is_child_of(
                    r@[m]@,
                    dir@,
                ),
            forall|k: Seq<char>|
                self@.contains_key(k) && is_child_of(k, dir@) ==> exists|m: int|
                    0 <= m < r@.len() && #[trigger] r@[m]@ == k,
            forall|m1: int, m2: int| 0 <= m1 < m2 < r@.len() ==> r@[m1]@ != r@[m2]@,
    {
        let ghost es0 = self.entries@;
        let mut r: Vec<String> = Vec::new();
        let n = self.entries.len();
        let mut i: usize = 0;
        while i < n
            invariant
                n == es0.len(),
                self.entries@ == es0,
                unique_paths(es0),
                i <= n,
                forall|m: int| 0 <= m < r@.len() ==> exists|j: int|
                    0 <= j < i && #[trigger] r@[m]@ == es0[j].path@ && is_child_of(r@[m]@, dir@),
                forall|j: int|
                    0 <= j < i && is_child_of(#[trigger] es0[j].path@, dir@) ==> exists|m: int|
                        0 <= m < r@.len() && r@[m]@ == es0[j].path@,
                forall|m1: int, m2: int| 0 <= m1 < m2 < r@.len() ==> r@[m1]@ != r@[m2]@,
            decreases n - i,
        {
            if path_is_child_of(self.entries[i].path.as_str(), dir) {
                let ghost r0 = r@;
                r.push(self.entries[i].path.clone());
                proof {
                    assert(r@.drop_last() =~= r0);
                    assert(r@[r@.len() - 1]@ == es0[i as int].path@);
                    assert forall|m1: int, m2: int|
                        0 <= m1 < m2 < r@.len() implies r@[m1]@ != r@[m2]@ by {
                        if m2 == r@.len() - 1 {
                            let j = choose|j: int|
                                0 <= j < i && r@[m1]@ == es0[j].path@ && is_child_of(
                                    r@[m1]@,
                                    dir@,
                                );
                            assert(es0[j].path@ != es0[i as int].path@);
                        }
                    }
                }
            }
            i += 1;
        }
        proof {
            assert forall|m: int|
                0 <= m < r@.len() implies self@.contains_key(#[trigger] r@[m]@) && is_child_of(
                r@[m]@,
                dir@,
            ) by {
                let j = choose|j: int|
                    0 <= j < n && r@[m]@ == es0[j].path@ && is_child_of(r@[m]@, dir@);
                lemma_map_of_index(es0, j);
            }
            assert forall|k: Seq<char>|
                self@.contains_key(k) && is_child_of(k, dir@) implies exists|m: int|
                0 <= m < r@.len() && #[trigger] r@[m]@ == k by {
                lemma_map_of_contains(es0, k);
                let j = choose|j: int| 0 <= j < es0.len() && es0[j].path@ == k;
            }
        }
        r
    }

    /// The paths of every entry strictly below `dir`, in entry order.
    pub fn subtree_paths(&self, dir: &str) -> (r: Vec<String>)
        requires
            self.wf(),
        ensures
            forall|m: int|
                0 <= m < r@.len() ==> self@.contains_key(#[trigger] r@[m]@)
                    && crate::paths::is_strictly_under(r@[m]@, dir@),
            forall|k: Seq<char>|
                self@.contains_key(k) && crate::paths::is_strictly_under(k, dir@) ==> exists|
                    m: int,
                |
                    0 <= m < r@.len() && #[trigger] r@[m]@ == k,
            forall|m1: int, m2: int| 0 <= m1 < m2 < r@.len() ==> r@[m1]@ != r@[m2]@,
    {
        let ghost es0 = self.entries@;
        let mut r: Vec<String> = Vec::new();
        let n = self.entries.len();
        let mut i: usize = 0;
        while i < n
            invariant
                n == es0.len(),
                self.entries@ == es0,
                unique_paths(es0),
                i <= n,
                forall|m: int| 0 <= m < r@.len() ==> exists|j: int|
                    0 <= j < i && #[trigger] r@[m]@ == es0[j].path@
                        && crate::paths::is_strictly_under(r@[m]@, dir@),
                forall|j: int|
                    0 <= j < i && crate::paths::is_strictly_under(#[trigger] es0[j].path@, dir@)
                        ==> exists|m: int| 0 <= m < r@.len() && r@[m]@ == es0[j].path@,
                forall|m1: int, m2: int| 0 <= m1 < m2 < r@.len() ==> r@[m1]@ != r@[m2]@,
            decreases n - i,
        {
            if crate::paths::path_strictly_under(self.entries[i].path.as_str(), dir) {
                let ghost r0 = r@;
                r.push(self.entries[i].path.clone());
                proof {
                    assert(r@.drop_last() =~= r0);
                    assert(r@[r@.len() - 1]@ == es0[i as int].path@);
                    assert forall|m1: int, m2: int|
                        0 <= m1 < m2 < r@.len() implies r@[m1]@ != r@[m2]@ by {
                        if m2 == r@.len() - 1 {
                            let j = choose|j: int|
                                0 <= j < i && r@[m1]@ == es0[j].path@
                                    && crate::paths::is_strictly_under(r@[m1]@, dir@);
                            assert(es0[j].path@ != es0[i as int].path@);
                        }
                    }
                }
            }
            i += 1;
        }
        proof {
            assert forall|m: int|
                0 <= m < r@.len() implies self@.contains_key(#[trigger] r@[m]@)
                && crate::paths::is_strictly_under(r@[m]@, dir@) by {
                let j = choose|j: int|
                    0 <= j < n && r@[m]@ == es0[j].path@ && crate::paths::is_strictly_under(
                        r@[m]@,
                        dir@,
                    );
                lemma_map_of_index(es0, j);
            }
            assert forall|k: Seq<char>|
                self@.contains_key(k) && crate::paths::is_strictly_under(k, dir@) implies exists|
                m: int,
            | 0 <= m < r@.len() && #[trigger] r@[m]@ == k by {
                lemma_map_of_contains(es0, k);
                let j = choose|j: int| 0 <= j < es0.len() && es0[j].path@ == k;
            }
        }
        r
    }
}

} // verus!
