//! Verified path arithmetic over `/`-separated path strings.

use vstd::prelude::*;
use crate::text::str_starts_with;
use crate::text::starts_with_spec;
use crate::external::push_char;

verus! {

/// The index just after the last `/` of `p`, or 0 when `p` has no `/`.
pub open spec fn after_last_slash(p: Seq<char>) -> int
    decreases p.len(),
{
    if p.len() == 0 {
        0
    } else if p.last() == '/' {
        p.len() as int
    } else {
        after_last_slash(p.drop_last())
    }
}

/// The final component of `p`.
pub open spec fn basename_of(p: Seq<char>) -> Seq<char> {
    p.skip(after_last_slash(p))
}

/// Everything before the last `/` of `p`; empty when `p` has no `/`.
pub open spec fn parent_of(p: Seq<char>) -> Seq<char> {
    if after_last_slash(p) == 0 {
        Seq::empty()
    } else {
        p.take(after_last_slash(p) - 1)
    }
}

pub proof fn lemma_after_last_slash(p: Seq<char>)
    ensures
        0 <= after_last_slash(p) <= p.len(),
        forall|m: int| after_last_slash(p) <= m < p.len() ==> p[m] != '/',
        after_last_slash(p) > 0 ==> p[after_last_slash(p) - 1] == '/',
    decreases p.len(),
{
    if p.len() > 0 && p.last() != '/' {
        lemma_after_last_slash(p.drop_last());
        assert(forall|m: int|
            0 <= m < p.len() - 1 ==> p[m] == p.drop_last()[m]);
    }
}

/// `after_last_slash` is the unique cut point: a position with a slash just
/// before it (or the start) and no slash at or after it.
pub proof fn lemma_after_last_slash_unique(p: Seq<char>, j: int)
    requires
        0 <= j <= p.len(),
        forall|m: int| j <= m < p.len() ==> p[m] != '/',
        j > 0 ==> p[j - 1] == '/',
    ensures
        j == after_last_slash(p),
{
    lemma_after_last_slash(p);
    let a = after_last_slash(p);
    if j < a {
        assert(p[a - 1] == '/');
    } else if j > a {
        assert(p[j - 1] == '/');
    }
}

/// The final path component, after the last `/`.
pub fn path_basename(p: &str) -> (r: String)
    ensures
        r@ == basename_of(p@),
{
    let n = p.unicode_len();
    let mut j: usize = n;
    while j > 0 && p.get_char(j - 1) != '/'
        invariant
            n == p@.len(),
            j <= n,
            forall|m: int| j <= m < n ==> p@[m] != '/',
        decreases j,
    {
        j -= 1;
    }
    proof {
        lemma_after_last_slash_unique(p@, j as int);
    }
    String::from_str(p.substring_char(j, n))
}

/// Everything before the last `/`; empty when there is none.
pub fn path_parent(p: &str) -> (r: String)
    ensures
        r@ == parent_of(p@),
{
    let n = p.unicode_len();
    let mut j: usize = n;
    while j > 0 && p.get_char(j - 1) != '/'
        invariant
            n == p@.len(),
            j <= n,
            forall|m: int| j <= m < n ==> p@[m] != '/',
        decreases j,
    {
        j -= 1;
    }
    proof {
        lemma_after_last_slash_unique(p@, j as int);
    }
    if j == 0 {
        let r = String::new();
        assert(r@ =~= parent_of(p@));
        r
    } else {
        let r = String::from_str(p.substring_char(0, j - 1));
        r
    }
}

/// `a` and `b` joined by a single `/`.
pub open spec fn path_join_spec(a: Seq<char>, b: Seq<char>) -> Seq<char> {
    a + seq!['/'] + b
}

pub fn path_join(a: &str, b: &str) -> (r: String)
    ensures
        r@ == path_join_spec(a@, b@),
{
    let mut r = a.to_owned();
    push_char(&mut r, '/');
    r.append(b);
    proof {
        assert(r@ =~= path_join_spec(a@, b@));
    }
    r
}

/// `k` lies strictly below the directory `d`.
pub open spec fn is_strictly_under(k: Seq<char>, d: Seq<char>) -> bool {
    k.len() > d.len() && k.take(d.len() as int) == d && k[d.len() as int] == '/'
}

/// `k` is `d` itself or lies strictly below it.
pub open spec fn is_within(k: Seq<char>, d: Seq<char>) -> bool {
    k == d || is_strictly_under(k, d)
}

/// `k` is an immediate child of the directory `d`.
pub open spec fn is_child_of(k: Seq<char>, d: Seq<char>) -> bool {
    is_strictly_under(k, d) && !k.skip(d.len() + 1 as int).contains('/')
}

/// The name of the child `k` of directory `d`.
pub open spec fn child_name(k: Seq<char>, d: Seq<char>) -> Seq<char> {
    k.skip(d.len() + 1 as int)
}

pub fn path_strictly_under(k: &str, d: &str) -> (r: bool)
    ensures
        r == is_strictly_under(k@, d@),
{
    let nk = k.unicode_len();
    let nd = d.unicode_len();
    if nk <= nd {
        return false;
    }
    if !str_starts_with(k, d) {
        return false;
    }
    k.get_char(nd) == '/'
}

pub fn path_within(k: &str, d: &str) -> (r: bool)
    ensures
        r == is_within(k@, d@),
{
    if crate::text::str_eq(k, d) {
        true
    } else {
        path_strictly_under(k, d)
    }
}

/// Does the character `c` occur in `s`?
pub fn str_contains_char(s: &str, c: char) -> (r: bool)
    ensures
        r == s@.contains(c),
{
    let n = s.unicode_len();
    let mut i: usize = 0;
    while i < n
        invariant
            n == s@.len(),
            i <= n,
            forall|m: int| 0 <= m < i ==> s@[m] != c,
        decreases n - i,
    {
        if s.get_char(i) == c {
            return true;
        }
        i += 1;
    }
    assert(!s@.contains(c));
    false
}

pub fn path_is_child_of(k: &str, d: &str) -> (r: bool)
    ensures
        r == is_child_of(k@, d@),
{
    if !path_strictly_under(k, d) {
        return false;
    }
    let nk = k.unicode_len();
    let nd = d.unicode_len();
    let suffix = k.substring_char(nd + 1, nk);
    !str_contains_char(suffix, '/')
}

/// The name of `k` as a child of `d`.
pub fn path_child_name(k: &str, d: &str) -> (r: String)
    requires
        is_strictly_under(k@, d@),
    ensures
        r@ == child_name(k@, d@),
{
    let nk = k.unicode_len();
    let nd = d.unicode_len();
    String::from_str(k.substring_char(nd + 1, nk))
}

/// Two distinct children of one directory do not contain each other.
pub proof fn lemma_siblings_not_nested(a: Seq<char>, b: Seq<char>, d: Seq<char>)
    requires
        is_child_of(a, d),
        is_child_of(b, d),
        a != b,
    ensures
        !is_within(a, b),
{
    if is_within(a, b) {
        assert(is_strictly_under(a, b));
        let j = b.len() as int;
        assert(a[j] == '/');
        assert(j >= d.len() + 1) by {
            assert(b.len() > d.len());
        }
        assert(a.skip(d.len() + 1 as int)[j - d.len() - 1] == a[j]);
        assert(a.skip(d.len() + 1 as int).contains('/'));
    }
}

/// Two ancestors of one path contain one another.
pub proof fn lemma_ancestors_comparable(k: Seq<char>, a: Seq<char>, b: Seq<char>)
    requires
        is_within(k, a),
        is_within(k, b),
    ensures
        is_within(a, b) || is_within(b, a),
{
    if a.len() <= b.len() {
        lemma_prefix_ancestor(k, a, b);
    } else {
        lemma_prefix_ancestor(k, b, a);
    }
}

/// The longer of two ancestors of one path lies within the shorter.
proof fn lemma_prefix_ancestor(k: Seq<char>, a: Seq<char>, b: Seq<char>)
    requires
        is_within(k, a),
        is_within(k, b),
        a.len() <= b.len(),
    ensures
        is_within(b, a),
{
    assert(forall|i: int| 0 <= i < a.len() ==> k[i] == a[i]) by {
        if k != a {
            assert(forall|i: int| 0 <= i < a.len() ==> k.take(a.len() as int)[i] == k[i]);
        }
    }
    assert(forall|i: int| 0 <= i < b.len() ==> k[i] == b[i]) by {
        if k != b {
            assert(forall|i: int| 0 <= i < b.len() ==> k.take(b.len() as int)[i] == k[i]);
        }
    }
    if a.len() == b.len() {
        assert(a =~= b);
    } else {
        assert(b.take(a.len() as int) =~= a);
        assert(k.len() > a.len()) by {
            assert(b.len() > a.len() && k.len() >= b.len());
        }
        assert(k != a);
        assert(b[a.len() as int] == k[a.len() as int]);
        assert(k[a.len() as int] == '/');
        assert(is_strictly_under(b, a));
    }
}

/// Containment of paths is transitive.
pub proof fn lemma_within_trans(a: Seq<char>, b: Seq<char>, c: Seq<char>)
    requires
        is_within(a, b),
        is_within(b, c),
    ensures
        is_within(a, c),
{
    if a != b && b != c {
        assert(forall|i: int| 0 <= i < b.len() ==> a[i] == b[i]) by {
            assert(forall|i: int| 0 <= i < b.len() ==> a.take(b.len() as int)[i] == a[i]);
        }
        assert(forall|i: int| 0 <= i < c.len() ==> b[i] == c[i]) by {
            assert(forall|i: int| 0 <= i < c.len() ==> b.take(c.len() as int)[i] == b[i]);
        }
        assert(a.take(c.len() as int) =~= c);
        assert(a[c.len() as int] == b[c.len() as int]);
    } else if a == b && b != c {
        assert(is_strictly_under(a, c));
    } else if a != b && b == c {
        assert(is_strictly_under(a, c));
    }
}

/// The remainder of `k` below `d`, slash included; rebasing it onto another
/// directory moves the whole subtree.
pub open spec fn rebase(k: Seq<char>, src: Seq<char>, dst: Seq<char>) -> Seq<char> {
    dst + k.skip(src.len() as int)
}

pub fn path_rebase(k: &str, src: &str, dst: &str) -> (r: String)
    requires
        src@.len() <= k@.len(),
    ensures
        r@ == rebase(k@, src@, dst@),
{
    let nk = k.unicode_len();
    let ns = src.unicode_len();
    let mut r = dst.to_owned();
    r.append(k.substring_char(ns, nk));
    r
}

} // verus!
