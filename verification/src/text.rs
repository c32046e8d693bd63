//! Verified character and string utilities: equality, lexicographic order,
//! prefix/suffix tests, substring search and replacement, and counting.

use vstd::prelude::*;

verus! {

broadcast use vstd::utf8::char_is_scalar, vstd::utf8::char_u32_cast;

// ---------------------------------------------------------------------------
// Equality and order
// ---------------------------------------------------------------------------

/// Character-wise string equality.
pub fn str_eq(a: &str, b: &str) -> (r: bool)
    ensures
        r == (a@ == b@),
{
    let na = a.unicode_len();
    let nb = b.unicode_len();
    if na != nb {
        assert(a@ != b@);
        return false;
    }
    let mut i: usize = 0;
    while i < na
        invariant
            na == a@.len(),
            na == b@.len(),
            i <= na,
            forall|k: int| 0 <= k < i ==> a@[k] == b@[k],
        decreases na - i,
    {
        if a.get_char(i) != b.get_char(i) {
            return false;
        }
        i += 1;
    }
    assert(a@ =~= b@);
    true
}

/// Lexicographic order on character sequences, by code point.
pub open spec fn lex_le(a: Seq<char>, b: Seq<char>) -> bool
    decreases a.len(),
{
    if a.len() == 0 {
        true
    } else if b.len() == 0 {
        false
    } else if a[0] != b[0] {
        (a[0] as u32) < (b[0] as u32)
    } else {
        lex_le(a.skip(1), b.skip(1))
    }
}

/// `lex_le` is total.
pub proof fn lemma_lex_le_total(a: Seq<char>, b: Seq<char>)
    ensures
        lex_le(a, b) || lex_le(b, a),
    decreases a.len(),
{
    if a.len() != 0 && b.len() != 0 {
        if a[0] == b[0] {
            lemma_lex_le_total(a.skip(1), b.skip(1));
        } else {
            vstd::utf8::char_u32_cast(a[0], a[0] as u32);
            vstd::utf8::char_u32_cast(b[0], b[0] as u32);
            assert(a[0] as u32 != b[0] as u32);
        }
    }
}

/// `lex_le` is transitive.
pub proof fn lemma_lex_le_trans(a: Seq<char>, b: Seq<char>, c: Seq<char>)
    requires
        lex_le(a, b),
        lex_le(b, c),
    ensures
        lex_le(a, c),
    decreases a.len(),
{
    if a.len() != 0 && b.len() != 0 && c.len() != 0 {
        if a[0] == b[0] && b[0] == c[0] {
            lemma_lex_le_trans(a.skip(1), b.skip(1), c.skip(1));
        }
    }
}

/// Lexicographic comparison of two strings.
pub fn str_le(a: &str, b: &str) -> (r: bool)
    ensures
        r == lex_le(a@, b@),
{
    let na = a.unicode_len();
    let nb = b.unicode_len();
    let mut i: usize = 0;
    proof {
        assert(a@.skip(0) =~= a@);
        assert(b@.skip(0) =~= b@);
    }
    while i < na && i < nb
        invariant
            na == a@.len(),
            nb == b@.len(),
            i <= na,
            i <= nb,
            forall|k: int| 0 <= k < i ==> a@[k] == b@[k],
            lex_le(a@, b@) == lex_le(a@.skip(i as int), b@.skip(i as int)),
        decreases na - i,
    {
        let ca = a.get_char(i);
        let cb = b.get_char(i);
        if ca != cb {
            assert(a@.skip(i as int)[0] == ca && b@.skip(i as int)[0] == cb);
            return ca < cb;
        }
        proof {
            assert(a@.skip(i as int).skip(1) =~= a@.skip(i + 1));
            assert(b@.skip(i as int).skip(1) =~= b@.skip(i + 1));
        }
        i += 1;
    }
    assert(i == na || i == nb);
    if na <= nb {
        assert(a@.skip(i as int).len() == 0);
        true
    } else {
        assert(b@.skip(i as int).len() == 0 && a@.skip(i as int).len() > 0);
        false
    }
}

// ---------------------------------------------------------------------------
// Prefix, suffix, single characters
// ---------------------------------------------------------------------------

/// Does `s` start with the prefix `p`?
pub open spec fn starts_with_spec(s: Seq<char>, p: Seq<char>) -> bool {
    p.len() <= s.len() && s.take(p.len() as int) == p
}

/// Does `s` end with the suffix `p`?
pub open spec fn ends_with_spec(s: Seq<char>, p: Seq<char>) -> bool {
    p.len() <= s.len() && s.skip(s.len() - p.len()) == p
}

pub fn str_starts_with(s: &str, p: &str) -> (r: bool)
    ensures
        r == starts_with_spec(s@, p@),
{
    let n = s.unicode_len();
    let m = p.unicode_len();
    if m > n {
        return false;
    }
    let mut i: usize = 0;
    while i < m
        invariant
            n == s@.len(),
            m == p@.len(),
            m <= n,
            i <= m,
            forall|k: int| 0 <= k < i ==> s@[k] == p@[k],
        decreases m - i,
    {
        if s.get_char(i) != p.get_char(i) {
            assert(s@.take(m as int)[i as int] != p@[i as int]);
            return false;
        }
        i += 1;
    }
    assert(s@.take(m as int) =~= p@);
    true
}

pub fn str_ends_with(s: &str, p: &str) -> (r: bool)
    ensures
        r == ends_with_spec(s@, p@),
{
    let n = s.unicode_len();
    let m = p.unicode_len();
    if m > n {
        return false;
    }
    let off = n - m;
    let mut i: usize = 0;
    while i < m
        invariant
            n == s@.len(),
            m == p@.len(),
            m <= n,
            off == n - m,
            i <= m,
            forall|k: int| 0 <= k < i ==> s@[off + k] == p@[k],
        decreases m - i,
    {
        if s.get_char(off + i) != p.get_char(i) {
            assert(s@.skip(off as int)[i as int] != p@[i as int]);
            return false;
        }
        i += 1;
    }
    assert(s@.skip(off as int) =~= p@);
    true
}

/// How many times `c` occurs in `s`.
pub open spec fn count_char(s: Seq<char>, c: char) -> nat
    decreases s.len(),
{
    if s.len() == 0 {
        0
    } else {
        (if s[0] == c {
            1nat
        } else {
            0nat
        }) + count_char(s.skip(1), c)
    }
}

pub fn count_char_in(s: &str, c: char) -> (r: usize)
    ensures
        r == count_char(s@, c),
{
    let n = s.unicode_len();
    let mut i: usize = 0;
    let mut r: usize = 0;
    proof {
        assert(s@.skip(0) =~= s@);
    }
    while i < n
        invariant
            n == s@.len(),
            i <= n,
            r + count_char(s@.skip(i as int), c) == count_char(s@, c),
            r <= i,
        decreases n - i,
    {
        proof {
            assert(s@.skip(i as int).skip(1) =~= s@.skip(i + 1));
            assert(s@.skip(i as int)[0] == s@[i as int]);
        }
        if s.get_char(i) == c {
            r += 1;
        }
        i += 1;
    }
    assert(s@.skip(n as int).len() == 0);
    r
}

// ---------------------------------------------------------------------------
// Substring search
// ---------------------------------------------------------------------------

/// `sub` occurs in `s` at position `i`.
pub open spec fn has_sub_at(s: Seq<char>, sub: Seq<char>, i: int) -> bool {
    0 <= i && i + sub.len() <= s.len() && s.subrange(i, i + sub.len() as int) == sub
}

/// `sub` occurs somewhere in `s`.
pub open spec fn contains_sub(s: Seq<char>, sub: Seq<char>) -> bool {
    exists|i: int| has_sub_at(s, sub, i)
}

/// The position of the first occurrence of `sub` in `s`, or -1.
pub open spec fn first_sub_at(s: Seq<char>, sub: Seq<char>) -> int
    decreases s.len(),
{
    if sub.len() > s.len() {
        -1
    } else if s.take(sub.len() as int) == sub {
        0
    } else if s.len() == 0 {
        -1
    } else {
        let r = first_sub_at(s.skip(1), sub);
        if r == -1 {
            -1
        } else {
            r + 1
        }
    }
}

pub proof fn lemma_first_sub_at(s: Seq<char>, sub: Seq<char>)
    ensures
        first_sub_at(s, sub) == -1 ==> forall|i: int| !has_sub_at(s, sub, i),
        first_sub_at(s, sub) >= 0 ==> has_sub_at(s, sub, first_sub_at(s, sub)) && (forall|k: int|
            0 <= k < first_sub_at(s, sub) ==> !has_sub_at(s, sub, k)),
        first_sub_at(s, sub) >= -1,
    decreases s.len(),
{
    let fm = first_sub_at(s, sub);
    if sub.len() > s.len() {
        assert(forall|i: int| !has_sub_at(s, sub, i));
    } else if s.take(sub.len() as int) == sub {
        assert(s.subrange(0, sub.len() as int) == s.take(sub.len() as int));
        assert(has_sub_at(s, sub, 0));
    } else if s.len() == 0 {
        assert(forall|i: int| !has_sub_at(s, sub, i));
    } else {
        lemma_first_sub_at(s.skip(1), sub);
        assert forall|i: int| 1 <= i implies has_sub_at(s, sub, i) == has_sub_at(
            s.skip(1),
            sub,
            i - 1,
        ) by {
            if i + sub.len() <= s.len() {
                assert(s.skip(1).subrange(i - 1, i - 1 + sub.len() as int) =~= s.subrange(
                    i,
                    i + sub.len() as int,
                ));
            }
        }
        assert(!has_sub_at(s, sub, 0)) by {
            assert(s.take(sub.len() as int) =~= s.subrange(0, sub.len() as int));
        }
        let r = first_sub_at(s.skip(1), sub);
        if r == -1 {
            assert forall|i: int| !has_sub_at(s, sub, i) by {
                if i >= 1 {
                    assert(!has_sub_at(s.skip(1), sub, i - 1));
                }
            }
        } else {
            assert(has_sub_at(s, sub, r + 1));
            assert forall|k: int| 0 <= k < r + 1 implies !has_sub_at(s, sub, k) by {
                if k >= 1 {
                    assert(!has_sub_at(s.skip(1), sub, k - 1));
                }
            }
        }
    }
}

/// Find the first occurrence of `sub` in `s`.
pub fn find_sub(s: &str, sub: &str) -> (r: Option<usize>)
    ensures
        match r {
            Some(i) => i == first_sub_at(s@, sub@) && has_sub_at(s@, sub@, i as int),
            None => first_sub_at(s@, sub@) == -1 && !contains_sub(s@, sub@),
        },
{
    proof {
        lemma_first_sub_at(s@, sub@);
    }
    let n = s.unicode_len();
    let m = sub.unicode_len();
    if m > n {
        return None;
    }
    if m == 0 {
        proof {
            assert(s@.subrange(0, 0) =~= sub@);
            assert(has_sub_at(s@, sub@, 0));
            assert(s@.take(0) =~= sub@);
            assert(first_sub_at(s@, sub@) == 0);
        }
        return Some(0);
    }
    let mut i: usize = 0;
    while i <= n - m
        invariant
            n == s@.len(),
            m == sub@.len(),
            0 < m <= n,
            i <= n - m + 1,
            forall|k: int| 0 <= k < i ==> !has_sub_at(s@, sub@, k),
            first_sub_at(s@, sub@) >= -1,
            first_sub_at(s@, sub@) == -1 ==> forall|q: int| !has_sub_at(s@, sub@, q),
            first_sub_at(s@, sub@) >= 0 ==> has_sub_at(s@, sub@, first_sub_at(s@, sub@)) && (
            forall|k: int| 0 <= k < first_sub_at(s@, sub@) ==> !has_sub_at(s@, sub@, k)),
        decreases n - i,
    {
        let piece = s.substring_char(i, i + m);
        if str_eq(piece, sub) {
            assert(has_sub_at(s@, sub@, i as int));
            assert(first_sub_at(s@, sub@) == i as int) by {
                let fm = first_sub_at(s@, sub@);
                if fm == -1 {
                    assert(!has_sub_at(s@, sub@, i as int));
                } else if fm < i {
                    assert(!has_sub_at(s@, sub@, fm));
                }
            }
            return Some(i);
        }
        assert(!has_sub_at(s@, sub@, i as int));
        i += 1;
    }
    assert forall|k: int| !has_sub_at(s@, sub@, k) by {
        if 0 <= k && k + sub@.len() <= s@.len() {
            assert(!has_sub_at(s@, sub@, k));
        }
    }
    assert(first_sub_at(s@, sub@) == -1) by {
        if first_sub_at(s@, sub@) >= 0 {
            assert(has_sub_at(s@, sub@, first_sub_at(s@, sub@)));
        }
    }
    None
}

/// Does `s` contain `sub`?
pub fn str_contains(s: &str, sub: &str) -> (r: bool)
    ensures
        r == contains_sub(s@, sub@),
{
    match find_sub(s, sub) {
        Some(_) => true,
        None => false,
    }
}

// ---------------------------------------------------------------------------
// Replacement
// ---------------------------------------------------------------------------

/// `s` with every occurrence of `from` replaced by `to`, scanning left to
/// right; the replacement text is never rescanned.
pub open spec fn replace_all_spec(s: Seq<char>, from: Seq<char>, to: Seq<char>) -> Seq<char>
    decreases s.len(),
    when from.len() > 0
    via replace_all_spec_decreases
{
    let i = first_sub_at(s, from);
    if i == -1 {
        s
    } else {
        s.take(i) + to + replace_all_spec(s.skip(i + from.len() as int), from, to)
    }
}

#[via_fn]
proof fn replace_all_spec_decreases(s: Seq<char>, from: Seq<char>, to: Seq<char>) {
    lemma_first_sub_at(s, from);
}

/// Replace every occurrence of `from` in `s` by `to`.
pub fn replace_all(s: &str, from: &str, to: &str) -> (r: String)
    requires
        from@.len() > 0,
    ensures
        r@ == replace_all_spec(s@, from@, to@),
{
    let mut out = String::new();
    let mut rest = String::from_str(s);
    loop
        invariant
            from@.len() > 0,
            replace_all_spec(s@, from@, to@) == out@ + replace_all_spec(rest@, from@, to@),
        decreases rest@.len(),
    {
        proof {
            lemma_first_sub_at(rest@, from@);
        }
        let rest_len = rest.as_str().unicode_len();
        let m = from.unicode_len();
        match find_sub(rest.as_str(), from) {
            None => {
                out.append(rest.as_str());
                return out;
            },
            Some(i) => {
                out.append(rest.as_str().substring_char(0, i));
                out.append(to);
                let new_rest = String::from_str(rest.as_str().substring_char(i + m, rest_len));
                proof {
                    assert(rest@.take(i as int) == rest@.subrange(0, i as int));
                    assert(out@ + replace_all_spec(new_rest@, from@, to@) =~= (
                    replace_all_spec(s@, from@, to@)));
                }
                rest = new_rest;
            },
        }
    }
}

// ---------------------------------------------------------------------------
// Trimming
// ---------------------------------------------------------------------------

/// `s` with every trailing repetition of `suf` removed.
pub open spec fn trim_end_all_spec(s: Seq<char>, suf: Seq<char>) -> Seq<char>
    decreases s.len(),
    when suf.len() > 0
{
    if ends_with_spec(s, suf) {
        trim_end_all_spec(s.take(s.len() - suf.len()), suf)
    } else {
        s
    }
}

pub fn trim_end_all(s: &str, suf: &str) -> (r: String)
    requires
        suf@.len() > 0,
    ensures
        r@ == trim_end_all_spec(s@, suf@),
{
    let mut cur = String::from_str(s);
    loop
        invariant
            suf@.len() > 0,
            trim_end_all_spec(s@, suf@) == trim_end_all_spec(cur@, suf@),
        decreases cur@.len(),
    {
        let n = cur.as_str().unicode_len();
        if str_ends_with(cur.as_str(), suf) {
            let m = suf.unicode_len();
            let shorter = String::from_str(cur.as_str().substring_char(0, n - m));
            assert(shorter@ == cur@.take(cur@.len() - suf@.len()));
            cur = shorter;
        } else {
            return cur;
        }
    }
}

/// `s` with every leading occurrence of the character `c` removed.
pub open spec fn trim_start_char_spec(s: Seq<char>, c: char) -> Seq<char>
    decreases s.len(),
{
    if s.len() > 0 && s[0] == c {
        trim_start_char_spec(s.skip(1), c)
    } else {
        s
    }
}

pub fn trim_start_char(s: &str, c: char) -> (r: String)
    ensures
        r@ == trim_start_char_spec(s@, c),
{
    let n = s.unicode_len();
    let mut i: usize = 0;
    proof {
        assert(s@.skip(0) =~= s@);
    }
    while i < n && s.get_char(i) == c
        invariant
            n == s@.len(),
            i <= n,
            trim_start_char_spec(s@, c) == trim_start_char_spec(s@.skip(i as int), c),
        decreases n - i,
    {
        proof {
            assert(s@.skip(i as int)[0] == s@[i as int]);
            assert(s@.skip(i as int).skip(1) =~= s@.skip(i + 1));
        }
        i += 1;
    }
    let r = String::from_str(s.substring_char(i, n));
    assert(r@ =~= s@.skip(i as int));
    r
}

} // verus!
