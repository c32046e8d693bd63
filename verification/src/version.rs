//! Three-segment numeric version comparison: `major.minor.patch`, missing
//! segments treated as 0, non-numeric leading characters stripped before
//! parsing. Numerals are compared exactly, at any length, by canonicalizing
//! the digit run and comparing first by length, then digit by digit; this is
//! proved equal to comparing the numeric values.

use vstd::prelude::*;
use crate::external::push_char;
use crate::text::first_sub_at;
use crate::text::find_sub;
use crate::text::lemma_first_sub_at;

verus! {

broadcast use vstd::utf8::char_is_scalar, vstd::utf8::char_u32_cast;

pub open spec fn is_digit_char(c: char) -> bool {
    '0' <= c && c <= '9'
}

pub open spec fn all_digits(s: Seq<char>) -> bool {
    forall|i: int| 0 <= i < s.len() ==> is_digit_char(#[trigger] s[i])
}

pub open spec fn digit_of(c: char) -> nat {
    ((c as u32) - 48) as nat
}

pub open spec fn pow10(n: nat) -> nat
    decreases n,
{
    if n == 0 {
        1
    } else {
        10 * pow10((n - 1) as nat)
    }
}

/// The numeric value of a decimal numeral.
pub open spec fn digits_val(s: Seq<char>) -> nat
    decreases s.len(),
{
    if s.len() == 0 {
        0
    } else {
        digit_of(s[0]) * pow10((s.len() - 1) as nat) + digits_val(s.skip(1))
    }
}

pub proof fn lemma_pow10_pos(n: nat)
    ensures
        pow10(n) >= 1,
    decreases n,
{
    if n > 0 {
        lemma_pow10_pos((n - 1) as nat);
    }
}

pub proof fn lemma_pow10_mono(a: nat, b: nat)
    requires
        a <= b,
    ensures
        pow10(a) <= pow10(b),
    decreases b,
{
    if a < b {
        lemma_pow10_mono(a, (b - 1) as nat);
        lemma_pow10_pos((b - 1) as nat);
    }
}

/// A numeral of n digits is below 10^n.
pub proof fn lemma_digits_val_bound(s: Seq<char>)
    requires
        all_digits(s),
    ensures
        digits_val(s) < pow10(s.len()),
    decreases s.len(),
{
    if s.len() > 0 {
        assert(all_digits(s.skip(1))) by {
            assert(forall|i: int| 0 <= i < s.skip(1).len() ==> s.skip(1)[i] == s[i + 1]);
        }
        lemma_digits_val_bound(s.skip(1));
        let p = pow10((s.len() - 1) as nat);
        let d = digit_of(s[0]);
        assert(d <= 9);
        assert(d * p + digits_val(s.skip(1)) < (d + 1) * p) by (nonlinear_arith)
            requires
                digits_val(s.skip(1)) < p,
        ;
        assert((d + 1) * p <= 10 * p) by (nonlinear_arith)
            requires
                d + 1 <= 10,
                p >= 0,
        ;
        lemma_pow10_pos((s.len() - 1) as nat);
    }
}

/// Digit-by-digit strict order on equal-length numerals.
pub open spec fn digits_lt(a: Seq<char>, b: Seq<char>) -> bool
    decreases a.len(),
{
    a.len() > 0 && b.len() > 0 && ((a[0] as u32) < (b[0] as u32) || (a[0] == b[0] && digits_lt(
        a.skip(1),
        b.skip(1),
    )))
}

/// On equal-length numerals, digit order is value order.
pub proof fn lemma_digits_lt_val(a: Seq<char>, b: Seq<char>)
    requires
        all_digits(a),
        all_digits(b),
        a.len() == b.len(),
        digits_lt(a, b),
    ensures
        digits_val(a) < digits_val(b),
    decreases a.len(),
{
    assert(all_digits(a.skip(1)) && all_digits(b.skip(1))) by {
        assert(forall|i: int| 0 <= i < a.skip(1).len() ==> a.skip(1)[i] == a[i + 1]);
        assert(forall|i: int| 0 <= i < b.skip(1).len() ==> b.skip(1)[i] == b[i + 1]);
    }
    let p = pow10((a.len() - 1) as nat);
    if (a[0] as u32) < (b[0] as u32) {
        lemma_digits_val_bound(a.skip(1));
        let da = digit_of(a[0]);
        let db = digit_of(b[0]);
        assert(da + 1 <= db);
        assert(da * p + digits_val(a.skip(1)) < (da + 1) * p) by (nonlinear_arith)
            requires
                digits_val(a.skip(1)) < p,
        ;
        assert((da + 1) * p <= db * p) by (nonlinear_arith)
            requires
                da + 1 <= db,
                p >= 0,
        ;
        assert(db * p <= digits_val(b));
    } else {
        lemma_digits_lt_val(a.skip(1), b.skip(1));
    }
}

/// Equal-length numerals with equal values are equal.
pub proof fn lemma_digits_lt_total(a: Seq<char>, b: Seq<char>)
    requires
        all_digits(a),
        all_digits(b),
        a.len() == b.len(),
    ensures
        digits_lt(a, b) || digits_lt(b, a) || a == b,
    decreases a.len(),
{
    if a.len() > 0 {
        assert(all_digits(a.skip(1)) && all_digits(b.skip(1))) by {
            assert(forall|i: int| 0 <= i < a.skip(1).len() ==> a.skip(1)[i] == a[i + 1]);
            assert(forall|i: int| 0 <= i < b.skip(1).len() ==> b.skip(1)[i] == b[i + 1]);
        }
        if a[0] == b[0] {
            lemma_digits_lt_total(a.skip(1), b.skip(1));
            if a.skip(1) == b.skip(1) {
                assert(a =~= b) by {
                    assert(forall|i: int| 1 <= i < a.len() ==> a[i] == a.skip(1)[i - 1]);
                    assert(forall|i: int| 1 <= i < b.len() ==> b[i] == b.skip(1)[i - 1]);
                }
            }
        }
    } else {
        assert(a =~= b);
    }
}

/// A canonical numeral has no leading zero.
pub open spec fn is_canon(s: Seq<char>) -> bool {
    all_digits(s) && (s.len() > 0 ==> s[0] != '0')
}

/// A shorter canonical numeral has a smaller value.
pub proof fn lemma_shorter_canon_lt(a: Seq<char>, b: Seq<char>)
    requires
        all_digits(a),
        is_canon(b),
        a.len() < b.len(),
    ensures
        digits_val(a) < digits_val(b),
{
    lemma_digits_val_bound(a);
    lemma_pow10_mono(a.len(), (b.len() - 1) as nat);
    let p = pow10((b.len() - 1) as nat);
    let db = digit_of(b[0]);
    assert(db >= 1);
    assert(1 * p <= db * p) by (nonlinear_arith)
        requires
            1 <= db,
            p >= 0,
    ;
    assert(db * p <= digits_val(b));
}

/// Canonical comparison: by length, then digit by digit; equals value order.
pub proof fn lemma_canon_cmp(a: Seq<char>, b: Seq<char>)
    requires
        is_canon(a),
        is_canon(b),
    ensures
        (digits_val(a) < digits_val(b)) <==> (a.len() < b.len() || (a.len() == b.len()
            && digits_lt(a, b))),
        (digits_val(a) == digits_val(b)) <==> a == b,
{
    if a.len() < b.len() {
        lemma_shorter_canon_lt(a, b);
    } else if b.len() < a.len() {
        lemma_shorter_canon_lt(b, a);
    } else {
        lemma_digits_lt_total(a, b);
        if digits_lt(a, b) {
            lemma_digits_lt_val(a, b);
        } else if digits_lt(b, a) {
            lemma_digits_lt_val(b, a);
        }
    }
}

/// Leading zeros do not change the value.
pub open spec fn strip_zeros(s: Seq<char>) -> Seq<char>
    decreases s.len(),
{
    if s.len() > 0 && s[0] == '0' {
        strip_zeros(s.skip(1))
    } else {
        s
    }
}

pub proof fn lemma_strip_zeros(s: Seq<char>)
    requires
        all_digits(s),
    ensures
        is_canon(strip_zeros(s)),
        digits_val(strip_zeros(s)) == digits_val(s),
        strip_zeros(s).len() <= s.len(),
    decreases s.len(),
{
    if s.len() > 0 && s[0] == '0' {
        assert(all_digits(s.skip(1))) by {
            assert(forall|i: int| 0 <= i < s.skip(1).len() ==> s.skip(1)[i] == s[i + 1]);
        }
        lemma_strip_zeros(s.skip(1));
        assert(digit_of('0') == 0);
    }
}

/// The maximal digit prefix of `s`.
pub open spec fn take_digits(s: Seq<char>) -> Seq<char>
    decreases s.len(),
{
    if s.len() > 0 && is_digit_char(s[0]) {
        seq![s[0]] + take_digits(s.skip(1))
    } else {
        Seq::empty()
    }
}

pub proof fn lemma_take_digits(s: Seq<char>)
    ensures
        all_digits(take_digits(s)),
    decreases s.len(),
{
    if s.len() > 0 && is_digit_char(s[0]) {
        lemma_take_digits(s.skip(1));
        let t = take_digits(s);
        assert forall|i: int| 0 <= i < t.len() implies is_digit_char(t[i]) by {
            if i > 0 {
                assert(t[i] == take_digits(s.skip(1))[i - 1]);
            }
        }
    }
}

/// The first digit run of a segment: leading non-numeric characters are
/// stripped, then the maximal digit prefix is taken.
pub open spec fn seg_digits(s: Seq<char>) -> Seq<char>
    decreases s.len(),
{
    if s.len() == 0 {
        Seq::empty()
    } else if is_digit_char(s[0]) {
        take_digits(s)
    } else {
        seg_digits(s.skip(1))
    }
}

pub proof fn lemma_seg_digits(s: Seq<char>)
    ensures
        all_digits(seg_digits(s)),
    decreases s.len(),
{
    if s.len() > 0 {
        if is_digit_char(s[0]) {
            lemma_take_digits(s);
        } else {
            lemma_seg_digits(s.skip(1));
        }
    }
}

/// The numeric value of one version segment.
pub open spec fn seg_val(s: Seq<char>) -> nat {
    digits_val(seg_digits(s))
}

/// The i-th dot-separated segment of `s` (empty when missing).
pub open spec fn version_seg(s: Seq<char>, i: int) -> Seq<char>
    decreases i,
{
    let d = first_sub_at(s, seq!['.']);
    if i <= 0 {
        if d == -1 {
            s
        } else {
            s.take(d)
        }
    } else {
        if d == -1 {
            Seq::empty()
        } else {
            version_seg(s.skip(d + 1), i - 1)
        }
    }
}

/// The numeric value of the i-th segment of a version string.
pub open spec fn version_seg_val(s: Seq<char>, i: int) -> nat {
    seg_val(version_seg(s, i))
}

/// Strict order on versions: by the first three numeric segments.
pub open spec fn version_lt(a: Seq<char>, b: Seq<char>) -> bool {
    version_seg_val(a, 0) < version_seg_val(b, 0) || (version_seg_val(a, 0) == version_seg_val(
        b,
        0,
    ) && (version_seg_val(a, 1) < version_seg_val(b, 1) || (version_seg_val(a, 1)
        == version_seg_val(b, 1) && version_seg_val(a, 2) < version_seg_val(b, 2))))
}

/// Versions with equal first three numeric segments.
pub open spec fn version_eq(a: Seq<char>, b: Seq<char>) -> bool {
    version_seg_val(a, 0) == version_seg_val(b, 0) && version_seg_val(a, 1) == version_seg_val(
        b,
        1,
    ) && version_seg_val(a, 2) == version_seg_val(b, 2)
}

// ---------------------------------------------------------------------------
// Executable comparison
// ---------------------------------------------------------------------------

/// Extract the canonical digit run of one segment.
fn canon_digits_of(s: &str) -> (r: String)
    ensures
        r@ == strip_zeros(seg_digits(s@)),
        is_canon(r@),
        digits_val(r@) == seg_val(s@),
{
    proof {
        lemma_seg_digits(s@);
        lemma_strip_zeros(seg_digits(s@));
    }
    let n = s.unicode_len();
    let mut i: usize = 0;
    // strip leading non-digits
    proof {
        assert(s@.skip(0) =~= s@);
    }
    while i < n && !(('0' <= s.get_char(i) && s.get_char(i) <= '9'))
        invariant
            n == s@.len(),
            i <= n,
            seg_digits(s@) == seg_digits(s@.skip(i as int)),
        decreases n - i,
    {
        proof {
            assert(s@.skip(i as int)[0] == s@[i as int]);
            assert(s@.skip(i as int).skip(1) =~= s@.skip(i + 1));
        }
        i += 1;
    }
    proof {
        if i < n {
            assert(s@.skip(i as int)[0] == s@[i as int]);
        } else {
            assert(s@.skip(i as int).len() == 0);
        }
    }
    // strip leading zeros
    while i < n && s.get_char(i) == '0'
        invariant
            n == s@.len(),
            i <= n,
            strip_zeros(seg_digits(s@)) == strip_zeros(take_digits(s@.skip(i as int))),
        decreases n - i,
    {
        proof {
            let t = s@.skip(i as int);
            assert(t[0] == s@[i as int]);
            assert(t.skip(1) =~= s@.skip(i + 1));
            assert(take_digits(t) == seq![t[0]] + take_digits(t.skip(1)));
            assert((seq![t[0]] + take_digits(t.skip(1))).skip(1) =~= take_digits(t.skip(1)));
        }
        i += 1;
    }
    proof {
        if i < n {
            assert(s@.skip(i as int)[0] == s@[i as int]);
        }
    }
    // collect the digit run
    let mut r = String::new();
    while i < n && '0' <= s.get_char(i) && s.get_char(i) <= '9'
        invariant
            n == s@.len(),
            i <= n,
            strip_zeros(seg_digits(s@)) == r@ + take_digits(s@.skip(i as int)),
        decreases n - i,
    {
        let c = s.get_char(i);
        push_char(&mut r, c);
        proof {
            let t = s@.skip(i as int);
            assert(t[0] == s@[i as int]);
            assert(t.skip(1) =~= s@.skip(i + 1));
            assert(take_digits(t) == seq![t[0]] + take_digits(t.skip(1)));
            assert(r@ + take_digits(s@.skip(i + 1)) =~= strip_zeros(seg_digits(s@)));
        }
        i += 1;
    }
    proof {
        if i < n {
            assert(s@.skip(i as int)[0] == s@[i as int]);
            assert(take_digits(s@.skip(i as int)) =~= Seq::<char>::empty());
        } else {
            assert(s@.skip(i as int).len() == 0);
        }
        assert(r@ =~= strip_zeros(seg_digits(s@)));
    }
    r
}

/// The i-th dot-separated segment of a version string.
fn nth_segment(s: &str, idx: usize) -> (r: String)
    ensures
        r@ == version_seg(s@, idx as int),
    decreases idx,
{
    proof {
        lemma_first_sub_at(s@, seq!['.']);
        reveal_strlit(".");
        assert("."@ =~= seq!['.']);
    }
    let n = s.unicode_len();
    match find_sub(s, ".") {
        None => {
            if idx == 0 {
                s.to_owned()
            } else {
                String::new()
            }
        },
        Some(d) => {
            if idx == 0 {
                String::from_str(s.substring_char(0, d))
            } else {
                let rest = s.substring_char(d + 1, n);
                nth_segment(rest, idx - 1)
            }
        },
    }
}

/// Compare two equal-length canonical numerals digit by digit; true when the
/// first is strictly smaller.
fn digits_lt_exec(a: &str, b: &str) -> (r: bool)
    requires
        a@.len() == b@.len(),
    ensures
        r == digits_lt(a@, b@),
{
    let n = a.unicode_len();
    let m = b.unicode_len();
    let mut i: usize = 0;
    proof {
        assert(a@.skip(0) =~= a@);
        assert(b@.skip(0) =~= b@);
    }
    while i < n
        invariant
            n == a@.len(),
            m == b@.len(),
            n == m,
            i <= n,
            digits_lt(a@, b@) == digits_lt(a@.skip(i as int), b@.skip(i as int)),
        decreases n - i,
    {
        let ca = a.get_char(i);
        let cb = b.get_char(i);
        proof {
            assert(a@.skip(i as int)[0] == a@[i as int]);
            assert(b@.skip(i as int)[0] == b@[i as int]);
            assert(a@.skip(i as int).skip(1) =~= a@.skip(i + 1));
            assert(b@.skip(i as int).skip(1) =~= b@.skip(i + 1));
        }
        if ca != cb {
            return ca < cb;
        }
        i += 1;
    }
    assert(a@.skip(n as int).len() == 0);
    false
}

/// The ordering of two version strings under three-segment numeric
/// comparison: negative when the first is older, zero when the first three
/// segments agree, positive when the first is newer.
pub fn compare_versions(current: &str, available: &str) -> (r: i8)
    ensures
        (r == -1) <==> version_lt(current@, available@),
        (r == 1) <==> version_lt(available@, current@),
        (r == 0) <==> version_eq(current@, available@),
        r == -1 || r == 0 || r == 1,
{
    let mut idx: usize = 0;
    while idx < 3
        invariant
            idx <= 3,
            forall|j: int|
                0 <= j < idx ==> version_seg_val(current@, j) == version_seg_val(available@, j),
        decreases 3 - idx,
    {
        let sa = nth_segment(current, idx);
        let sb = nth_segment(available, idx);
        let ca = canon_digits_of(sa.as_str());
        let cb = canon_digits_of(sb.as_str());
        proof {
            lemma_canon_cmp(ca@, cb@);
        }
        let la = ca.as_str().unicode_len();
        let lb = cb.as_str().unicode_len();
        if la < lb {
            return -1;
        }
        if lb < la {
            return 1;
        }
        if digits_lt_exec(ca.as_str(), cb.as_str()) {
            return -1;
        }
        if digits_lt_exec(cb.as_str(), ca.as_str()) {
            return 1;
        }
        proof {
            lemma_digits_lt_total(ca@, cb@);
        }
        idx += 1;
    }
    0
}

/// Is `available` strictly newer than `current`?
pub fn is_newer(current: &str, available: &str) -> (r: bool)
    ensures
        r == version_lt(current@, available@),
{
    compare_versions(current, available) == -1
}

/// Is the jump from `current` to `available` a major update: is the leading
/// numeric segment of `available` strictly greater?
pub fn is_major_update(current: &str, available: &str) -> (r: bool)
    ensures
        r == (version_seg_val(current@, 0) < version_seg_val(available@, 0)),
{
    let sa = nth_segment(current, 0);
    let sb = nth_segment(available, 0);
    let ca = canon_digits_of(sa.as_str());
    let cb = canon_digits_of(sb.as_str());
    proof {
        lemma_canon_cmp(ca@, cb@);
    }
    let la = ca.as_str().unicode_len();
    let lb = cb.as_str().unicode_len();
    if la < lb {
        true
    } else if lb < la {
        false
    } else {
        digits_lt_exec(ca.as_str(), cb.as_str())
    }
}

} // verus!
