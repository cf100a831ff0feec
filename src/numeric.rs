//! The decimal syntaxes of integers and floating-point numbers.

use vstd::prelude::*;

verus! {

pub open spec fn is_digit(c: char) -> bool {
    '0' <= c && c <= '9'
}

pub open spec fn is_sign(c: char) -> bool {
    c == '+' || c == '-'
}

pub open spec fn all_digits(s: Seq<char>) -> bool {
    forall|i: int| 0 <= i < s.len() ==> is_digit(#[trigger] s[i])
}

/// One or more decimal digits and nothing else.
pub open spec fn is_digit_run(s: Seq<char>) -> bool {
    s.len() > 0 && all_digits(s)
}

pub open spec fn digit_value(c: char) -> int {
    (c as int) - ('0' as int)
}

/// The number that a run of decimal digits denotes.
pub open spec fn digits_value(s: Seq<char>) -> int
    decreases s.len(),
{
    if s.len() == 0 {
        0
    } else {
        digits_value(s.drop_last()) * 10 + digit_value(s.last())
    }
}

/// The integer that `s` writes: an optional sign, then one or more digits.
pub open spec fn integer_text(s: Seq<char>) -> Option<int> {
    if s.len() > 0 && is_sign(s[0]) {
        if is_digit_run(s.drop_first()) {
            if s[0] == '-' {
                Some(-digits_value(s.drop_first()))
            } else {
                Some(digits_value(s.drop_first()))
            }
        } else {
            None
        }
    } else if is_digit_run(s) {
        Some(digits_value(s))
    } else {
        None
    }
}

/// What reading `s` as an `i64` gives: the integer it writes, where that
/// integer fits in 64 signed bits.
pub open spec fn i64_text(s: Seq<char>) -> Option<i64> {
    match integer_text(s) {
        Some(v) => if i64::MIN <= v && v <= i64::MAX {
            Some(v as i64)
        } else {
            None
        },
        None => None,
    }
}

/// Relies on `i64`'s `FromStr`: it accepts an optional `+` or `-` followed by
/// one or more decimal digits, nothing else, and fails where the value does
/// not fit.
#[verifier::external_body]
pub(crate) fn parse_i64(s: &str) -> (r: Option<i64>)
    ensures
        r == i64_text(s@),
{
    s.parse::<i64>().ok()
}

pub open spec fn is_exponent_mark(c: char) -> bool {
    c == 'e' || c == 'E'
}

/// `s` spells the word whose lower-case letters are `lower` and whose
/// upper-case letters are `upper`, in any mix of cases.
pub open spec fn spells(s: Seq<char>, lower: Seq<char>, upper: Seq<char>) -> bool {
    &&& s.len() == lower.len()
    &&& forall|i: int| 0 <= i < s.len() ==> #[trigger] s[i] == lower[i] || s[i] == upper[i]
}

/// Digits with at most one decimal point among them, and at least one digit.
pub open spec fn is_mantissa(m: Seq<char>) -> bool {
    ||| is_digit_run(m)
    ||| exists|k: int|
        0 <= k < m.len() && #[trigger] m[k] == '.' && all_digits(m.take(k)) && all_digits(
            m.skip(k + 1),
        ) && m.len() >= 2
}

/// An optional sign, then one or more digits.
pub open spec fn is_exponent(x: Seq<char>) -> bool {
    if x.len() > 0 && is_sign(x[0]) {
        is_digit_run(x.drop_first())
    } else {
        is_digit_run(x)
    }
}

/// A mantissa, then optionally `e` or `E` and an exponent.
pub open spec fn is_decimal(n: Seq<char>) -> bool {
    ||| is_mantissa(n)
    ||| exists|k: int|
        0 <= k < n.len() && is_exponent_mark(#[trigger] n[k]) && is_mantissa(n.take(k))
            && is_exponent(n.skip(k + 1))
}

pub open spec fn unsigned_part(s: Seq<char>) -> Seq<char> {
    if s.len() > 0 && is_sign(s[0]) {
        s.drop_first()
    } else {
        s
    }
}

/// The texts that `f64`'s `FromStr` accepts: an optional sign, then `inf`,
/// `infinity`, `nan` (in any case) or a decimal number with an optional
/// exponent. No surrounding whitespace.
pub open spec fn float_text(s: Seq<char>) -> bool {
    let u = unsigned_part(s);
    ||| spells(u, seq!['i', 'n', 'f'], seq!['I', 'N', 'F'])
    ||| spells(
        u,
        seq!['i', 'n', 'f', 'i', 'n', 'i', 't', 'y'],
        seq!['I', 'N', 'F', 'I', 'N', 'I', 'T', 'Y'],
    )
    ||| spells(u, seq!['n', 'a', 'n'], seq!['N', 'A', 'N'])
    ||| is_decimal(u)
}

/// Every character of a mantissa is a digit or the decimal point.
proof fn lemma_mantissa_chars(m: Seq<char>, i: int)
    requires
        is_mantissa(m),
        0 <= i < m.len(),
    ensures
        is_digit(m[i]) || m[i] == '.',
{
    if !is_digit_run(m) {
        let k = choose|k: int|
            0 <= k < m.len() && #[trigger] m[k] == '.' && all_digits(m.take(k)) && all_digits(
                m.skip(k + 1),
            ) && m.len() >= 2;
        if i < k {
            assert(m[i] == m.take(k)[i]);
        } else if i > k {
            assert(m[i] == m.skip(k + 1)[i - k - 1]);
        }
    }
}

/// Relies on `str::chars`, collected into a `Vec`: the characters of `s`,
/// in order.
#[verifier::external_body]
pub(crate) fn chars_of(s: &str) -> (r: Vec<char>)
    ensures
        r@ == s@,
{
    s.chars().collect()
}

fn digits_between(t: &Vec<char>, lo: usize, hi: usize) -> (r: bool)
    requires
        lo <= hi <= t.len(),
    ensures
        r == all_digits(t@.subrange(lo as int, hi as int)),
{
    let mut i: usize = lo;
    while i < hi
        invariant
            lo <= i <= hi <= t.len(),
            all_digits(t@.subrange(lo as int, i as int)),
        decreases hi - i,
    {
        if !('0' <= t[i] && t[i] <= '9') {
            assert(t@.subrange(lo as int, hi as int)[i - lo] == t@[i as int]);
            return false;
        }
        assert forall|j: int| 0 <= j < i + 1 - lo implies is_digit(
            #[trigger] t@.subrange(lo as int, i + 1)[j],
        ) by {
            if j < i - lo {
                assert(t@.subrange(lo as int, i + 1)[j] == t@.subrange(lo as int, i as int)[j]);
            }
        }
        i = i + 1;
    }
    true
}

/// The first position in `lo..hi` that holds `a` or `b`, or `hi`.
fn find_between(t: &Vec<char>, lo: usize, hi: usize, a: char, b: char) -> (r: usize)
    requires
        lo <= hi <= t.len(),
    ensures
        lo <= r <= hi,
        forall|j: int| lo <= j < r ==> t@[j] != a && t@[j] != b,
        r < hi ==> t@[r as int] == a || t@[r as int] == b,
{
    let mut i: usize = lo;
    while i < hi
        invariant
            lo <= i <= hi <= t.len(),
            forall|j: int| lo <= j < i ==> t@[j] != a && t@[j] != b,
        decreases hi - i,
    {
        if t[i] == a || t[i] == b {
            return i;
        }
        i = i + 1;
    }
    hi
}

fn mantissa_between(t: &Vec<char>, lo: usize, hi: usize) -> (r: bool)
    requires
        lo <= hi <= t.len(),
    ensures
        r == is_mantissa(t@.subrange(lo as int, hi as int)),
{
    let ghost m = t@.subrange(lo as int, hi as int);
    let d = find_between(t, lo, hi, '.', '.');
    if d == hi {
        assert forall|k: int| 0 <= k < m.len() implies #[trigger] m[k] != '.' by {
            assert(m[k] == t@[lo + k]);
        }
        lo < hi && digits_between(t, lo, hi)
    } else {
        let k = d - lo;
        assert(m[k as int] == '.');
        assert(!is_digit(m[k as int]));
        assert(m.take(k as int) =~= t@.subrange(lo as int, d as int));
        assert(m.skip(k + 1) =~= t@.subrange(d + 1, hi as int));
        let r = hi - lo >= 2 && digits_between(t, lo, d) && digits_between(t, d + 1, hi);
        proof {
            if is_mantissa(m) {
                let k2 = choose|k2: int|
                    0 <= k2 < m.len() && #[trigger] m[k2] == '.' && all_digits(m.take(k2))
                        && all_digits(m.skip(k2 + 1)) && m.len() >= 2;
                assert(m[k2] == t@[lo + k2]);
                if k2 > k {
                    assert(m.take(k2)[k as int] == '.');
                }
            }
        }
        r
    }
}

fn exponent_between(t: &Vec<char>, lo: usize, hi: usize) -> (r: bool)
    requires
        lo <= hi <= t.len(),
    ensures
        r == is_exponent(t@.subrange(lo as int, hi as int)),
{
    if lo < hi && (t[lo] == '+' || t[lo] == '-') {
        assert(t@.subrange(lo as int, hi as int).drop_first() =~= t@.subrange(lo + 1, hi as int));
        lo + 1 < hi && digits_between(t, lo + 1, hi)
    } else {
        lo < hi && digits_between(t, lo, hi)
    }
}

fn decimal_between(t: &Vec<char>, lo: usize, hi: usize) -> (r: bool)
    requires
        lo <= hi <= t.len(),
    ensures
        r == is_decimal(t@.subrange(lo as int, hi as int)),
{
    let ghost n = t@.subrange(lo as int, hi as int);
    let e = find_between(t, lo, hi, 'e', 'E');
    if e == hi {
        assert forall|k: int| 0 <= k < n.len() implies !is_exponent_mark(#[trigger] n[k]) by {
            assert(n[k] == t@[lo + k]);
        }
        mantissa_between(t, lo, hi)
    } else {
        let k = e - lo;
        assert(n[k as int] == t@[e as int]);
        proof {
            if is_mantissa(n) {
                lemma_mantissa_chars(n, k as int);
            }
        }
        assert(n.take(k as int) =~= t@.subrange(lo as int, e as int));
        assert(n.skip(k + 1) =~= t@.subrange(e + 1, hi as int));
        let r = mantissa_between(t, lo, e) && exponent_between(t, e + 1, hi);
        proof {
            if is_decimal(n) {
                let k2 = choose|k2: int|
                    0 <= k2 < n.len() && is_exponent_mark(#[trigger] n[k2]) && is_mantissa(
                        n.take(k2),
                    ) && is_exponent(n.skip(k2 + 1));
                assert(n[k2] == t@[lo + k2]);
                if k2 > k {
                    assert(n.take(k2)[k as int] == n[k as int]);
                    lemma_mantissa_chars(n.take(k2), k as int);
                }
            }
        }
        r
    }
}

fn spells_between(t: &Vec<char>, lo: usize, hi: usize, lower: &Vec<char>, upper: &Vec<char>) -> (r:
    bool)
    requires
        lo <= hi <= t.len(),
        lower.len() == upper.len(),
    ensures
        r == spells(t@.subrange(lo as int, hi as int), lower@, upper@),
{
    let ghost w = t@.subrange(lo as int, hi as int);
    if hi - lo != lower.len() {
        return false;
    }
    let mut i: usize = 0;
    while i < lower.len()
        invariant
            hi - lo == lower.len() == upper.len(),
            lo <= hi <= t.len(),
            i <= lower.len(),
            w == t@.subrange(lo as int, hi as int),
            forall|j: int| 0 <= j < i ==> #[trigger] w[j] == lower@[j] || w[j] == upper@[j],
        decreases lower.len() - i,
    {
        if t[lo + i] != lower[i] && t[lo + i] != upper[i] {
            assert(w[i as int] == t@[lo + i]);
            return false;
        }
        assert(w[i as int] == t@[lo + i]);
        i = i + 1;
    }
    true
}

/// Whether `f64`'s `FromStr` accepts `s`. The library holds no
/// floating-point value: it decides by this syntax and keeps the text.
pub fn is_float_text(s: &str) -> (r: bool)
    ensures
        r == float_text(s@),
{
    let t = chars_of(s);
    let n = t.len();
    let lo: usize = if n > 0 && (t[0] == '+' || t[0] == '-') {
        1
    } else {
        0
    };
    assert(t@.subrange(lo as int, n as int) =~= unsigned_part(s@));
    let inf_lower = vec!['i', 'n', 'f'];
    let inf_upper = vec!['I', 'N', 'F'];
    let infinity_lower = vec!['i', 'n', 'f', 'i', 'n', 'i', 't', 'y'];
    let infinity_upper = vec!['I', 'N', 'F', 'I', 'N', 'I', 'T', 'Y'];
    let nan_lower = vec!['n', 'a', 'n'];
    let nan_upper = vec!['N', 'A', 'N'];
    assert(inf_lower@ == seq!['i', 'n', 'f']);
    assert(inf_upper@ == seq!['I', 'N', 'F']);
    assert(infinity_lower@ == seq!['i', 'n', 'f', 'i', 'n', 'i', 't', 'y']);
    assert(infinity_upper@ == seq!['I', 'N', 'F', 'I', 'N', 'I', 'T', 'Y']);
    assert(nan_lower@ == seq!['n', 'a', 'n']);
    assert(nan_upper@ == seq!['N', 'A', 'N']);
    spells_between(&t, lo, n, &inf_lower, &inf_upper) || spells_between(
        &t,
        lo,
        n,
        &infinity_lower,
        &infinity_upper,
    ) || spells_between(&t, lo, n, &nan_lower, &nan_upper) || decimal_between(&t, lo, n)
}

} // verus!
