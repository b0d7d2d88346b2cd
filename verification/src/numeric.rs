//! Numeric text: deciding whether a string is integer- or float-shaped
//! and computing the integer value, following standard numeric parsing
//! (optional sign, decimal digits; for floats also a fraction, an
//! exponent, and the special words `inf`, `infinity` and `nan`).
use vstd::prelude::*;

use crate::chars::is_digit;
use crate::chars::spec_digit_val;
use crate::chars::spec_is_digit;

verus! {

/// The text with one leading `+` or `-` removed.
pub open spec fn spec_sign_stripped(s: Seq<char>) -> Seq<char> {
    if s.len() > 0 && (s[0] == '+' || s[0] == '-') {
        s.drop_first()
    } else {
        s
    }
}

/// Whether the text carries a leading minus sign.
pub open spec fn spec_is_neg(s: Seq<char>) -> bool {
    s.len() > 0 && s[0] == '-'
}

/// A non-empty run of ASCII decimal digits.
pub open spec fn spec_all_digits(t: Seq<char>) -> bool {
    t.len() > 0 && forall|i: int| 0 <= i < t.len() ==> spec_is_digit(#[trigger] t[i])
}

/// The base-ten value of a digit run.
pub open spec fn spec_digits_val(t: Seq<char>) -> int
    decreases t.len(),
{
    if t.len() == 0 {
        0
    } else {
        10 * spec_digits_val(t.drop_last()) + spec_digit_val(t.last())
    }
}

pub proof fn lemma_digits_val_nonneg(t: Seq<char>)
    requires
        forall|i: int| 0 <= i < t.len() ==> spec_is_digit(#[trigger] t[i]),
    ensures
        spec_digits_val(t) >= 0,
    decreases t.len(),
{
    if t.len() > 0 {
        lemma_digits_val_nonneg(t.drop_last());
    }
}

/// Extending a digit run only grows its value.
pub proof fn lemma_digits_val_prefix(t: Seq<char>, k: int)
    requires
        forall|i: int| 0 <= i < t.len() ==> spec_is_digit(#[trigger] t[i]),
        0 <= k <= t.len(),
    ensures
        spec_digits_val(t.take(k)) <= spec_digits_val(t),
    decreases t.len() - k,
{
    if k == t.len() {
        assert(t.take(k) =~= t);
    } else {
        lemma_digits_val_prefix(t, k + 1);
        assert(t.take(k + 1).drop_last() =~= t.take(k));
        assert(t.take(k + 1).last() == t[k]);
        lemma_digits_val_nonneg(t.take(k));
    }
}

/// Integer-shaped text: an optional sign, then digits, with the value in
/// the range of `i32`.
pub open spec fn spec_is_integer_text(s: Seq<char>) -> bool {
    &&& spec_all_digits(spec_sign_stripped(s))
    &&& (if spec_is_neg(s) {
        spec_digits_val(spec_sign_stripped(s)) <= 0x8000_0000
    } else {
        spec_digits_val(spec_sign_stripped(s)) <= 0x7fff_ffff
    })
}

/// The value of integer-shaped text.
pub open spec fn spec_integer_val(s: Seq<char>) -> int {
    if spec_is_neg(s) {
        -spec_digits_val(spec_sign_stripped(s))
    } else {
        spec_digits_val(spec_sign_stripped(s))
    }
}

/// Decide whether `s` is integer-shaped and return its value.
#[verifier::loop_isolation(false)]
pub fn parse_integer(s: &str) -> (r: Option<i32>)
    ensures
        r is Some <==> spec_is_integer_text(s@),
        r is Some ==> r->0 == spec_integer_val(s@),
{
    let n = s.unicode_len();
    let mut neg = false;
    let mut start: usize = 0;
    if n >= 1 {
        let c0 = s.get_char(0);
        if c0 == '-' {
            neg = true;
            start = 1;
        } else if c0 == '+' {
            start = 1;
        }
    }
    let ghost body = spec_sign_stripped(s@);
    proof {
        assert(body =~= s@.subrange(start as int, n as int));
    }
    if start >= n {
        return None;
    }
    let mut acc: u64 = 0;
    let mut i: usize = start;
    while i < n
        invariant
            start <= i <= n,
            acc == spec_digits_val(body.take(i - start)),
            acc <= 0x8000_0000,
            forall|k: int| 0 <= k < i - start ==> spec_is_digit(#[trigger] body[k]),
        decreases n - i,
    {
        let c = s.get_char(i);
        proof {
            assert(body[i - start] == s@[i as int]);
        }
        if !is_digit(c) {
            return None;
        }
        let d = crate::chars::digit_value(c);
        acc = acc * 10 + (d as u64);
        i += 1;
        proof {
            assert(body.take(i - start).drop_last() =~= body.take(i - start - 1));
            assert(body.take(i - start).last() == body[i - start - 1]);
        }
        if acc > 0x8000_0000 {
            proof {
                if spec_all_digits(body) {
                    lemma_digits_val_prefix(body, i - start);
                }
            }
            return None;
        }
    }
    proof {
        assert(body.take(i - start) =~= body);
    }
    if neg {
        if acc == 0x8000_0000 {
            Some(i32::MIN)
        } else {
            Some(-(acc as i32))
        }
    } else {
        if acc > 0x7fff_ffff {
            return None;
        }
        Some(acc as i32)
    }
}

/// ASCII lower-casing of a single character.
pub open spec fn spec_lower(c: char) -> char {
    if 'A' <= c && c <= 'Z' {
        ((c as u8) + 32) as char
    } else {
        c
    }
}

pub fn lower_char(c: char) -> (r: char)
    ensures
        r == spec_lower(c),
{
    if c >= 'A' && c <= 'Z' {
        (#[verifier::truncate] (c as u8) + 32) as char
    } else {
        c
    }
}

/// Case-insensitive match against a lower-case keyword.
pub open spec fn spec_matches_keyword(s: Seq<char>, kw: Seq<char>) -> bool {
    s.len() == kw.len() && forall|i: int| 0 <= i < s.len() ==> spec_lower(#[trigger] s[i]) == kw[i]
}

/// The special float words, matched after the sign, ignoring case.
pub open spec fn spec_is_special_float(b: Seq<char>) -> bool {
    ||| spec_matches_keyword(b, seq!['i', 'n', 'f'])
    ||| spec_matches_keyword(b, seq!['i', 'n', 'f', 'i', 'n', 'i', 't', 'y'])
    ||| spec_matches_keyword(b, seq!['n', 'a', 'n'])
}

/// A float mantissa: digits with at most one decimal point and at least
/// one digit.
pub open spec fn spec_mantissa_ok(m: Seq<char>) -> bool {
    &&& forall|i: int| 0 <= i < m.len() ==> (spec_is_digit(#[trigger] m[i]) || m[i] == '.')
    &&& forall|i: int, j: int|
        0 <= i < j < m.len() && #[trigger] m[i] == '.' ==> #[trigger] m[j] != '.'
    &&& exists|i: int| 0 <= i < m.len() && spec_is_digit(#[trigger] m[i])
}

/// A float exponent: an optional sign, then digits.
pub open spec fn spec_exponent_ok(t: Seq<char>) -> bool {
    spec_all_digits(spec_sign_stripped(t))
}

/// Index of the first `e` or `E`, or the length if there is none.
pub open spec fn spec_find_e(b: Seq<char>) -> int
    decreases b.len(),
{
    if b.len() == 0 {
        0
    } else if b[0] == 'e' || b[0] == 'E' {
        0
    } else {
        1 + spec_find_e(b.drop_first())
    }
}

pub proof fn lemma_find_e(b: Seq<char>)
    ensures
        0 <= spec_find_e(b) <= b.len(),
        spec_find_e(b) < b.len() ==> (b[spec_find_e(b)] == 'e' || b[spec_find_e(b)] == 'E'),
        forall|i: int| 0 <= i < spec_find_e(b) ==> #[trigger] b[i] != 'e' && b[i] != 'E',
    decreases b.len(),
{
    if b.len() > 0 && !(b[0] == 'e' || b[0] == 'E') {
        lemma_find_e(b.drop_first());
        assert forall|i: int| 0 <= i < spec_find_e(b) implies #[trigger] b[i] != 'e' && b[i]
            != 'E' by {
            if i > 0 {
                assert(b.drop_first()[i - 1] == b[i]);
            }
        }
    }
}

/// Float-shaped text: an optional sign, then a special word or a
/// mantissa with an optional exponent.
pub open spec fn spec_is_float_text(s: Seq<char>) -> bool {
    let b = spec_sign_stripped(s);
    let k = spec_find_e(b);
    ||| spec_is_special_float(b)
    ||| (if k == b.len() {
        spec_mantissa_ok(b)
    } else {
        spec_mantissa_ok(b.take(k)) && spec_exponent_ok(b.skip(k + 1))
    })
}

/// Case-insensitive comparison of `s@[from..n]` against a keyword.
#[verifier::loop_isolation(false)]
fn matches_keyword(s: &str, from: usize, n: usize, kw: &str) -> (r: bool)
    requires
        from <= n == s@.len(),
    ensures
        r == spec_matches_keyword(s@.skip(from as int), kw@),
{
    let m = kw.unicode_len();
    if n - from != m {
        return false;
    }
    let mut i: usize = 0;
    while i < m
        invariant
            i <= m,
            forall|k: int|
                0 <= k < i ==> spec_lower(#[trigger] s@.skip(from as int)[k]) == kw@[k],
        decreases m - i,
    {
        if lower_char(s.get_char(from + i)) != kw.get_char(i) {
            proof {
                assert(s@.skip(from as int)[i as int] == s@[from + i]);
            }
            return false;
        }
        proof {
            assert(s@.skip(from as int)[i as int] == s@[from + i]);
        }
        i += 1;
    }
    true
}

/// Check that `s@[from..to]` is a valid mantissa.
#[verifier::loop_isolation(false)]
fn mantissa_ok(s: &str, from: usize, to: usize) -> (r: bool)
    requires
        from <= to <= s@.len(),
    ensures
        r == spec_mantissa_ok(s@.subrange(from as int, to as int)),
{
    let ghost m = s@.subrange(from as int, to as int);
    let mut seen_dot = false;
    let mut seen_digit = false;
    let mut i: usize = from;
    while i < to
        invariant
            from <= i <= to,
            seen_dot == exists|k: int| 0 <= k < i - from && #[trigger] m[k] == '.',
            seen_digit == exists|k: int| 0 <= k < i - from && spec_is_digit(#[trigger] m[k]),
            forall|k: int| 0 <= k < i - from ==> (spec_is_digit(#[trigger] m[k]) || m[k] == '.'),
            forall|k1: int, k2: int|
                0 <= k1 < k2 < i - from && #[trigger] m[k1] == '.' ==> #[trigger] m[k2] != '.',
        decreases to - i,
    {
        let c = s.get_char(i);
        proof {
            assert(m[i - from] == s@[i as int]);
        }
        if c == '.' {
            if seen_dot {
                return false;
            }
            seen_dot = true;
        } else if is_digit(c) {
            seen_digit = true;
        } else {
            return false;
        }
        i += 1;
    }
    seen_digit
}

/// Check that `s@[from..n]` is a valid exponent.
#[verifier::loop_isolation(false)]
fn exponent_ok(s: &str, from: usize, n: usize) -> (r: bool)
    requires
        from <= n == s@.len(),
    ensures
        r == spec_exponent_ok(s@.skip(from as int)),
{
    let ghost t = s@.skip(from as int);
    let mut start = from;
    if from < n {
        let c0 = s.get_char(from);
        if c0 == '+' || c0 == '-' {
            start = from + 1;
        }
    }
    let ghost body = spec_sign_stripped(t);
    proof {
        assert(body =~= s@.subrange(start as int, n as int));
    }
    if start >= n {
        return false;
    }
    let mut i: usize = start;
    while i < n
        invariant
            start <= i <= n,
            forall|k: int| 0 <= k < i - start ==> spec_is_digit(#[trigger] body[k]),
        decreases n - i,
    {
        let c = s.get_char(i);
        proof {
            assert(body[i - start] == s@[i as int]);
        }
        if !is_digit(c) {
            return false;
        }
        i += 1;
    }
    true
}

/// Decide whether `s` is float-shaped.
#[verifier::loop_isolation(false)]
pub fn is_float_text(s: &str) -> (r: bool)
    ensures
        r == spec_is_float_text(s@),
{
    let n = s.unicode_len();
    let mut start: usize = 0;
    if n >= 1 {
        let c0 = s.get_char(0);
        if c0 == '+' || c0 == '-' {
            start = 1;
        }
    }
    let ghost b = spec_sign_stripped(s@);
    proof {
        assert(b =~= s@.skip(start as int));
    }
    proof {
        reveal_strlit("inf");
        reveal_strlit("infinity");
        reveal_strlit("nan");
        assert(("inf")@ =~= seq!['i', 'n', 'f']);
        assert(("infinity")@ =~= seq!['i', 'n', 'f', 'i', 'n', 'i', 't', 'y']);
        assert(("nan")@ =~= seq!['n', 'a', 'n']);
    }
    if matches_keyword(s, start, n, "inf") || matches_keyword(s, start, n, "infinity")
        || matches_keyword(s, start, n, "nan") {
        return true;
    }
    let mut e: usize = n;
    let mut i: usize = start;
    while i < n
        invariant
            start <= i <= n,
            e == n,
            forall|k: int| 0 <= k < i - start ==> #[trigger] b[k] != 'e' && b[k] != 'E',
        decreases n - i,
    {
        let c = s.get_char(i);
        proof {
            assert(b[i - start] == s@[i as int]);
        }
        if c == 'e' || c == 'E' {
            e = i;
            break;
        }
        i += 1;
    }
    proof {
        lemma_find_e(b);
        if e < n {
            assert(b[e - start] == s@[e as int]);
            assert(spec_find_e(b) == e - start);
        } else {
            assert(spec_find_e(b) == b.len());
        }
    }
    if e == n {
        proof {
            assert(s@.subrange(start as int, n as int) =~= b);
        }
        mantissa_ok(s, start, n)
    } else {
        proof {
            assert(s@.subrange(start as int, e as int) =~= b.take(e - start));
            assert(s@.skip(e + 1) =~= b.skip(e - start + 1));
        }
        mantissa_ok(s, start, e) && exponent_ok(s, e + 1, n)
    }
}

} // verus!
