//! Character-level helpers: ASCII digit arithmetic, the Unicode
//! alphanumeric test, and appending single characters to strings.
use vstd::prelude::*;

verus! {

/// Whether `c` is one of the ten ASCII decimal digits.
pub open spec fn spec_is_digit(c: char) -> bool {
    '0' <= c && c <= '9'
}

/// Numeric value of an ASCII decimal digit.
pub open spec fn spec_digit_val(c: char) -> int {
    c as int - '0' as int
}

pub fn is_digit(c: char) -> (r: bool)
    ensures
        r == spec_is_digit(c),
{
    c >= '0' && c <= '9'
}

pub fn digit_value(c: char) -> (r: u32)
    requires
        spec_is_digit(c),
    ensures
        r == spec_digit_val(c),
        r <= 9,
{
    c as u32 - '0' as u32
}

/// What `char::is_alphanumeric` returns for a character: the Unicode
/// alphabetic-or-numeric classification, a fixed function of the
/// character alone.
pub uninterp spec fn alnum(c: char) -> bool;

/// Relies on char::is_alphanumeric: whether `c` is alphabetic or numeric
/// under Unicode; the result depends on the character alone.
#[verifier::external_body]
pub(crate) fn is_alphanumeric_char(c: char) -> (r: bool)
    ensures
        r == alnum(c),
{
    c.is_alphanumeric()
}

/// Relies on String::push: appends exactly the given character at the end.
#[verifier::external_body]
pub(crate) fn push_char(s: &mut String, c: char)
    ensures
        final(s)@ == old(s)@.push(c),
{
    s.push(c);
}

} // verus!
