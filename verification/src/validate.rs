//! Format validators: stateless checks of token syntax (dash count,
//! character set, quoting), independent of the configuration.
use vstd::prelude::*;

use crate::chars::alnum;
use crate::chars::is_alphanumeric_char;
use crate::tokenize::lemma_find_eq;
use crate::tokenize::spec_find_eq;

verus! {

/// A token-syntax error reported by the format validators.
#[derive(PartialEq, Eq, Structural, Clone, Copy, Debug)]
pub enum ParserValidationError {
    FlagFormatError,
    InvalidFlag,
    InvalidLongFlagName,
    DuplicateFlag,
    NamedArgFormatError,
    InvalidNamedArgName,
    NamedArgValueFormatError,
    InvalidNamedArgValue,
    InvalidPositionalArgumentFormat,
}

impl ParserValidationError {
    /// A short description of the error kind.
    pub fn message(&self) -> (r: &'static str)
        ensures
            r@ == spec_validation_message(*self),
    {
        match self {
            ParserValidationError::FlagFormatError => "Flag has invalid format",
            ParserValidationError::InvalidFlag => "Flag has invalid character",
            ParserValidationError::DuplicateFlag => "Flag was specified multiple times",
            ParserValidationError::NamedArgFormatError => "Named Arg has invalid format",
            ParserValidationError::InvalidNamedArgName => "Named Arg name has invalid characters",
            ParserValidationError::InvalidLongFlagName => "Long flag name has invalid characters",
            ParserValidationError::NamedArgValueFormatError => (
            "Named arg value missing end quotes"),
            ParserValidationError::InvalidNamedArgValue => (
            "Named arg value contains invalid characters"),
            ParserValidationError::InvalidPositionalArgumentFormat => (
            "Positional arg value contains invalid characters"),
        }
    }
}

/// The description that `message` returns for each error kind.
pub open spec fn spec_validation_message(e: ParserValidationError) -> Seq<char> {
    match e {
        ParserValidationError::FlagFormatError => "Flag has invalid format"@,
        ParserValidationError::InvalidFlag => "Flag has invalid character"@,
        ParserValidationError::DuplicateFlag => "Flag was specified multiple times"@,
        ParserValidationError::NamedArgFormatError => "Named Arg has invalid format"@,
        ParserValidationError::InvalidNamedArgName => "Named Arg name has invalid characters"@,
        ParserValidationError::InvalidLongFlagName => "Long flag name has invalid characters"@,
        ParserValidationError::NamedArgValueFormatError => "Named arg value missing end quotes"@,
        ParserValidationError::InvalidNamedArgValue => (
        "Named arg value contains invalid characters"@),
        ParserValidationError::InvalidPositionalArgumentFormat => (
        "Positional arg value contains invalid characters"@),
    }
}

/// A valid argument name: non-empty, alphanumeric first character, and
/// `_` or `-` permitted after it.
pub open spec fn spec_valid_arg_name(s: Seq<char>) -> bool {
    &&& s.len() >= 1
    &&& alnum(s[0])
    &&& forall|i: int| 1 <= i < s.len() ==> (alnum(#[trigger] s[i]) || s[i] == '_' || s[i] == '-')
}

/// Verify that the argument name contains valid characters.
#[verifier::loop_isolation(false)]
pub fn is_valid_arg_name(name: &str) -> (r: bool)
    ensures
        r == spec_valid_arg_name(name@),
{
    let n = name.unicode_len();
    if n < 1 {
        return false;
    }
    if !is_alphanumeric_char(name.get_char(0)) {
        return false;
    }
    let mut i: usize = 1;
    while i < n
        invariant
            1 <= i <= n,
            forall|k: int| 1 <= k < i ==> (alnum(#[trigger] name@[k]) || name@[k] == '_'
                || name@[k] == '-'),
        decreases n - i,
    {
        let c = name.get_char(i);
        if !is_alphanumeric_char(c) && c != '_' && c != '-' {
            return false;
        }
        i += 1;
    }
    true
}

/// What `validate_long_flag_format` accepts: the long-flag name rule.
pub open spec fn spec_validate_long_flag(s: Seq<char>) -> Result<
    Seq<char>,
    ParserValidationError,
> {
    if spec_valid_arg_name(s) {
        Ok(s)
    } else {
        Err(ParserValidationError::InvalidLongFlagName)
    }
}

/// Validate a long flag name (without its leading dashes).
pub fn validate_long_flag_format(flag: &str) -> (r: Result<String, ParserValidationError>)
    ensures
        match r {
            Ok(f) => spec_validate_long_flag(flag@) == Ok::<Seq<char>, ParserValidationError>(f@),
            Err(e) => spec_validate_long_flag(flag@) == Err::<Seq<char>, ParserValidationError>(e),
        },
{
    if is_valid_arg_name(flag) {
        Ok(flag.to_owned())
    } else {
        Err(ParserValidationError::InvalidLongFlagName)
    }
}

/// The scan behind `validate_flag_format` from position `k` on: the
/// first offending character decides the error.
pub open spec fn spec_scan_flag_chars(s: Seq<char>, k: int) -> Result<
    Seq<char>,
    ParserValidationError,
>
    decreases s.len() - k,
{
    if k >= s.len() {
        Ok(s.skip(1))
    } else if !alnum(s[k]) {
        Err(ParserValidationError::InvalidFlag)
    } else if exists|j: int| 1 <= j < k && s[j] == s[k] {
        Err(ParserValidationError::DuplicateFlag)
    } else {
        spec_scan_flag_chars(s, k + 1)
    }
}

/// What `validate_flag_format` accepts: a dash, then alphanumeric
/// characters with no repeats; the distinct flag characters come back.
pub open spec fn spec_validate_flag(s: Seq<char>) -> Result<Seq<char>, ParserValidationError> {
    if s.len() < 2 {
        Err(ParserValidationError::FlagFormatError)
    } else if s[0] != '-' {
        Err(ParserValidationError::FlagFormatError)
    } else {
        spec_scan_flag_chars(s, 1)
    }
}

/// Validate a short-flag token and return its distinct flag characters.
#[verifier::loop_isolation(false)]
pub fn validate_flag_format(flag: &str) -> (r: Result<Vec<char>, ParserValidationError>)
    ensures
        match r {
            Ok(v) => spec_validate_flag(flag@) == Ok::<Seq<char>, ParserValidationError>(v@),
            Err(e) => spec_validate_flag(flag@) == Err::<Seq<char>, ParserValidationError>(e),
        },
{
    let n = flag.unicode_len();
    if n < 2 {
        return Err(ParserValidationError::FlagFormatError);
    }
    if flag.get_char(0) != '-' {
        return Err(ParserValidationError::FlagFormatError);
    }
    let mut out: Vec<char> = Vec::new();
    let mut k: usize = 1;
    while k < n
        invariant
            1 <= k <= n,
            out@ == flag@.subrange(1, k as int),
            spec_scan_flag_chars(flag@, 1) == spec_scan_flag_chars(flag@, k as int),
            forall|i: int, j: int| 1 <= i < j < k ==> flag@[i] != flag@[j],
            forall|i: int| 1 <= i < k ==> alnum(#[trigger] flag@[i]),
        decreases n - k,
    {
        let c = flag.get_char(k);
        if !is_alphanumeric_char(c) {
            return Err(ParserValidationError::InvalidFlag);
        }
        let mut j: usize = 1;
        while j < k
            invariant
                1 <= j <= k,
                forall|i: int| 1 <= i < j ==> flag@[i] != flag@[k as int],
            decreases k - j,
        {
            if flag.get_char(j) == c {
                return Err(ParserValidationError::DuplicateFlag);
            }
            j += 1;
        }
        out.push(c);
        proof {
            assert(out@ =~= flag@.subrange(1, k + 1));
        }
        k += 1;
    }
    proof {
        assert(flag@.subrange(1, n as int) =~= flag@.skip(1));
    }
    Ok(out)
}

/// Whether every character of `s` is alphanumeric.
pub open spec fn spec_all_alnum(s: Seq<char>) -> bool {
    forall|i: int| 0 <= i < s.len() ==> alnum(#[trigger] s[i])
}

/// Check every character of `s@[from..n]` for being alphanumeric.
#[verifier::loop_isolation(false)]
fn all_alnum_range(s: &str, from: usize, n: usize) -> (r: bool)
    requires
        from <= n == s@.len(),
    ensures
        r == spec_all_alnum(s@.skip(from as int)),
{
    let ghost t = s@.skip(from as int);
    let mut i: usize = from;
    while i < n
        invariant
            from <= i <= n,
            forall|k: int| 0 <= k < i - from ==> alnum(#[trigger] t[k]),
        decreases n - i,
    {
        proof {
            assert(t[i - from] == s@[i as int]);
        }
        if !is_alphanumeric_char(s.get_char(i)) {
            return false;
        }
        i += 1;
    }
    true
}

/// Quote handling for a value: a value wrapped in one matching pair of
/// double quotes is accepted as-is with the quotes stripped; otherwise
/// every character must be alphanumeric.
pub open spec fn spec_unquote(v: Seq<char>, bare_err: ParserValidationError, quote_err: ParserValidationError) -> Result<
    Seq<char>,
    ParserValidationError,
> {
    if v.len() > 0 && v[0] == '"' {
        let inner = v.drop_first();
        if inner.len() > 0 && inner.last() == '"' {
            Ok(inner.drop_last())
        } else {
            Err(quote_err)
        }
    } else if spec_all_alnum(v) {
        Ok(v)
    } else {
        Err(bare_err)
    }
}

/// What `validate_named_arguments_format` accepts: at least two leading
/// characters, a `=` splitting name from value, a valid name, and a
/// quoted or alphanumeric value.
pub open spec fn spec_validate_named(s: Seq<char>) -> Result<
    (Seq<char>, Seq<char>),
    ParserValidationError,
> {
    if s.len() < 3 {
        Err(ParserValidationError::NamedArgFormatError)
    } else {
        let rest = s.skip(2);
        let e = spec_find_eq(rest);
        if e == rest.len() {
            Err(ParserValidationError::NamedArgFormatError)
        } else {
            let name = rest.take(e);
            let value = rest.skip(e + 1);
            if !spec_valid_arg_name(name) {
                Err(ParserValidationError::InvalidNamedArgName)
            } else {
                match spec_unquote(
                    value,
                    ParserValidationError::NamedArgFormatError,
                    ParserValidationError::NamedArgValueFormatError,
                ) {
                    Ok(v) => Ok((name, v)),
                    Err(e) => Err(e),
                }
            }
        }
    }
}

/// Validate a `--name=value` token and return the name and the value.
pub fn validate_named_arguments_format(named_arg: &str) -> (r: Result<
    (String, String),
    ParserValidationError,
>)
    ensures
        match r {
            Ok(nv) => spec_validate_named(named_arg@) == Ok::<
                (Seq<char>, Seq<char>),
                ParserValidationError,
            >((nv.0@, nv.1@)),
            Err(e) => spec_validate_named(named_arg@) == Err::<
                (Seq<char>, Seq<char>),
                ParserValidationError,
            >(e),
        },
{
    let n = named_arg.unicode_len();
    if n < 3 {
        return Err(ParserValidationError::NamedArgFormatError);
    }
    let ghost rest = named_arg@.skip(2);
    let e = find_eq_from(named_arg, 2, n);
    proof {
        lemma_find_eq(rest);
    }
    if e >= n {
        return Err(ParserValidationError::NamedArgFormatError);
    }
    let name = named_arg.substring_char(2, e);
    proof {
        assert(name@ =~= rest.take(spec_find_eq(rest)));
    }
    if !is_valid_arg_name(name) {
        return Err(ParserValidationError::InvalidNamedArgName);
    }
    let ghost value = rest.skip(spec_find_eq(rest) + 1);
    proof {
        assert(value =~= named_arg@.subrange(e + 1, n as int));
    }
    match unquote_value(
        named_arg,
        e + 1,
        n,
        ParserValidationError::NamedArgFormatError,
        ParserValidationError::NamedArgValueFormatError,
    ) {
        Ok(v) => Ok((name.to_owned(), v)),
        Err(err) => Err(err),
    }
}

/// What `validate_positional_arguments_format` accepts: the same quoting
/// or alphanumeric rule as named-argument values.
pub open spec fn spec_validate_positional(s: Seq<char>) -> Result<
    Seq<char>,
    ParserValidationError,
> {
    spec_unquote(
        s,
        ParserValidationError::InvalidPositionalArgumentFormat,
        ParserValidationError::InvalidPositionalArgumentFormat,
    )
}

/// Validate a positional value and return it with quotes stripped.
pub fn validate_positional_arguments_format(arg: &str) -> (r: Result<
    String,
    ParserValidationError,
>)
    ensures
        match r {
            Ok(v) => spec_validate_positional(arg@) == Ok::<Seq<char>, ParserValidationError>(v@),
            Err(e) => spec_validate_positional(arg@) == Err::<Seq<char>, ParserValidationError>(e),
        },
{
    let n = arg.unicode_len();
    proof {
        assert(arg@.skip(0) =~= arg@);
    }
    unquote_value(
        arg,
        0,
        n,
        ParserValidationError::InvalidPositionalArgumentFormat,
        ParserValidationError::InvalidPositionalArgumentFormat,
    )
}

/// Find the first `=` at or after `from`, returning `n` when there is
/// none.
#[verifier::loop_isolation(false)]
fn find_eq_from(s: &str, from: usize, n: usize) -> (r: usize)
    requires
        from <= n == s@.len(),
    ensures
        from <= r <= n,
        r - from == spec_find_eq(s@.skip(from as int)),
{
    let ghost t = s@.skip(from as int);
    proof {
        lemma_find_eq(t);
    }
    let mut i: usize = from;
    while i < n
        invariant
            from <= i <= n,
            forall|k: int| 0 <= k < i - from ==> #[trigger] t[k] != '=',
        decreases n - i,
    {
        proof {
            assert(t[i - from] == s@[i as int]);
        }
        if s.get_char(i) == '=' {
            return i;
        }
        i += 1;
    }
    n
}

/// Apply the quoting-or-alphanumeric rule to `s@[from..n]`.
#[verifier::loop_isolation(false)]
fn unquote_value(
    s: &str,
    from: usize,
    n: usize,
    bare_err: ParserValidationError,
    quote_err: ParserValidationError,
) -> (r: Result<String, ParserValidationError>)
    requires
        from <= n == s@.len(),
    ensures
        match r {
            Ok(v) => spec_unquote(s@.skip(from as int), bare_err, quote_err) == Ok::<
                Seq<char>,
                ParserValidationError,
            >(v@),
            Err(e) => spec_unquote(s@.skip(from as int), bare_err, quote_err) == Err::<
                Seq<char>,
                ParserValidationError,
            >(e),
        },
{
    let ghost v = s@.skip(from as int);
    if from < n && s.get_char(from) == '"' {
        proof {
            assert(v[0] == s@[from as int]);
        }
        let ghost inner = v.drop_first();
        if from + 1 < n && s.get_char(n - 1) == '"' {
            proof {
                assert(inner.last() == s@[n - 1]);
                assert(inner.drop_last() =~= s@.subrange(from + 1, n - 1));
            }
            Ok(s.substring_char(from + 1, n - 1).to_owned())
        } else {
            proof {
                if inner.len() > 0 {
                    assert(inner.last() == s@[n - 1]);
                }
            }
            Err(quote_err)
        }
    } else {
        proof {
            if v.len() > 0 {
                assert(v[0] == s@[from as int]);
            }
        }
        if all_alnum_range(s, from, n) {
            Ok(s.substring_char(from, n).to_owned())
        } else {
            Err(bare_err)
        }
    }
}

} // verus!
