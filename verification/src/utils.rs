//! Small helpers shared by the tokenizer and the resolver: flag-shape
//! tests and the mapping from declared spellings to command-line aliases.
use vstd::prelude::*;

use crate::chars::push_char;
use crate::config::ArgConfig;

verus! {

/// A token is flag-shaped when it starts with `-`.
pub open spec fn spec_is_flag(s: Seq<char>) -> bool {
    s.len() >= 1 && s[0] == '-'
}

/// A token is long-flag-shaped when it starts with `--`.
pub open spec fn spec_is_long_flag(s: Seq<char>) -> bool {
    s.len() >= 2 && s[0] == '-' && s[1] == '-'
}

pub fn is_flag(arg: &str) -> (r: bool)
    ensures
        r == spec_is_flag(arg@),
{
    let n = arg.unicode_len();
    n >= 1 && arg.get_char(0) == '-'
}

pub fn is_short_flag(arg: &str) -> (r: bool)
    ensures
        r == spec_is_flag(arg@),
{
    is_flag(arg)
}

pub fn is_long_flag(arg: &str) -> (r: bool)
    ensures
        r == spec_is_long_flag(arg@),
{
    let n = arg.unicode_len();
    n >= 2 && arg.get_char(0) == '-' && arg.get_char(1) == '-'
}

/// The command-line alias of a long spelling: `--` then the name.
pub open spec fn spec_long_alias(l: Seq<char>) -> Seq<char> {
    seq!['-', '-'] + l
}

/// The command-line alias of a short spelling: `-` then the character.
pub open spec fn spec_short_alias(c: char) -> Seq<char> {
    seq!['-', c]
}

pub fn add_dashes_to_long_flag(long_flag: &str) -> (r: String)
    ensures
        r@ == spec_long_alias(long_flag@),
{
    proof {
        reveal_strlit("--");
    }
    let mut flag: String = ("--").to_owned();
    flag.append(long_flag);
    assert(flag@ =~= spec_long_alias(long_flag@));
    flag
}

pub fn add_dash_to_short_flag(short_flag: char) -> (r: String)
    ensures
        r@ == spec_short_alias(short_flag),
{
    proof {
        reveal_strlit("-");
    }
    let mut flag: String = ("-").to_owned();
    push_char(&mut flag, short_flag);
    assert(flag@ =~= spec_short_alias(short_flag));
    flag
}

/// A flag declaration must carry at least one spelling.
pub fn validate_flag_config(arg_config: &ArgConfig) -> (r: bool)
    ensures
        r == crate::config::spec_is_flag_cfg(*arg_config),
{
    arg_config.short_flag.is_some() || arg_config.long_flag.is_some()
}

/// A positional declaration must carry a value type.
pub fn validate_arg_config(arg_config: &ArgConfig) -> (r: bool)
    ensures
        r == (arg_config.arg_type is Some),
{
    arg_config.arg_type.is_some()
}

} // verus!
