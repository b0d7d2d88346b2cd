//! Parsed values and type coercion: a raw value string is coerced into
//! the declared `ArgType`, or rejected with a `TypeMismatch`.
use vstd::prelude::*;

use crate::config::ArgType;
use crate::errors::ParserError;
use crate::errors::ParserErrorV;
use crate::numeric::is_float_text;
use crate::numeric::parse_integer;
use crate::numeric::spec_integer_val;
use crate::numeric::spec_is_float_text;
use crate::numeric::spec_is_integer_text;
use crate::utils::is_flag;
use crate::utils::spec_is_flag;

verus! {

/// A parsed argument value.  `Float` holds the accepted text, and
/// `Absent` marks a non-boolean optional item that received no input.
#[derive(Debug)]
pub enum Arg {
    Character(char),
    Float(String),
    Integer(i32),
    String(String),
    Boolean(bool),
    Absent,
}

/// The mathematical form of a parsed argument value.
pub enum ArgV {
    Character(char),
    Float(Seq<char>),
    Integer(i32),
    String(Seq<char>),
    Boolean(bool),
    Absent,
}

impl View for Arg {
    type V = ArgV;

    open spec fn view(&self) -> ArgV {
        match self {
            Arg::Character(c) => ArgV::Character(*c),
            Arg::Float(s) => ArgV::Float(s@),
            Arg::Integer(v) => ArgV::Integer(*v),
            Arg::String(s) => ArgV::String(s@),
            Arg::Boolean(b) => ArgV::Boolean(*b),
            Arg::Absent => ArgV::Absent,
        }
    }
}

/// The value a raw string coerces to under a declared type, or `None`
/// when the string is rejected.
pub open spec fn spec_coerce(t: ArgType, v: Seq<char>) -> Option<ArgV> {
    match t {
        ArgType::Character => if v.len() == 1 {
            Some(ArgV::Character(v[0]))
        } else {
            None
        },
        ArgType::Integer => if spec_is_integer_text(v) {
            Some(ArgV::Integer(spec_integer_val(v) as i32))
        } else {
            None
        },
        ArgType::Float => if spec_is_float_text(v) {
            Some(ArgV::Float(v))
        } else {
            None
        },
        ArgType::String => Some(ArgV::String(v)),
    }
}

/// What `parse_flag_arg_value` returns: flag-shaped values are rejected
/// outright, all others are coerced.
pub open spec fn spec_parse_value(t: ArgType, v: Seq<char>) -> Result<ArgV, ParserErrorV> {
    if spec_is_flag(v) {
        Err(ParserErrorV::ArgumentValueLooksLikeFlag(v))
    } else {
        match spec_coerce(t, v) {
            Some(a) => Ok(a),
            None => Err(ParserErrorV::TypeMismatch(t, v)),
        }
    }
}

/// Coerce a raw value string to the declared type.  A flag-shaped string
/// is rejected; a string the type does not accept is a `TypeMismatch`.
pub fn parse_flag_arg_value(arg_type: &ArgType, arg: &str) -> (r: Result<Arg, ParserError>)
    ensures
        match r {
            Ok(a) => spec_parse_value(*arg_type, arg@) == Ok::<ArgV, ParserErrorV>(a@),
            Err(e) => spec_parse_value(*arg_type, arg@) == Err::<ArgV, ParserErrorV>(e@),
        },
{
    if is_flag(arg) {
        return Err(ParserError::ArgumentValueLooksLikeFlag(arg.to_owned()));
    }
    match arg_type {
        ArgType::Character => {
            let n = arg.unicode_len();
            if n != 1 {
                return Err(ParserError::TypeMismatch(ArgType::Character, arg.to_owned()));
            }
            Ok(Arg::Character(arg.get_char(0)))
        },
        ArgType::Integer => {
            match parse_integer(arg) {
                Some(v) => Ok(Arg::Integer(v)),
                None => Err(ParserError::TypeMismatch(ArgType::Integer, arg.to_owned())),
            }
        },
        ArgType::Float => {
            if is_float_text(arg) {
                Ok(Arg::Float(arg.to_owned()))
            } else {
                Err(ParserError::TypeMismatch(ArgType::Float, arg.to_owned()))
            }
        },
        ArgType::String => Ok(Arg::String(arg.to_owned())),
    }
}

} // verus!
