//! Parse-time errors: what went wrong and the offending token, value or
//! name.  All errors are terminal; no partial result is returned.
use vstd::prelude::*;

use crate::config::ArgType;

verus! {

/// A parse error, carrying the offending token, value or name.
#[derive(Debug)]
pub enum ParserError {
    /// A flag-shaped token that matches no declared spelling.
    UnknownFlag(String),
    /// A value-taking flag at the end of the stream.
    MissingArgumentValue(String),
    /// A value that is itself flag-shaped.
    ArgumentValueLooksLikeFlag(String),
    /// A value that does not coerce to the declared type.
    TypeMismatch(ArgType, String),
    /// More bare values than declared positionals.
    TooManyPositionalArguments(String),
    /// A required flag or positional that received no value.
    MissingRequiredArgument(String),
}

/// The mathematical form of a parse error.
pub enum ParserErrorV {
    UnknownFlag(Seq<char>),
    MissingArgumentValue(Seq<char>),
    ArgumentValueLooksLikeFlag(Seq<char>),
    TypeMismatch(ArgType, Seq<char>),
    TooManyPositionalArguments(Seq<char>),
    MissingRequiredArgument(Seq<char>),
}

impl View for ParserError {
    type V = ParserErrorV;

    open spec fn view(&self) -> ParserErrorV {
        match self {
            ParserError::UnknownFlag(t) => ParserErrorV::UnknownFlag(t@),
            ParserError::MissingArgumentValue(t) => ParserErrorV::MissingArgumentValue(t@),
            ParserError::ArgumentValueLooksLikeFlag(t) => ParserErrorV::ArgumentValueLooksLikeFlag(
                t@,
            ),
            ParserError::TypeMismatch(ty, t) => ParserErrorV::TypeMismatch(*ty, t@),
            ParserError::TooManyPositionalArguments(t) => ParserErrorV::TooManyPositionalArguments(
                t@,
            ),
            ParserError::MissingRequiredArgument(t) => ParserErrorV::MissingRequiredArgument(t@),
        }
    }
}

impl ParserError {
    /// A short description of the error kind.
    pub fn message(&self) -> (r: &'static str)
        ensures
            r@ == spec_message(self@),
    {
        match self {
            ParserError::UnknownFlag(_) => "Flag not defined",
            ParserError::MissingArgumentValue(_) => "Expected an argument value",
            ParserError::ArgumentValueLooksLikeFlag(_) => "Argument value looks like a flag",
            ParserError::TypeMismatch(_, _) => "Argument value has the wrong type",
            ParserError::TooManyPositionalArguments(_) => (
            "Got more positional arguments than configured"),
            ParserError::MissingRequiredArgument(_) => "Missing a required argument",
        }
    }
}

/// The description that `message` returns for each error kind.
pub open spec fn spec_message(e: ParserErrorV) -> Seq<char> {
    match e {
        ParserErrorV::UnknownFlag(_) => "Flag not defined"@,
        ParserErrorV::MissingArgumentValue(_) => "Expected an argument value"@,
        ParserErrorV::ArgumentValueLooksLikeFlag(_) => "Argument value looks like a flag"@,
        ParserErrorV::TypeMismatch(_, _) => "Argument value has the wrong type"@,
        ParserErrorV::TooManyPositionalArguments(_) => (
        "Got more positional arguments than configured"@),
        ParserErrorV::MissingRequiredArgument(_) => "Missing a required argument"@,
    }
}

} // verus!
