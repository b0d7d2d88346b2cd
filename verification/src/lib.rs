//! A verified command-line argument parser: a declared configuration of
//! flags and positional arguments is matched against raw arguments,
//! producing a typed result set, a help request, or a descriptive error.
use vstd::prelude::*;

pub mod chars;
pub mod config;
pub mod errors;
pub mod help;
pub mod laws;
pub mod numeric;
pub mod resolve;
pub mod tokenize;
pub mod utils;
pub mod validate;
pub mod values;

verus! {

pub use crate::config::new;
pub use crate::config::ArgConfig;
pub use crate::config::ArgType;
pub use crate::config::ConfigError;
pub use crate::config::Parser;
pub use crate::errors::ParserError;
pub use crate::resolve::ParseOutcome;
pub use crate::resolve::ParseResult;
pub use crate::values::Arg;

} // verus!
