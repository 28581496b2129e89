//! A command-line argument parser whose capacities are fixed by const
//! generics: argument definitions, subcommands and positional slots.
//!
//! Parsing is specified by the functions of [`parse`] over the definitions'
//! and the tokens' characters; help text by the functions of [`fmt`], as the
//! sequence of pieces written to a [`fmt::HelpFormatter`].
use vstd::prelude::*;

mod arg;
mod error;
pub mod fmt;
mod matches;
pub mod parse;
mod parser;
mod text;
mod value;

pub use arg::{Arg, ArgKind, ArgSpec};
pub use error::{ErrorKind, ErrorView, ParseError, ParseResult};
pub use matches::{Matches, MatchesView};
pub use parser::{Parser, ParserView, SubCommand, SubResult, SubResultView, SubSpec};
pub use value::FromArgValue;
