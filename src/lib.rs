//! A small tag language parsed with verified parser combinators.
//!
//! A command line such as `<ls/><-la/>` is parsed into a list of
//! [`Element`]s, which [`elements_to_args`] turns into the argument list
//! `["ls", "-la"]`.
pub mod combinators;
pub mod command;
pub mod element;
pub mod facts;
pub mod grammar;
pub mod primitives;

pub use combinators::{BoxedParser, ParseResult, Parser};
pub use command::elements_to_args;
pub use element::Element;
pub use grammar::cli_words;
