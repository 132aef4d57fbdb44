//! A recursive-descent parser for URLs of the form
//! `scheme://host[:port][/path][?query][#fragment]`.
//!
//! Every parser takes the input that is left, and either hands back what it
//! leaves together with the value it read, or a trace of tagged places that
//! says where and in which construct the input stopped matching. The parsers
//! of the parts are [`parse_protocol`], [`parse_host`], [`parse_port`],
//! [`parse_path`], [`parse_query`] and [`parse_fragment`]; [`parse_url`] puts
//! them in their order.
//!
//! The grammar is stated in `grammar`, as functions on sequences of
//! characters, and each parser is proved to do what the grammar says. The
//! primitive matchers in `matchers` are nom's; what they are taken to do is
//! stated there. `laws` holds what is proved of the grammar as a whole: the
//! texts that parse are the texts that are put together from well-formed
//! parts, and the URL that is read holds those parts; a well-formed URL that
//! is written out parses as itself; a parser has one result on an input; of
//! two forms that match, the one listed first is read; every frame of a
//! trace is at a place of the input.

pub mod chars;
pub mod error;
pub mod fragment;
pub mod frames;
pub mod grammar;
pub mod host;
pub mod laws;
pub mod matchers;
pub mod number;
pub mod parser;
pub mod path;
pub mod port;
pub mod protocol;
pub mod query;
pub mod reading;
pub mod render;
pub mod text;
pub mod url;
pub mod written;
pub mod written_host;
pub mod written_parts;

pub use crate::error::{ErrorTag, ParseError};
pub use crate::fragment::parse_fragment;
pub use crate::host::parse_host;
pub use crate::parser::{parse_url, parse_url_prefix};
pub use crate::path::parse_path;
pub use crate::port::parse_port;
pub use crate::protocol::parse_protocol;
pub use crate::query::parse_query;
pub use crate::url::{Host, Protocol, QueryParam, QueryParams, URL};
