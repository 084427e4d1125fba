//! A lexical-analysis engine. A [`Tokenizer`] is compiled once from an
//! ignore pattern and an ordered list of token types, and then turns source
//! text into tokens with exact byte offsets, or reports the first place
//! where the text matches nothing.
//!
//! - [`tokenizer`] holds the tokenizer itself and the scan.
//! - [`pattern`] describes the composite expression that a configuration
//!   compiles to, and when a configuration is refused.
//! - [`scan`] is the model of a scan, against which the scan is specified,
//!   and [`laws`] proves what holds of every scan.
//! - [`engine`] is the boundary to the pattern-matching engine.
//! - [`text`] relates byte offsets to text, and [`errors`] holds the error
//!   type.

pub mod engine;
pub mod errors;
pub mod laws;
pub mod pattern;
pub mod scan;
pub mod text;
pub mod tokenizer;

pub use errors::Error;
pub use tokenizer::{Step, Token, Tokenizer};
pub use vstd::hash_map::StringHashMap;
