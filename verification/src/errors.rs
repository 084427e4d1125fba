//! What can go wrong: a configuration that the engine cannot take, at
//! construction, and input that no pattern accounts for, during a scan.

use vstd::prelude::*;
use vstd::string::*;

verus! {

/// A failure of the tokenizer. Each kind carries a message for diagnostics.
#[derive(Debug, PartialEq, Eq)]
pub enum Error {
    /// A pattern of the configuration cannot be used.
    ConfigurationError(String),
    /// Neither the ignore pattern nor any token type matches the input.
    SyntaxError(String),
}

/// An [`Error`] with its message as a sequence of characters.
pub enum ErrorView {
    /// A configuration error with its message.
    ConfigurationError(Seq<char>),
    /// A syntax error with its message.
    SyntaxError(Seq<char>),
}

impl View for Error {
    type V = ErrorView;

    open spec fn view(&self) -> ErrorView {
        match self {
            Error::ConfigurationError(message) => ErrorView::ConfigurationError(message@),
            Error::SyntaxError(message) => ErrorView::SyntaxError(message@),
        }
    }
}

/// The message of a configuration error: it names the pattern at fault.
pub open spec fn configuration_error_message(pattern: Seq<char>) -> Seq<char> {
    "invalid pattern: "@ + pattern
}

/// The message of a syntax error: the whole source, then the text that was
/// left when the scan stopped.
pub open spec fn syntax_error_message(source: Seq<char>, rest: Seq<char>) -> Seq<char> {
    "unexpected EOF for "@ + source + " at "@ + rest
}

/// The error for a configuration whose `pattern` cannot be used.
pub fn configuration_error(pattern: &str) -> (e: Error)
    ensures
        e@ == ErrorView::ConfigurationError(configuration_error_message(pattern@)),
{
    let mut message = String::new();
    message.append("invalid pattern: ");
    message.append(pattern);
    Error::ConfigurationError(message)
}

/// The error for a scan of `source` that stopped with `rest` unmatched.
pub fn syntax_error(source: &str, rest: &str) -> (e: Error)
    ensures
        e@ == ErrorView::SyntaxError(syntax_error_message(source@, rest@)),
{
    let mut message = String::new();
    message.append("unexpected EOF for ");
    message.append(source);
    message.append(" at ");
    message.append(rest);
    Error::SyntaxError(message)
}

} // verus!
