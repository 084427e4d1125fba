//! The pattern-matching engine.
//!
//! Matching is done by the `regex` crate. Nothing in this module is proved:
//! it declares the engine's types, gives names to what the engine computes,
//! and states what the engine's documentation promises of each call. The rest
//! of the library is verified against these statements.

use crate::text::{byte_len, is_boundary};
use vstd::prelude::*;

verus! {

/// A compiled pattern. Its inside is not visible to the verifier.
#[verifier::external_type_specification]
#[verifier::external_body]
pub struct ExRegex(regex::Regex);

/// The capture groups of one match, over a haystack that lives for `'h`.
#[verifier::external_type_specification]
#[verifier::external_body]
pub struct ExCaptures<'h>(regex::Captures<'h>);

/// A capture group's place in a haystack: the byte offsets of its start
/// (inclusive) and its end (exclusive). A group that took no part in the
/// match has none.
pub type Span = Option<(int, int)>;

/// Whether the engine, with its default options, accepts `pattern`: it is
/// well-formed and its compiled form stays within the default size limit.
pub uninterp spec fn regex_compiles(pattern: Seq<char>) -> bool;

/// The pattern text that a compiled pattern was made from, where it was
/// made by `regex::Regex::new`, which compiles with the engine's default
/// options. A pattern compiled in another way has none: what such a one
/// matches depends on more than its text.
pub uninterp spec fn compiled_from(re: &regex::Regex) -> Option<Seq<char>>;

/// The number of capture groups of `pattern`, compiled in the default way,
/// the whole match counted as one of them.
pub uninterp spec fn regex_group_count(pattern: Seq<char>) -> nat;

/// The engine's leftmost-first match of `pattern`, compiled in the default
/// way, in `haystack`: `None` where nothing matches, else one span per
/// capture group, group 0 being the whole match.
pub uninterp spec fn regex_captures(pattern: Seq<char>, haystack: Seq<char>) -> Option<Seq<Span>>;

/// The spans that a `Captures` value holds, by group index.
pub uninterp spec fn capture_spans(caps: &regex::Captures) -> Seq<Span>;

/// Every span lies within `haystack`, runs forward, and starts and ends
/// between characters.
pub open spec fn spans_fit(spans: Seq<Span>, haystack: Seq<char>) -> bool {
    forall|i: int|
        0 <= i < spans.len() ==> match #[trigger] spans[i] {
            Some((start, end)) => {
                &&& 0 <= start <= end <= byte_len(haystack)
                &&& is_boundary(haystack, start)
                &&& is_boundary(haystack, end)
            },
            None => true,
        }
}

/// Whether the engine gives `c` a meaning of its own in a pattern.
pub open spec fn is_meta_character(c: char) -> bool {
    c == '\\' || c == '.' || c == '+' || c == '*' || c == '?' || c == '(' || c == ')' || c == '|'
        || c == '[' || c == ']' || c == '{' || c == '}' || c == '^' || c == '$' || c == '#' || c
        == '&' || c == '-' || c == '~'
}

/// `text` with a backslash put before each of its meta characters, so that
/// as a pattern it matches `text` and nothing else.
pub open spec fn escaped(text: Seq<char>) -> Seq<char>
    decreases text.len(),
{
    if text.len() == 0 {
        Seq::empty()
    } else if is_meta_character(text.last()) {
        escaped(text.drop_last()).push('\\').push(text.last())
    } else {
        escaped(text.drop_last()).push(text.last())
    }
}

/// Compiles `pattern` with `regex::Regex::new`. There is a result exactly
/// for the patterns that the engine accepts, and it is a compiled pattern
/// made from `pattern` in the default way. The engine's account of a refusal
/// is dropped.
#[verifier::external_body]
pub(crate) fn compile(pattern: &str) -> (compiled: Option<regex::Regex>)
    ensures
        compiled is Some <==> regex_compiles(pattern@),
        compiled matches Some(regex) ==> compiled_from(&regex) == Some(pattern@),
{
    regex::Regex::new(pattern).ok()
}

/// `regex::Regex::captures` searches `haystack` for the first match. Every
/// offset it reports lies in the haystack on a character boundary, and no
/// span ends before it starts. For a pattern compiled in the default way,
/// what it finds depends on the pattern text and the haystack alone.
pub assume_specification<'h>[ regex::Regex::captures ](
    re: &regex::Regex,
    haystack: &'h str,
) -> (found: Option<regex::Captures<'h>>)
    ensures
        found matches Some(caps) ==> spans_fit(capture_spans(&caps), haystack@),
        compiled_from(re) matches Some(pattern) ==> match found {
            Some(caps) => regex_captures(pattern, haystack@) == Some(capture_spans(&caps)),
            None => regex_captures(pattern, haystack@) is None,
        },
;

/// `regex::Regex::captures_len` counts the capture groups of a compiled
/// pattern. The whole match is one of them, so there is at least one. For a
/// pattern compiled in the default way the number depends on the pattern
/// text alone.
pub assume_specification[ regex::Regex::captures_len ](re: &regex::Regex) -> (n: usize)
    ensures
        n >= 1,
        compiled_from(re) matches Some(pattern) ==> n == regex_group_count(pattern),
;

/// `regex::Captures::len` counts the capture groups, whether or not they took
/// part in the match.
pub assume_specification<'h>[ regex::Captures::<'h>::len ](caps: &regex::Captures<'h>) -> (n:
    usize)
    ensures
        n == capture_spans(caps).len(),
;

/// `regex::escape` puts a backslash before every meta character of `pattern`
/// and leaves the other characters as they are.
pub assume_specification[ regex::escape ](pattern: &str) -> (quoted: String)
    ensures
        quoted@ == escaped(pattern@),
;

/// The span of capture group `i`, read with `regex::Captures::get` and the
/// offsets of the `regex::Match` it returns. There is none where `i` names no
/// group or the group took no part in the match.
#[verifier::external_body]
pub(crate) fn group_span(caps: &regex::Captures, i: usize) -> (span: Option<(usize, usize)>)
    ensures
        match span {
            Some((start, end)) => {
                &&& i < capture_spans(caps).len()
                &&& capture_spans(caps)[i as int] == Some((start as int, end as int))
            },
            None => i < capture_spans(caps).len() ==> capture_spans(caps)[i as int] is None,
        },
{
    caps.get(i).map(|m| (m.start(), m.end()))
}

} // verus!
