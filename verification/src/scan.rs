//! The scanner's model: what a scan of a source yields, as a function of the
//! composite pattern, the token type names, the source and the starting
//! offset. The executable scanner is specified against these functions.

use crate::engine::{regex_captures, spans_fit, Span};
use crate::text::{
    byte_len, is_boundary, lemma_boundary_in_range, lemma_boundary_shift,
    lemma_ends_are_boundaries, lemma_text_between_bytes, text_between, text_from,
};
use vstd::prelude::*;

verus! {

/// A token as the model sees it.
pub struct TokenView {
    /// The name of the token type.
    pub token_type: Seq<char>,
    /// The text that the token type's pattern captured.
    pub value: Seq<char>,
    /// The byte offset at which the match starts.
    pub start: int,
    /// The byte offset just behind the match.
    pub end: int,
}

/// What one application of the composite pattern found at the head of a
/// text. Offsets count bytes from the head.
pub enum StepView {
    /// Nothing that the scanner can use.
    NoMatch,
    /// The ignore pattern matched the first `len` bytes.
    Ignored { len: int },
    /// The token type at `index` matched the first `len` bytes, and its
    /// pattern captured the bytes `start..end`.
    Matched { index: int, len: int, start: int, end: int },
}

/// How the search for the next token ends.
pub enum Scan {
    /// The source is used up.
    End,
    /// Input is left at offset `at`, and nothing accounts for it.
    Fail { at: int },
    /// A token.
    Found(TokenView),
}

/// The least index, not below `from`, of a capture group that took part in
/// the match.
pub open spec fn first_participating(spans: Seq<Span>, from: nat) -> Option<int>
    decreases spans.len() - from,
{
    if from >= spans.len() {
        None
    } else if spans[from as int] is Some {
        Some(from as int)
    } else {
        first_participating(spans, from + 1)
    }
}

/// Reads a match of the composite pattern, given the capture group of each
/// token type.
///
/// Group 0 is the whole match: it must start at the head of the text, and
/// it tells how far the match reaches. Group 1 is the ignore pattern. Of the
/// groups from 1 on, the lowest one that took part decides: it is group 1,
/// or the group of a token type, and then the first token type with that
/// group. A match that starts further along, or in which the lowest group
/// is none of these, is no match.
pub open spec fn step_of(spans: Seq<Span>, groups: Seq<int>) -> StepView {
    if spans.len() == 0 {
        StepView::NoMatch
    } else {
        match (spans[0], first_participating(spans, 1)) {
            (Some((from, len)), Some(i)) => {
                if from != 0 {
                    StepView::NoMatch
                } else if i == 1 {
                    StepView::Ignored { len }
                } else {
                    match (groups.index_of_first(i), spans[i]) {
                        (Some(index), Some((start, end))) => StepView::Matched {
                            index,
                            len,
                            start,
                            end,
                        },
                        _ => StepView::NoMatch,
                    }
                }
            },
            _ => StepView::NoMatch,
        }
    }
}

/// How many bytes are left of `source` at `offset`.
pub open spec fn remaining(source: Seq<char>, offset: int) -> nat {
    if offset < byte_len(source) {
        (byte_len(source) - offset) as nat
    } else {
        0
    }
}

/// The outcome of a scan that has found `found` and goes on to `rest`: the
/// tokens of both, or the failure of the rest alone.
pub open spec fn after(found: Seq<TokenView>, rest: Result<Seq<TokenView>, int>) -> Result<
    Seq<TokenView>,
    int,
> {
    match rest {
        Ok(more) => Ok(found + more),
        Err(at) => Err(at),
    }
}

/// A tokenizer as the model sees it.
pub struct TokenizerView {
    /// The composite pattern.
    pub pattern: Seq<char>,
    /// The names of the token types, in order of precedence.
    pub types: Seq<Seq<char>>,
    /// For each token type, the capture group of the composite pattern that
    /// stands for it.
    pub groups: Seq<int>,
}

impl TokenizerView {
    /// What the composite pattern finds in `source` at `offset`. The engine
    /// reports only spans that fit the text it searched; the model counts no
    /// others.
    pub open spec fn step_at(self, source: Seq<char>, offset: int) -> StepView {
        let rest = text_from(source, offset);
        match regex_captures(self.pattern, rest) {
            Some(spans) => if spans_fit(spans, rest) {
                step_of(spans, self.groups)
            } else {
                StepView::NoMatch
            },
            None => StepView::NoMatch,
        }
    }

    /// The search for the next token from `offset` on: ignored text is
    /// skipped, and the first token ends the search. At the end of the
    /// source there are no more tokens. A match that consumes nothing is not
    /// accepted, so where input is left and nothing consumes any of it, the
    /// search fails there.
    pub open spec fn scan_from(self, source: Seq<char>, offset: int) -> Scan
        decreases remaining(source, offset),
    {
        if offset >= byte_len(source) {
            Scan::End
        } else {
            match self.step_at(source, offset) {
                StepView::NoMatch => Scan::Fail { at: offset },
                StepView::Ignored { len } => if len > 0 {
                    self.scan_from(source, offset + len)
                } else {
                    Scan::Fail { at: offset }
                },
                StepView::Matched { index, len, start, end } => if len > 0 {
                    Scan::Found(
                        TokenView {
                            token_type: self.types[index],
                            value: text_between(source, offset + start, offset + end),
                            start: offset,
                            end: offset + len,
                        },
                    )
                } else {
                    Scan::Fail { at: offset }
                },
            }
        }
    }

    /// The full scan from `offset` on: the tokens in the order in which they
    /// are met, up to the end of the source, or else the offset at which the
    /// first search failed, and no tokens at all.
    pub open spec fn tokens_from(self, source: Seq<char>, offset: int) -> Result<
        Seq<TokenView>,
        int,
    >
        decreases remaining(source, offset),
    {
        match self.scan_from(source, offset) {
            Scan::End => Ok(Seq::empty()),
            Scan::Fail { at } => Err(at),
            Scan::Found(token) => {
                proof {
                    self.lemma_scan_moves_on(source, offset);
                }
                after(seq![token], self.tokens_from(source, token.end))
            },
        }
    }

    /// A search finds nothing before the offset at which it starts, and no
    /// empty token.
    pub proof fn lemma_scan_moves_on(self, source: Seq<char>, offset: int)
        ensures
            match self.scan_from(source, offset) {
                Scan::End => true,
                Scan::Fail { at } => offset <= at < byte_len(source),
                Scan::Found(token) => offset <= token.start < token.end,
            },
        decreases remaining(source, offset),
    {
        if offset < byte_len(source) {
            match self.step_at(source, offset) {
                StepView::Ignored { len } => {
                    if len > 0 {
                        self.lemma_scan_moves_on(source, offset + len);
                    }
                },
                _ => {},
            }
        }
    }

    /// A step at a boundary inside the source stays inside the source and
    /// ends on a boundary, and so does what a token type captured.
    pub proof fn lemma_step_fits(self, source: Seq<char>, offset: int)
        requires
            is_boundary(source, offset),
        ensures
            match self.step_at(source, offset) {
                StepView::NoMatch => true,
                StepView::Ignored { len } => {
                    &&& 0 <= len <= byte_len(source) - offset
                    &&& is_boundary(source, offset + len)
                },
                StepView::Matched { index, len, start, end } => {
                    &&& 0 <= index < self.groups.len()
                    &&& 0 <= len <= byte_len(source) - offset
                    &&& is_boundary(source, offset + len)
                    &&& 0 <= start <= end <= byte_len(source) - offset
                    &&& is_boundary(source, offset + start)
                    &&& is_boundary(source, offset + end)
                },
            },
    {
        let rest = text_from(source, offset);
        lemma_boundary_in_range(source, offset);
        lemma_ends_are_boundaries(source);
        lemma_text_between_bytes(source, offset, byte_len(source) as int);
        match regex_captures(self.pattern, rest) {
            Some(spans) => {
                if spans_fit(spans, rest) {
                    lemma_step_of_fits(spans, self.groups, rest);
                    match step_of(spans, self.groups) {
                        StepView::NoMatch => {},
                        StepView::Ignored { len } => {
                            lemma_boundary_shift(source, offset, len);
                        },
                        StepView::Matched { index, len, start, end } => {
                            lemma_boundary_shift(source, offset, len);
                            lemma_boundary_shift(source, offset, start);
                            lemma_boundary_shift(source, offset, end);
                        },
                    }
                }
            },
            None => {},
        }
    }

    /// A token that a search from a boundary finds lies at or behind the
    /// starting offset and inside the source, is not empty, and starts and
    /// ends on boundaries. A search fails at or behind the starting offset,
    /// on a boundary, before the end of the source.
    pub proof fn lemma_scan_advances(self, source: Seq<char>, offset: int)
        requires
            is_boundary(source, offset),
        ensures
            match self.scan_from(source, offset) {
                Scan::End => true,
                Scan::Fail { at } => offset <= at < byte_len(source) && is_boundary(source, at),
                Scan::Found(token) => {
                    &&& offset <= token.start < token.end <= byte_len(source)
                    &&& is_boundary(source, token.start)
                    &&& is_boundary(source, token.end)
                },
            },
        decreases remaining(source, offset),
    {
        if offset < byte_len(source) {
            self.lemma_step_fits(source, offset);
            match self.step_at(source, offset) {
                StepView::Ignored { len } => {
                    if len > 0 {
                        self.lemma_scan_advances(source, offset + len);
                    }
                },
                _ => {},
            }
        }
    }
}

/// What is read from spans that fit a haystack fits it too: the match and
/// what a token type captured lie in the haystack, between boundaries, and
/// the token type is one of those configured.
pub proof fn lemma_step_of_fits(spans: Seq<Span>, groups: Seq<int>, haystack: Seq<char>)
    requires
        spans_fit(spans, haystack),
    ensures
        match step_of(spans, groups) {
            StepView::NoMatch => true,
            StepView::Ignored { len } => 0 <= len <= byte_len(haystack) && is_boundary(
                haystack,
                len,
            ),
            StepView::Matched { index, len, start, end } => {
                &&& 0 <= index < groups.len()
                &&& 0 <= len <= byte_len(haystack)
                &&& is_boundary(haystack, len)
                &&& 0 <= start <= end <= byte_len(haystack)
                &&& is_boundary(haystack, start)
                &&& is_boundary(haystack, end)
            },
        },
{
    if spans.len() > 0 {
        lemma_first_participating(spans, 1);
        match first_participating(spans, 1) {
            Some(i) => {
                groups.index_of_first_ensures(i);
            },
            None => {},
        }
    }
}

/// `first_participating` finds a group that took part, and none below it,
/// from `from` on, took part; it finds none only where none took part.
pub proof fn lemma_first_participating(spans: Seq<Span>, from: nat)
    ensures
        match first_participating(spans, from) {
            Some(i) => {
                &&& from <= i < spans.len()
                &&& spans[i] is Some
                &&& forall|j: int| from <= j < i ==> spans[j] is None
            },
            None => forall|j: int| from <= j < spans.len() ==> spans[j] is None,
        },
    decreases spans.len() - from,
{
    if from < spans.len() && spans[from as int] is None {
        lemma_first_participating(spans, from + 1);
    }
}

} // verus!
