//! Laws of the scanner, proved of its model for every tokenizer, source and
//! offset.

use crate::engine::Span;
use crate::pattern::{group_table, lemma_group_table_increases};
use crate::scan::{
    first_participating, lemma_first_participating, remaining, step_of, Scan, StepView,
    TokenView, TokenizerView,
};
use crate::text::{
    byte_len, is_boundary, lemma_boundary_in_range, lemma_text_between_bytes, text_between,
};
use vstd::prelude::*;

verus! {

/// One span of the source that a scan has accounted for.
pub struct Piece {
    /// The byte offset at which the span starts.
    pub start: int,
    /// The byte offset just behind the span.
    pub end: int,
    /// Whether the span is a token; if not, it was ignored.
    pub is_token: bool,
}

/// Every span that the full scan from `offset` accounts for, ignored text
/// and tokens alike, in scan order, up to where the scan stops.
pub open spec fn pieces_from(tokenizer: TokenizerView, source: Seq<char>, offset: int) -> Seq<
    Piece,
>
    decreases remaining(source, offset),
{
    if offset >= byte_len(source) {
        Seq::empty()
    } else {
        match tokenizer.step_at(source, offset) {
            StepView::NoMatch => Seq::empty(),
            StepView::Ignored { len } => if len > 0 {
                seq![Piece { start: offset, end: offset + len, is_token: false }] + pieces_from(
                    tokenizer,
                    source,
                    offset + len,
                )
            } else {
                Seq::empty()
            },
            StepView::Matched { index, len, start, end } => if len > 0 {
                seq![Piece { start: offset, end: offset + len, is_token: true }] + pieces_from(
                    tokenizer,
                    source,
                    offset + len,
                )
            } else {
                Seq::empty()
            },
        }
    }
}

/// Whether a piece is a token.
pub open spec fn is_token_piece() -> spec_fn(Piece) -> bool {
    |piece: Piece| piece.is_token
}

/// The span of the source that a token covers.
pub open spec fn piece_of() -> spec_fn(TokenView) -> Piece {
    |token: TokenView| Piece { start: token.start, end: token.end, is_token: true }
}

/// The pieces lie end to end from `from` to `to`: the first starts at
/// `from`, each starts where the one before it ends, none is empty, and the
/// last ends at `to`. No pieces tile the empty range only.
pub open spec fn tiles(pieces: Seq<Piece>, from: int, to: int) -> bool {
    if pieces.len() == 0 {
        from == to
    } else {
        &&& pieces.first().start == from
        &&& pieces.last().end == to
        &&& forall|i: int| 0 <= i < pieces.len() ==> (#[trigger] pieces[i]).start < pieces[i].end
        &&& forall|i: int|
            0 <= i < pieces.len() - 1 ==> (#[trigger] pieces[i]).end == pieces[i + 1].start
    }
}

/// Whether the text from `offset` on is nothing but ignored text: the
/// matcher, applied again and again, ignores its way to the end of the
/// source.
pub open spec fn only_ignored(tokenizer: TokenizerView, source: Seq<char>, offset: int) -> bool
    decreases remaining(source, offset),
{
    if offset >= byte_len(source) {
        true
    } else {
        match tokenizer.step_at(source, offset) {
            StepView::Ignored { len } => len > 0 && only_ignored(tokenizer, source, offset + len),
            _ => false,
        }
    }
}

/// Tiling. What a scan accounts for, tokens and ignored text together, lies
/// end to end from the starting offset, without gap or overlap. Where the
/// scan succeeds it reaches the end of the source, and the pieces that are
/// tokens are exactly the tokens returned, in order. Where it fails, the
/// pieces reach the offset of the failure.
pub proof fn lemma_tiling(tokenizer: TokenizerView, source: Seq<char>, offset: int)
    requires
        is_boundary(source, offset),
    ensures
        match tokenizer.tokens_from(source, offset) {
            Ok(tokens) => {
                &&& tiles(pieces_from(tokenizer, source, offset), offset, byte_len(source) as int)
                &&& pieces_from(tokenizer, source, offset).filter(is_token_piece())
                    == tokens.map_values(piece_of())
            },
            Err(at) => tiles(pieces_from(tokenizer, source, offset), offset, at),
        },
    decreases remaining(source, offset),
{
    lemma_boundary_in_range(source, offset);
    if offset < byte_len(source) {
        tokenizer.lemma_step_fits(source, offset);
        match tokenizer.step_at(source, offset) {
            StepView::NoMatch => {},
            StepView::Ignored { len } => {
                if len > 0 {
                    lemma_tiling(tokenizer, source, offset + len);
                    pieces_from(tokenizer, source, offset + len).lemma_filter_prepend(
                        Piece { start: offset, end: offset + len, is_token: false },
                        is_token_piece(),
                    );
                }
            },
            StepView::Matched { index, len, start, end } => {
                if len > 0 {
                    lemma_tiling(tokenizer, source, offset + len);
                    pieces_from(tokenizer, source, offset + len).lemma_filter_prepend(
                        Piece { start: offset, end: offset + len, is_token: true },
                        is_token_piece(),
                    );
                }
            },
        }
    }
}

/// Empty input. A scan that starts at the end of a source, and so any scan
/// of the empty source, yields no tokens and does not fail.
pub proof fn lemma_empty_input(tokenizer: TokenizerView, source: Seq<char>)
    ensures
        tokenizer.tokens_from(source, byte_len(source) as int) == Ok::<Seq<TokenView>, int>(
            Seq::empty(),
        ),
        tokenizer.tokens_from(Seq::empty(), 0) == Ok::<Seq<TokenView>, int>(Seq::empty()),
{
}

/// All-ignorable input. A scan of text that is nothing but ignored text
/// yields no tokens and does not fail.
pub proof fn lemma_only_ignored(tokenizer: TokenizerView, source: Seq<char>, offset: int)
    requires
        only_ignored(tokenizer, source, offset),
    ensures
        tokenizer.tokens_from(source, offset) == Ok::<Seq<TokenView>, int>(Seq::empty()),
    decreases remaining(source, offset),
{
    if offset < byte_len(source) {
        match tokenizer.step_at(source, offset) {
            StepView::Ignored { len } => {
                lemma_only_ignored(tokenizer, source, offset + len);
            },
            _ => {},
        }
    }
}

/// Anchoring and precedence. A match counts only where it starts at the head
/// of the text, and of the capture groups that took part in it, the lowest
/// decides: where text is ignored, group 1 took part; where a token type is
/// reported, its group took part and no group before it did, so neither the
/// ignore pattern's nor that of a token type with a lower group.
pub proof fn lemma_precedence(spans: Seq<Span>, groups: Seq<int>)
    ensures
        match step_of(spans, groups) {
            StepView::NoMatch => true,
            StepView::Ignored { len } => {
                &&& spans[0] == Some((0int, len))
                &&& spans.len() > 1
                &&& spans[1] is Some
            },
            StepView::Matched { index, len, start, end } => {
                &&& spans[0] == Some((0int, len))
                &&& 0 <= index < groups.len()
                &&& 1 < groups[index] < spans.len()
                &&& spans[groups[index]] == Some((start, end))
                &&& forall|group: int| 1 <= group < groups[index] ==> spans[group] is None
            },
        },
{
    if spans.len() > 0 {
        lemma_first_participating(spans, 1);
        match first_participating(spans, 1) {
            Some(i) => {
                groups.index_of_first_ensures(i);
            },
            None => {},
        }
    }
}

/// Precedence among token types. For a tokenizer's own table of groups, a
/// token type declared earlier has the lower group: so where two token
/// types could both be reported for a match, the one declared first is.
pub proof fn lemma_earlier_type_wins(
    ignore: Seq<char>,
    overrides: Map<Seq<char>, Seq<char>>,
    names: Seq<Seq<char>>,
    spans: Seq<Span>,
)
    ensures
        match step_of(spans, group_table(ignore, overrides, names)) {
            StepView::Matched { index, len, start, end } => forall|earlier: int|
                0 <= earlier < index ==> spans[#[trigger] group_table(
                    ignore,
                    overrides,
                    names,
                )[earlier]] is None,
            _ => true,
        },
{
    let groups = group_table(ignore, overrides, names);
    lemma_precedence(spans, groups);
    match step_of(spans, groups) {
        StepView::Matched { index, len, start, end } => {
            assert forall|earlier: int|
                0 <= earlier < index implies spans[#[trigger] groups[earlier]] is None by {
                lemma_group_table_increases(ignore, overrides, names, earlier, index);
            }
        },
        _ => {},
    }
}

/// Byte offsets. A token's offsets are positions in the encoded source:
/// they fall between characters, and their difference is the number of
/// bytes that encode the text between them, however many characters that
/// is.
pub proof fn lemma_token_span_counts_bytes(
    tokenizer: TokenizerView,
    source: Seq<char>,
    offset: int,
)
    requires
        is_boundary(source, offset),
    ensures
        match tokenizer.scan_from(source, offset) {
            Scan::Found(token) => {
                &&& offset <= token.start < token.end <= byte_len(source)
                &&& is_boundary(source, token.start)
                &&& is_boundary(source, token.end)
                &&& byte_len(text_between(source, token.start, token.end)) == token.end
                    - token.start
            },
            _ => true,
        },
{
    tokenizer.lemma_scan_advances(source, offset);
    match tokenizer.scan_from(source, offset) {
        Scan::Found(token) => {
            lemma_text_between_bytes(source, token.start, token.end);
        },
        _ => {},
    }
}

/// Whether a scan that starts at `offset` comes to stand at `target`: it
/// starts there, or gets there by ignoring text and finding tokens.
pub open spec fn reaches(
    tokenizer: TokenizerView,
    source: Seq<char>,
    offset: int,
    target: int,
) -> bool
    decreases remaining(source, offset),
{
    target == offset || (offset < byte_len(source) && match tokenizer.step_at(source, offset) {
        StepView::NoMatch => false,
        StepView::Ignored { len } => len > 0 && reaches(tokenizer, source, offset + len, target),
        StepView::Matched { index, len, start, end } => len > 0 && reaches(
            tokenizer,
            source,
            offset + len,
            target,
        ),
    })
}

/// Fail-fast. Wherever a scan comes to stand, if the search for the next
/// token fails there, the scan as a whole fails, with that failure and with
/// nothing else: the tokens found on the way are not part of the result.
pub proof fn lemma_fail_fast(
    tokenizer: TokenizerView,
    source: Seq<char>,
    offset: int,
    target: int,
)
    requires
        reaches(tokenizer, source, offset, target),
    ensures
        tokenizer.scan_from(source, target) matches Scan::Fail { at }
            ==> tokenizer.tokens_from(source, offset) == Err::<Seq<TokenView>, int>(at),
    decreases remaining(source, offset),
{
    if target != offset {
        match tokenizer.step_at(source, offset) {
            StepView::NoMatch => {},
            StepView::Ignored { len } => {
                lemma_fail_fast(tokenizer, source, offset + len, target);
            },
            StepView::Matched { index, len, start, end } => {
                lemma_fail_fast(tokenizer, source, offset + len, target);
            },
        }
    }
}

} // verus!
