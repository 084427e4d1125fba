//! Byte-addressed views of text.
//!
//! A position in a text is a byte offset into its UTF-8 encoding, never a
//! count of characters. The functions here relate such offsets to the
//! character sequence that a `&str` denotes, and cut a `&str` at them.

use vstd::prelude::*;
use vstd::string::*;
use vstd::utf8::*;

verus! {

/// The number of bytes that `text` occupies in UTF-8.
pub open spec fn byte_len(text: Seq<char>) -> nat {
    encode_utf8(text).len()
}

/// Whether byte offset `at` is the start of `text`, or falls between two of
/// its characters or at its end.
pub open spec fn is_boundary(text: Seq<char>, at: int) -> bool {
    at == 0 || is_char_boundary(encode_utf8(text), at)
}

/// The characters of `text` that are encoded in the bytes `from..to`.
pub open spec fn text_between(text: Seq<char>, from: int, to: int) -> Seq<char> {
    decode_utf8(encode_utf8(text).subrange(from, to))
}

/// The characters of `text` from byte offset `from` to its end.
pub open spec fn text_from(text: Seq<char>, from: int) -> Seq<char> {
    text_between(text, from, byte_len(text) as int)
}

/// A boundary lies inside the text.
pub proof fn lemma_boundary_in_range(text: Seq<char>, at: int)
    requires
        is_boundary(text, at),
    ensures
        0 <= at <= byte_len(text),
{
    encode_utf8_valid_utf8(text);
}

/// The start and the end of a text are boundaries.
pub proof fn lemma_ends_are_boundaries(text: Seq<char>)
    ensures
        is_boundary(text, 0),
        is_boundary(text, byte_len(text) as int),
{
    encode_utf8_valid_utf8(text);
    is_char_boundary_start_end_of_seq(encode_utf8(text));
}

/// Cutting a text at two boundaries yields a text whose encoding is exactly
/// the bytes between them.
pub proof fn lemma_text_between_bytes(text: Seq<char>, from: int, to: int)
    requires
        is_boundary(text, from),
        is_boundary(text, to),
        from <= to,
    ensures
        encode_utf8(text_between(text, from, to)) == encode_utf8(text).subrange(from, to),
        byte_len(text_between(text, from, to)) == to - from,
{
    let bytes = encode_utf8(text);
    encode_utf8_valid_utf8(text);
    valid_utf8_split(bytes, to);
    let head = bytes.subrange(0, to);
    lemma_boundary_within(bytes, from, to);
    valid_utf8_split(head, from);
    assert(head.subrange(from, head.len() as int) =~= bytes.subrange(from, to));
    decode_utf8_encode_utf8(bytes.subrange(from, to));
}

/// A boundary of a byte sequence is also a boundary of any prefix that ends
/// at a later boundary.
proof fn lemma_boundary_within(bytes: Seq<u8>, at: int, end: int)
    requires
        valid_utf8(bytes),
        is_char_boundary(bytes, at),
        is_char_boundary(bytes, end),
        at <= end,
    ensures
        is_char_boundary(bytes.subrange(0, end), at),
{
    valid_utf8_split(bytes, end);
    let head = bytes.subrange(0, end);
    if at == end {
        is_char_boundary_start_end_of_seq(head);
    } else if at == 0 {
    } else {
        is_char_boundary_iff_not_is_continuation_byte(bytes, at);
        is_char_boundary_iff_not_is_continuation_byte(head, at);
    }
}

/// A boundary of the text that starts at boundary `from` is, shifted by
/// `from`, a boundary of the whole text.
pub proof fn lemma_boundary_shift(text: Seq<char>, from: int, at: int)
    requires
        is_boundary(text, from),
        is_boundary(text_from(text, from), at),
    ensures
        is_boundary(text, from + at),
{
    let bytes = encode_utf8(text);
    encode_utf8_valid_utf8(text);
    lemma_ends_are_boundaries(text);
    lemma_text_between_bytes(text, from, bytes.len() as int);
    let tail = bytes.subrange(from, bytes.len() as int);
    valid_utf8_split(bytes, from);
    if from + at == bytes.len() {
    } else if at == 0 {
    } else {
        is_char_boundary_iff_not_is_continuation_byte(tail, at);
        is_char_boundary_iff_not_is_continuation_byte(bytes, from + at);
    }
}

/// Cutting the tail of a text is cutting the text itself, further along.
pub proof fn lemma_text_between_shift(text: Seq<char>, from: int, start: int, end: int)
    requires
        is_boundary(text, from),
        0 <= start <= end <= byte_len(text) - from,
    ensures
        text_between(text_from(text, from), start, end) == text_between(
            text,
            from + start,
            from + end,
        ),
{
    let bytes = encode_utf8(text);
    lemma_boundary_in_range(text, from);
    lemma_ends_are_boundaries(text);
    lemma_text_between_bytes(text, from, bytes.len() as int);
    let tail = bytes.subrange(from, bytes.len() as int);
    assert(tail.subrange(start, end) =~= bytes.subrange(from + start, from + end));
}

/// The part of `source` from byte offset `from` to its end.
pub fn suffix<'v>(source: &'v str, from: usize) -> (rest: &'v str)
    requires
        is_boundary(source@, from as int),
    ensures
        rest@ == text_from(source@, from as int),
        byte_len(rest@) == byte_len(source@) - from,
{
    proof {
        encode_utf8_valid_utf8(source@);
        lemma_ends_are_boundaries(source@);
    }
    let (_, rest) = source.split_at(from);
    proof {
        encode_utf8_decode_utf8(rest@);
    }
    rest
}

/// The part of `source` between the byte offsets `from` and `to`.
pub fn slice<'v>(source: &'v str, from: usize, to: usize) -> (part: &'v str)
    requires
        is_boundary(source@, from as int),
        is_boundary(source@, to as int),
        from <= to,
    ensures
        part@ == text_between(source@, from as int, to as int),
        byte_len(part@) == to - from,
{
    proof {
        encode_utf8_valid_utf8(source@);
        lemma_boundary_within(source.spec_bytes(), from as int, to as int);
    }
    let (head, _) = source.split_at(to);
    let (_, part) = head.split_at(from);
    proof {
        assert(head.spec_bytes().subrange(from as int, head.spec_bytes().len() as int)
            =~= source.spec_bytes().subrange(from as int, to as int));
        encode_utf8_decode_utf8(part@);
    }
    part
}

} // verus!
