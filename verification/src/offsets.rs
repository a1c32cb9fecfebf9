//! The two ways to address a position in a text: by byte of its UTF-8
//! encoding, and by character.

use vstd::prelude::*;
use vstd::utf8::*;

verus! {

/// Number of bytes that `c` occupies in UTF-8.
pub open spec fn utf8_width(c: char) -> nat {
    encode_scalar(c as u32).len()
}

/// Number of characters of `text` that precede character position `k`,
/// which is `k` itself unless `k` lies outside the text.
pub open spec fn clamp_index(text: Seq<char>, k: int) -> int {
    if k < 0 {
        0
    } else if k > text.len() {
        text.len() as int
    } else {
        k
    }
}

/// Byte offset at which character position `k` of `text` starts: the
/// encoded length of the characters before it. Positions past the end
/// denote the end of the text.
pub open spec fn byte_offset(text: Seq<char>, k: int) -> nat {
    encode_utf8(text.take(clamp_index(text, k))).len()
}

/// Some character position of `text`, its end included, has the byte
/// offset `byte_index`.
pub open spec fn starts_position(text: Seq<char>, byte_index: int) -> bool {
    exists|k: int| 0 <= k <= text.len() && #[trigger] byte_offset(text, k) == byte_index
}

/// First character position at or after `k` whose character starts at or
/// after `byte_index`; the end of the text if there is none.
pub open spec fn char_index_from(text: Seq<char>, byte_index: int, k: int) -> int
    decreases text.len() - k,
{
    if k < 0 || k >= text.len() || byte_index <= byte_offset(text, k) {
        k
    } else {
        char_index_from(text, byte_index, k + 1)
    }
}

/// Character position that byte offset `byte_index` denotes: the first
/// character that starts at or after it. An offset inside a character
/// therefore denotes the next character, and an offset past the last
/// character's start denotes the end of the text.
pub open spec fn char_index_of(text: Seq<char>, byte_index: int) -> int {
    char_index_from(text, byte_index, 0)
}

/// The characters of `text` at positions `start` up to `end`, both
/// clamped to the text. A range that ends before it starts is empty.
pub open spec fn char_slice(text: Seq<char>, start: int, end: int) -> Seq<char> {
    let from = clamp_index(text, start);
    let to = clamp_index(text, end);
    if from <= to {
        text.subrange(from, to)
    } else {
        Seq::empty()
    }
}

/// Encoding distributes over appending one character.
pub proof fn lemma_encode_push(text: Seq<char>, c: char)
    ensures
        encode_utf8(text.push(c)) == encode_utf8(text) + encode_scalar(c as u32),
    decreases text.len(),
{
    if text.len() == 0 {
        assert(text.push(c).drop_first() =~= text);
        assert(encode_utf8(text) =~= Seq::<u8>::empty());
        assert(encode_utf8(text.push(c)) =~= encode_scalar(c as u32) + encode_utf8(text));
    } else {
        lemma_encode_push(text.drop_first(), c);
        assert(text.push(c).drop_first() =~= text.drop_first().push(c));
        assert(encode_utf8(text.push(c)) =~= encode_utf8(text) + encode_scalar(c as u32));
    }
}

/// Encoding distributes over concatenation.
pub proof fn lemma_encode_concat(front: Seq<char>, back: Seq<char>)
    ensures
        encode_utf8(front + back) == encode_utf8(front) + encode_utf8(back),
    decreases back.len(),
{
    if back.len() == 0 {
        assert(front + back =~= front);
        assert(encode_utf8(front) + encode_utf8(back) =~= encode_utf8(front));
    } else {
        let last = back.last();
        lemma_encode_concat(front, back.drop_last());
        lemma_encode_push(front + back.drop_last(), last);
        lemma_encode_push(back.drop_last(), last);
        assert((front + back.drop_last()).push(last) =~= front + back);
        assert(back.drop_last().push(last) =~= back);
        assert(encode_utf8(front + back) =~= encode_utf8(front) + encode_utf8(back));
    }
}

/// Moving one character forward adds that character's width.
pub proof fn lemma_byte_offset_step(text: Seq<char>, k: int)
    requires
        0 <= k < text.len(),
    ensures
        byte_offset(text, k + 1) == byte_offset(text, k) + utf8_width(text[k]),
{
    lemma_encode_push(text.take(k), text[k]);
    assert(text.take(k + 1) =~= text.take(k).push(text[k]));
}

/// Offsets grow with the position, by at least one byte per character.
pub proof fn lemma_byte_offset_gap(text: Seq<char>, i: int, j: int)
    requires
        0 <= i <= j <= text.len(),
    ensures
        byte_offset(text, i) + (j - i) <= byte_offset(text, j),
    decreases j - i,
{
    if i < j {
        lemma_byte_offset_gap(text, i, j - 1);
        lemma_byte_offset_step(text, j - 1);
    }
}

/// The offset of the end of the text is its length in bytes, and no
/// position lies beyond it.
pub proof fn lemma_byte_offset_end(text: Seq<char>, k: int)
    ensures
        byte_offset(text, text.len() as int) == encode_utf8(text).len(),
        byte_offset(text, k) <= encode_utf8(text).len(),
        k >= text.len() ==> byte_offset(text, k) == encode_utf8(text).len(),
        k <= 0 ==> byte_offset(text, k) == 0,
{
    assert(text.take(text.len() as int) =~= text);
    lemma_byte_offset_gap(text, clamp_index(text, k), text.len() as int);
    assert(text.take(0) =~= Seq::<char>::empty());
}

/// The byte offset of a position is strictly increasing in the position.
pub proof fn lemma_byte_offset_increasing(text: Seq<char>, i: int, j: int)
    requires
        0 <= i < j <= text.len(),
    ensures
        byte_offset(text, i) < byte_offset(text, j),
{
    lemma_byte_offset_gap(text, i, j);
}

/// The offsets are those of the encoding: the character at position `k`
/// occupies the bytes from its offset up to the offset of the next
/// position, and what precedes them encodes the characters before it.
pub proof fn lemma_byte_offset_locates_character(text: Seq<char>, k: int)
    requires
        0 <= k < text.len(),
    ensures
        encode_utf8(text).subrange(byte_offset(text, k) as int, byte_offset(text, k + 1) as int)
            == encode_scalar(text[k] as u32),
        encode_utf8(text).take(byte_offset(text, k) as int) == encode_utf8(text.take(k)),
{
    lemma_encode_concat(text.take(k + 1), text.skip(k + 1));
    assert(text.take(k + 1) + text.skip(k + 1) =~= text);
    lemma_encode_push(text.take(k), text[k]);
    assert(text.take(k + 1) =~= text.take(k).push(text[k]));
    let bytes = encode_utf8(text);
    assert(bytes.subrange(byte_offset(text, k) as int, byte_offset(text, k + 1) as int)
        =~= encode_scalar(text[k] as u32));
    assert(bytes.take(byte_offset(text, k) as int) =~= encode_utf8(text.take(k)));
}

/// The byte offset never decreases as the position grows, whether or not
/// the positions lie in the text.
pub proof fn lemma_byte_offset_monotonic(text: Seq<char>, i: int, j: int)
    requires
        i <= j,
    ensures
        byte_offset(text, i) <= byte_offset(text, j),
{
    lemma_byte_offset_gap(text, clamp_index(text, i), clamp_index(text, j));
}

/// `char_index_of` is the least position whose character starts at or
/// after the byte offset, and the text's length where no character does.
pub proof fn lemma_char_index_of_least(text: Seq<char>, byte_index: int)
    ensures
        0 <= char_index_of(text, byte_index) <= text.len(),
        forall|j: int|
            0 <= j < char_index_of(text, byte_index) ==> #[trigger] byte_offset(text, j)
                < byte_index,
        char_index_of(text, byte_index) < text.len() ==> byte_index <= byte_offset(
            text,
            char_index_of(text, byte_index),
        ),
{
    lemma_char_index_from_least(text, byte_index, 0);
}

/// The scan from position `k` stops at the least position from `k` on
/// whose character starts at or after the byte offset.
proof fn lemma_char_index_from_least(text: Seq<char>, byte_index: int, k: int)
    requires
        0 <= k <= text.len(),
    ensures
        k <= char_index_from(text, byte_index, k) <= text.len(),
        forall|j: int|
            k <= j < char_index_from(text, byte_index, k) ==> #[trigger] byte_offset(text, j)
                < byte_index,
        char_index_from(text, byte_index, k) < text.len() ==> byte_index <= byte_offset(
            text,
            char_index_from(text, byte_index, k),
        ),
    decreases text.len() - k,
{
    if k < text.len() && byte_index > byte_offset(text, k) {
        lemma_char_index_from_least(text, byte_index, k + 1);
    }
}

/// The character position never decreases as the byte offset grows.
pub proof fn lemma_char_index_of_monotonic(text: Seq<char>, a: int, b: int)
    requires
        a <= b,
    ensures
        char_index_of(text, a) <= char_index_of(text, b),
{
    lemma_char_index_of_least(text, a);
    lemma_char_index_of_least(text, b);
    let at_b = char_index_of(text, b);
    if at_b < char_index_of(text, a) {
        assert(byte_offset(text, at_b) < a);
    }
}

/// Converting the byte offset of a character position gives that position
/// back: on the offsets at which characters start, and on the end of the
/// text, `char_index_of` inverts `byte_offset`.
pub proof fn lemma_char_index_of_byte_offset(text: Seq<char>, k: int)
    requires
        0 <= k <= text.len(),
    ensures
        char_index_of(text, byte_offset(text, k) as int) == k,
{
    let b = byte_offset(text, k) as int;
    let r = char_index_of(text, b);
    lemma_char_index_of_least(text, b);
    if r < k {
        lemma_byte_offset_increasing(text, r, k);
    }
}

/// The offset of a position after the first character is the width of
/// that character plus the offset of the position in the rest of the text.
proof fn lemma_byte_offset_front(text: Seq<char>, k: int)
    requires
        0 <= k < text.len(),
    ensures
        byte_offset(text, k + 1) == utf8_width(text[0]) + byte_offset(text.drop_first(), k),
{
    assert(text.take(k + 1).drop_first() =~= text.drop_first().take(k));
}

/// The byte offsets at which the positions of `text` start are the
/// character boundaries of its encoding.
pub proof fn lemma_char_boundary_starts_position(text: Seq<char>, byte_index: int)
    ensures
        is_char_boundary(encode_utf8(text), byte_index) <==> starts_position(text, byte_index),
    decreases text.len(),
{
    let bytes = encode_utf8(text);
    encode_utf8_valid_utf8(text);
    if byte_index == 0 {
        lemma_byte_offset_end(text, 0);
        assert(byte_offset(text, 0) == byte_index);
    } else if byte_index < 0 || bytes.len() < byte_index {
        assert forall|k: int| 0 <= k <= text.len() implies #[trigger] byte_offset(text, k)
            != byte_index by {
            lemma_byte_offset_end(text, k);
        }
    } else {
        let rest = text.drop_first();
        let width = utf8_width(text[0]) as int;
        encode_utf8_first_scalar(text);
        assert(pop_first_scalar(bytes) =~= encode_utf8(rest));
        lemma_char_boundary_starts_position(rest, byte_index - width);
        if starts_position(rest, byte_index - width) {
            let k = choose|k: int|
                0 <= k <= rest.len() && #[trigger] byte_offset(rest, k) == byte_index - width;
            lemma_byte_offset_front(text, k);
            assert(byte_offset(text, k + 1) == byte_index);
        }
        if starts_position(text, byte_index) {
            let k = choose|k: int|
                0 <= k <= text.len() && #[trigger] byte_offset(text, k) == byte_index;
            lemma_byte_offset_end(text, 0);
            lemma_byte_offset_front(text, k - 1);
            assert(byte_offset(rest, k - 1) == byte_index - width);
        }
    }
}

/// A byte offset on a character boundary survives the conversion to a
/// character position and back.
pub proof fn lemma_round_trip_on_boundary(text: Seq<char>, byte_index: int)
    requires
        is_char_boundary(encode_utf8(text), byte_index),
    ensures
        byte_offset(text, char_index_of(text, byte_index)) == byte_index,
{
    lemma_char_boundary_starts_position(text, byte_index);
    let k = choose|k: int| 0 <= k <= text.len() && #[trigger] byte_offset(text, k) == byte_index;
    lemma_char_index_of_byte_offset(text, k);
}

/// A byte offset within the text never moves backward in the conversion to
/// a character position and back, and one inside a character moves
/// forward, to the start of the next character.
pub proof fn lemma_round_trip_rounds_forward(text: Seq<char>, byte_index: int)
    requires
        byte_index <= encode_utf8(text).len(),
    ensures
        byte_offset(text, char_index_of(text, byte_index)) >= byte_index,
        !is_char_boundary(encode_utf8(text), byte_index) ==> byte_offset(
            text,
            char_index_of(text, byte_index),
        ) > byte_index,
{
    lemma_char_index_of_least(text, byte_index);
    lemma_byte_offset_end(text, char_index_of(text, byte_index));
    lemma_char_boundary_starts_position(text, byte_index);
}

} // verus!
