//! Operations on text: position conversion, substrings, normalization,
//! shape and hashing.

use vstd::prelude::*;
use vstd::utf8::encode_utf8;
use crate::hash::{hash_of_text, FNV_DEFAULT_KEY};
use crate::normalization::{
    base_characters, lemma_base_characters_push, lemma_recomposed_from_push,
    lemma_without_diacritics_push, normalized, recomposed, recomposed_from, stripped,
    without_diacritics,
};
use crate::offsets::{
    byte_offset, char_index_from, char_index_of, char_slice, clamp_index,
    lemma_byte_offset_end, lemma_byte_offset_gap, lemma_byte_offset_monotonic,
    lemma_byte_offset_step, lemma_char_index_of_least, lemma_char_index_of_monotonic,
};
use crate::shape::{all_lowercase, all_uppercase, shape_of, title_case};
use crate::unicode::decompose;
use fnv::FnvHasher;
use std::hash::Hasher;
use std::ops::Range;
use unicode_normalization::char::{compose, is_combining_mark};

verus! {

/// Length of `string` in bytes.
fn byte_len(string: &str) -> (total: usize)
    ensures
        total == encode_utf8(string@).len(),
{
    string.as_bytes().len()
}

/// Converts both ends of a byte range to character positions, each as
/// `convert_to_char_index` does. A range that does not end before it
/// starts is converted to another such range.
pub fn convert_to_char_range(string: &str, range: &Range<usize>) -> (chars: Range<usize>)
    ensures
        chars.start == char_index_of(string@, range.start as int),
        chars.end == char_index_of(string@, range.end as int),
        range.start <= range.end ==> chars.start <= chars.end,
{
    proof {
        if range.start <= range.end {
            lemma_char_index_of_monotonic(string@, range.start as int, range.end as int);
        }
    }
    Range {
        start: convert_to_char_index(string, range.start),
        end: convert_to_char_index(string, range.end),
    }
}

/// Converts both ends of a character range to byte offsets, each as
/// `convert_to_byte_index` does. A range that does not end before it
/// starts is converted to another such range.
pub fn convert_to_byte_range(string: &str, range: &Range<usize>) -> (bytes: Range<usize>)
    ensures
        bytes.start == byte_offset(string@, range.start as int),
        bytes.end == byte_offset(string@, range.end as int),
        range.start <= range.end ==> bytes.start <= bytes.end,
{
    proof {
        if range.start <= range.end {
            lemma_byte_offset_monotonic(string@, range.start as int, range.end as int);
        }
    }
    Range {
        start: convert_to_byte_index(string, range.start),
        end: convert_to_byte_index(string, range.end),
    }
}

/// Character position that `byte_index` denotes: the index of the first
/// character that starts at or after it. An offset inside a character is
/// rounded forward to the next one; an offset after the start of the last
/// character gives the number of characters.
pub fn convert_to_char_index(string: &str, byte_index: usize) -> (char_index: usize)
    ensures
        char_index == char_index_of(string@, byte_index as int),
        char_index <= string@.len(),
        forall|j: int| 0 <= j < char_index ==> #[trigger] byte_offset(string@, j) < byte_index,
        char_index < string@.len() ==> byte_index <= byte_offset(string@, char_index as int),
{
    let total = byte_len(string);
    let mut acc: usize = 0;
    let mut current: usize = 0;
    proof {
        lemma_byte_offset_end(string@, 0);
    }
    for c in it: string.chars()
        invariant
            it.seq() == string@,
            current == it.index(),
            acc == byte_offset(string@, current as int),
            total == encode_utf8(string@).len(),
            char_index_of(string@, byte_index as int) == char_index_from(
                string@,
                byte_index as int,
                current as int,
            ),
    {
        if byte_index <= acc {
            proof {
                lemma_char_index_of_least(string@, byte_index as int);
            }
            return current;
        }
        proof {
            lemma_byte_offset_step(string@, current as int);
            lemma_byte_offset_end(string@, current + 1);
            lemma_byte_offset_gap(string@, 0, current + 1);
        }
        acc += c.len_utf8();
        current += 1;
    }
    proof {
        lemma_char_index_of_least(string@, byte_index as int);
    }
    current
}

/// Byte offset at which the character of index `char_index` starts. An
/// index at or past the end of the text gives the text's length in bytes.
pub fn convert_to_byte_index(string: &str, char_index: usize) -> (byte_index: usize)
    ensures
        byte_index == byte_offset(string@, char_index as int),
{
    let total = byte_len(string);
    let mut result: usize = 0;
    let mut current: usize = 0;
    proof {
        lemma_byte_offset_end(string@, 0);
    }
    for c in it: string.chars()
        invariant
            it.seq() == string@,
            current == it.index(),
            current <= char_index,
            result == byte_offset(string@, current as int),
            total == encode_utf8(string@).len(),
    {
        if current == char_index {
            return result;
        }
        proof {
            lemma_byte_offset_step(string@, current as int);
            lemma_byte_offset_end(string@, current + 1);
            lemma_byte_offset_gap(string@, 0, current + 1);
        }
        result += c.len_utf8();
        current += 1;
    }
    proof {
        lemma_byte_offset_end(string@, current as int);
        lemma_byte_offset_end(string@, char_index as int);
    }
    result
}

/// The characters of `string` at the positions of `range`. Positions past
/// the end of the text are cut off, and a range whose end precedes its
/// start holds nothing.
pub fn substring_with_char_range(string: String, range: &Range<usize>) -> (substring: String)
    ensures
        substring@ == char_slice(string@, range.start as int, range.end as int),
        range.start <= range.end <= string@.len() ==> substring@ == string@.skip(
            range.start as int,
        ).take(range.end - range.start),
{
    let text = string.as_str();
    let total = byte_len(text);
    let mut substring = String::new();
    let mut current: usize = 0;
    for c in it: text.chars()
        invariant
            it.seq() == string@,
            current == it.index(),
            total == encode_utf8(string@).len(),
            substring@ == char_slice(
                string@,
                range.start as int,
                if range.end <= current {
                    range.end as int
                } else {
                    current as int
                },
            ),
    {
        if current >= range.start {
            if current >= range.end {
                return substring;
            }
            substring.push(c);
            assert(substring@ =~= string@.subrange(range.start as int, current + 1));
        }
        proof {
            lemma_byte_offset_gap(string@, 0, current + 1);
            lemma_byte_offset_end(string@, current + 1);
        }
        current += 1;
    }
    substring
}

/// The first `index` characters of `string`, or all of it if it has fewer.
pub fn prefix_until_char_index(string: String, index: usize) -> (prefix: String)
    ensures
        prefix@ == string@.take(clamp_index(string@, index as int)),
{
    substring_with_char_range(string, &(0..index))
}

/// What follows the first `index` characters of `string`; nothing if it
/// has no more than `index` characters.
pub fn suffix_from_char_index(string: String, index: usize) -> (suffix: String)
    ensures
        suffix@ == string@.skip(clamp_index(string@, index as int)),
{
    let length = byte_len(string.as_str());
    proof {
        lemma_byte_offset_gap(string@, 0, string@.len() as int);
        lemma_byte_offset_end(string@, 0);
        assert(char_slice(string@, index as int, length as int) =~= string@.skip(
            clamp_index(string@, index as int),
        ));
    }
    substring_with_char_range(string, &(index..length))
}

/// Trims `string`, removes its diacritics and turns it to lowercase, in
/// this order.
pub fn normalize(string: &str) -> (normal: String)
    ensures
        normal@ == normalized(string@),
{
    remove_diacritics(string.trim()).as_str().to_lowercase()
}

/// Removes accents and other diacritics: every character is replaced by
/// what `remove_combination_marks` leaves of it. A character of which
/// nothing is left, such as a combining mark that stands alone, is dropped.
pub fn remove_diacritics(string: &str) -> (bare: String)
    ensures
        bare@ == without_diacritics(string@),
{
    let mut bare = String::new();
    for c in it: string.chars()
        invariant
            it.seq() == string@,
            bare@ == without_diacritics(string@.take(it.index())),
    {
        proof {
            lemma_without_diacritics_push(string@.take(it.index()), c);
            assert(string@.take(it.index() + 1) =~= string@.take(it.index()).push(c));
        }
        match remove_combination_marks(c) {
            Some(base) => bare.push(base),
            None => {},
        }
    }
    assert(string@.take(string@.len() as int) =~= string@);
    bare
}

/// What is left of `character` without its diacritics: the canonical
/// decomposition, stripped of combining marks, composed again into one
/// character. `None` if nothing but marks was there, or if what is left
/// does not compose to a single character.
pub fn remove_combination_marks(character: char) -> (base: Option<char>)
    ensures
        base == stripped(character),
{
    let decomposition = decompose(character);
    let kept = without_combining_marks(&decomposition);
    recompose(&kept)
}

/// The characters of `decomposition` that are not combining marks, in
/// their order.
pub fn without_combining_marks(decomposition: &Vec<char>) -> (kept: Vec<char>)
    ensures
        kept@ == base_characters(decomposition@),
{
    let mut kept: Vec<char> = Vec::new();
    for i in 0..decomposition.len()
        invariant
            kept@ == base_characters(decomposition@.take(i as int)),
    {
        let c = decomposition[i];
        proof {
            lemma_base_characters_push(decomposition@.take(i as int), c);
            assert(decomposition@.take(i + 1) =~= decomposition@.take(i as int).push(c));
        }
        if !is_combining_mark(c) {
            kept.push(c);
        }
    }
    assert(decomposition@.take(decomposition@.len() as int) =~= decomposition@);
    kept
}

/// Composes `characters` canonically into one, from left to right: the
/// first is composed with the second, the result with the third, and so
/// on. `None` if there is no character, or if a step has no composition.
pub fn recompose(characters: &Vec<char>) -> (composed: Option<char>)
    ensures
        composed == recomposed(characters@),
{
    if characters.len() == 0 {
        return None;
    }
    let mut composed = Some(characters[0]);
    assert(characters@.drop_first().take(0) =~= Seq::<char>::empty());
    for i in 1..characters.len()
        invariant
            characters.len() > 0,
            composed == recomposed_from(characters@[0], characters@.drop_first().take(i - 1)),
    {
        let next = characters[i];
        proof {
            let rest = characters@.drop_first();
            lemma_recomposed_from_push(characters@[0], rest.take(i - 1), next);
            assert(rest.take(i as int) =~= rest.take(i - 1).push(next));
        }
        composed =
        match composed {
            Some(so_far) => compose(so_far, next),
            None => None,
        };
    }
    assert(characters@.drop_first().take(characters@.len() - 1) =~= characters@.drop_first());
    composed
}

/// Tells whether every character of `string` is lowercase.
fn is_lowercase(string: &str) -> (lower: bool)
    ensures
        lower == all_lowercase(string@),
{
    for c in it: string.chars()
        invariant
            it.seq() == string@,
            all_lowercase(string@.take(it.index())),
    {
        if !c.is_lowercase() {
            return false;
        }
    }
    assert(string@.take(string@.len() as int) =~= string@);
    true
}

/// Tells whether every character of `string` is uppercase.
fn is_uppercase(string: &str) -> (upper: bool)
    ensures
        upper == all_uppercase(string@),
{
    for c in it: string.chars()
        invariant
            it.seq() == string@,
            all_uppercase(string@.take(it.index())),
    {
        if !c.is_uppercase() {
            return false;
        }
    }
    assert(string@.take(string@.len() as int) =~= string@);
    true
}

/// Tells whether `string` is in title case: an uppercase character
/// followed by lowercase characters only.
pub fn is_title_case(string: &str) -> (title: bool)
    ensures
        title == title_case(string@),
{
    let mut first = true;
    for c in it: string.chars()
        invariant
            it.seq() == string@,
            first == (it.index() == 0),
            !first ==> title_case(string@.take(it.index())),
    {
        if first {
            if !c.is_uppercase() {
                return false;
            }
            first = false;
        } else if !c.is_lowercase() {
            return false;
        }
    }
    assert(string@.take(string@.len() as int) =~= string@);
    !first
}

/// The shape of `string`: `"xxx"` if all of its characters are lowercase
/// (as they are in the empty string), else `"XXX"` if all are uppercase,
/// else `"Xxx"` if it is in title case, else `"xX"`.
pub fn get_shape(string: &str) -> (shape: &'static str)
    ensures
        shape@ == shape_of(string@),
{
    if is_lowercase(string) {
        "xxx"
    } else if is_uppercase(string) {
        "XXX"
    } else if is_title_case(string) {
        "Xxx"
    } else {
        "xX"
    }
}

/// Hashes `input` to a 32-bit integer: the FNV-1a hash of its bytes, from
/// the state `FNV_DEFAULT_KEY`, cut down to its low 32 bits and read as a
/// signed integer. The result depends on the bytes of `input` alone.
pub fn hash_str_to_i32(input: &str) -> (hash: i32)
    ensures
        hash == hash_of_text(input@),
{
    let mut hasher = FnvHasher::with_key(FNV_DEFAULT_KEY);
    hasher.write(input.as_bytes());
    let full: u64 = hasher.finish();
    let low: u64 = full & 0xffff_ffff;
    assert(low == full % 0x1_0000_0000) by (bit_vector)
        requires
            low == full & 0xffff_ffff,
    ;
    if low < 0x8000_0000 {
        low as i32
    } else {
        (low as i64 - 0x1_0000_0000) as i32
    }
}

} // verus!
