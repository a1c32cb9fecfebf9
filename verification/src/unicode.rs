//! What this crate takes on trust about characters: the Unicode properties
//! and mappings that the standard library and `unicode_normalization`
//! compute from their tables. Each has a name here, and the contracts below
//! tie the functions that the crate calls to those names. Nothing in this
//! file is proved.

use vstd::prelude::*;
use vstd::utf8::encode_scalar;

verus! {

/// Whether `c` has the Unicode property `White_Space`.
pub uninterp spec fn is_white_space(c: char) -> bool;

/// Whether `c` has the Unicode property `Lowercase`.
pub uninterp spec fn is_lowercase_letter(c: char) -> bool;

/// Whether `c` has the Unicode property `Uppercase`.
pub uninterp spec fn is_uppercase_letter(c: char) -> bool;

/// The lowercase form of `text` under Unicode's locale-independent case
/// mapping. It is a mapping of the whole text, since the image of a
/// character can depend on its neighbours.
pub uninterp spec fn lowercase_of(text: Seq<char>) -> Seq<char>;

/// The full canonical decomposition of `c`.
pub uninterp spec fn canonical_decomposition(c: char) -> Seq<char>;

/// Whether `c` is a combining mark (general category `Mark`).
pub uninterp spec fn is_mark(c: char) -> bool;

/// The character that `a` followed by `b` composes to canonically, if
/// there is one.
pub uninterp spec fn canonical_composition(a: char, b: char) -> Option<char>;

/// Number of leading characters of `text` that are white space.
pub open spec fn leading_white_space(text: Seq<char>) -> nat
    decreases text.len(),
{
    if text.len() > 0 && is_white_space(text.first()) {
        1 + leading_white_space(text.drop_first())
    } else {
        0
    }
}

/// Number of trailing characters of `text` that are white space.
pub open spec fn trailing_white_space(text: Seq<char>) -> nat
    decreases text.len(),
{
    if text.len() > 0 && is_white_space(text.last()) {
        1 + trailing_white_space(text.drop_last())
    } else {
        0
    }
}

/// `text` without its leading and trailing white space.
pub open spec fn trimmed(text: Seq<char>) -> Seq<char> {
    let rest = text.skip(leading_white_space(text) as int);
    rest.take(rest.len() - trailing_white_space(rest))
}

/// `char::len_utf8` gives the number of bytes of the character's UTF-8
/// encoding.
pub assume_specification[ char::len_utf8 ](c: char) -> (width: usize)
    ensures
        width == encode_scalar(c as u32).len(),
;

/// `char::is_lowercase` tells whether the character has the property
/// `Lowercase`.
pub assume_specification[ char::is_lowercase ](c: char) -> (lower: bool)
    ensures
        lower == is_lowercase_letter(c),
;

/// `char::is_uppercase` tells whether the character has the property
/// `Uppercase`.
pub assume_specification[ char::is_uppercase ](c: char) -> (upper: bool)
    ensures
        upper == is_uppercase_letter(c),
;

/// `str::eq` tells whether two strings hold the same characters.
pub assume_specification[ <str as PartialEq>::eq ](a: &str, b: &str) -> (same: bool)
    ensures
        same == (a@ == b@),
;

/// `String::push` appends one character to the end of the string.
pub assume_specification[ String::push ](s: &mut String, c: char)
    ensures
        final(s)@ == old(s)@.push(c),
;

/// `str::trim` returns the part of the string that is left when the
/// characters with the property `White_Space` are taken from both ends, so
/// that what is left neither starts nor ends with one.
pub assume_specification[ str::trim ](s: &str) -> (middle: &str)
    ensures
        middle@ == trimmed(s@),
        middle@.len() > 0 ==> !is_white_space(middle@.first()) && !is_white_space(
            middle@.last(),
        ),
;

/// `str::to_lowercase` returns the lowercase form of the string.
pub assume_specification[ str::to_lowercase ](s: &str) -> (lower: String)
    ensures
        lower@ == lowercase_of(s@),
;

/// `unicode_normalization::char::is_combining_mark` tells whether the
/// character's general category is `Mark`.
pub assume_specification[ unicode_normalization::char::is_combining_mark ](c: char) -> (mark: bool)
    ensures
        mark == is_mark(c),
;

/// `unicode_normalization::char::compose` gives the canonical composition
/// of two characters, or `None` where they do not compose.
pub assume_specification[ unicode_normalization::char::compose ](a: char, b: char) -> (composed:
    Option<char>)
    ensures
        composed == canonical_composition(a, b),
;

/// `unicode_normalization::char::decompose_canonical` hands the characters
/// of the canonical decomposition to its callback, in order; they are
/// gathered here.
#[verifier::external_body]
pub(crate) fn decompose(c: char) -> (decomposition: Vec<char>)
    ensures
        decomposition@ == canonical_decomposition(c),
{
    let mut decomposition = Vec::new();
    unicode_normalization::char::decompose_canonical(c, |d| decomposition.push(d));
    decomposition
}

} // verus!
