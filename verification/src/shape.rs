//! The casing pattern of a text.

use vstd::prelude::*;
use crate::unicode::{is_lowercase_letter, is_uppercase_letter};

verus! {

/// Every character of `text` is lowercase. Holds of the empty text.
pub open spec fn all_lowercase(text: Seq<char>) -> bool {
    forall|i: int| 0 <= i < text.len() ==> is_lowercase_letter(#[trigger] text[i])
}

/// Every character of `text` is uppercase. Holds of the empty text.
pub open spec fn all_uppercase(text: Seq<char>) -> bool {
    forall|i: int| 0 <= i < text.len() ==> is_uppercase_letter(#[trigger] text[i])
}

/// `text` starts with an uppercase character and every character after
/// the first is lowercase. The empty text is not in title case.
pub open spec fn title_case(text: Seq<char>) -> bool {
    &&& text.len() > 0
    &&& is_uppercase_letter(text[0])
    &&& forall|i: int| 1 <= i < text.len() ==> is_lowercase_letter(#[trigger] text[i])
}

/// The tag of the casing pattern of `text`: the first of lowercase,
/// uppercase and title case that holds of it, and mixed if none does.
pub open spec fn shape_of(text: Seq<char>) -> Seq<char> {
    if all_lowercase(text) {
        "xxx"@
    } else if all_uppercase(text) {
        "XXX"@
    } else if title_case(text) {
        "Xxx"@
    } else {
        "xX"@
    }
}

} // verus!
