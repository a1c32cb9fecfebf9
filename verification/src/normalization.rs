//! What diacritic removal and normalization compute, stated over the
//! Unicode mappings named in `unicode`.

use vstd::prelude::*;
use crate::unicode::{
    canonical_composition, canonical_decomposition, is_mark, is_white_space,
    leading_white_space, lowercase_of, trailing_white_space, trimmed,
};

verus! {

/// The characters of `decomposition` that are not combining marks, in
/// their order.
pub open spec fn base_characters(decomposition: Seq<char>) -> Seq<char> {
    decomposition.filter(|c: char| !is_mark(c))
}

/// One step of recomposition: the composition of the character reached so
/// far with `next`. Once a composition has failed, every later step fails.
pub open spec fn compose_next(so_far: Option<char>, next: char) -> Option<char> {
    match so_far {
        Some(a) => canonical_composition(a, next),
        None => None,
    }
}

/// The character that `first` followed by `rest` composes to, from left to
/// right; `None` if some step has no composition.
pub open spec fn recomposed_from(first: char, rest: Seq<char>) -> Option<char> {
    rest.fold_left(Some(first), |so_far: Option<char>, next: char| compose_next(so_far, next))
}

/// The single character that `characters` compose to, from left to
/// right. There is none if `characters` is empty or a step has no
/// composition.
pub open spec fn recomposed(characters: Seq<char>) -> Option<char> {
    if characters.len() == 0 {
        None
    } else {
        recomposed_from(characters[0], characters.drop_first())
    }
}

/// What is left of `c` without its diacritics: its canonical decomposition
/// is stripped of combining marks and composed again. A character that
/// consists of marks only, or whose remaining parts do not compose to one
/// character, leaves nothing.
pub open spec fn stripped(c: char) -> Option<char> {
    recomposed(base_characters(canonical_decomposition(c)))
}

/// `text` without diacritics: each character is replaced by what is left
/// of it, and dropped where nothing is left.
pub open spec fn without_diacritics(text: Seq<char>) -> Seq<char> {
    text.filter_map(|c: char| stripped(c))
}

/// The normal form of `text`: trimmed, without diacritics, in lowercase.
pub open spec fn normalized(text: Seq<char>) -> Seq<char> {
    lowercase_of(without_diacritics(trimmed(text)))
}

/// `text` is in normal form as far as can be told from its characters: no
/// white space at either end, no character that the removal of diacritics
/// changes or drops, and lowercase.
pub open spec fn is_normal(text: Seq<char>) -> bool {
    &&& text.len() > 0 ==> !is_white_space(text.first()) && !is_white_space(text.last())
    &&& forall|i: int| 0 <= i < text.len() ==> stripped(#[trigger] text[i]) == Some(text[i])
    &&& lowercase_of(text) == text
}

/// Filtering one more character keeps it unless it is a mark.
pub proof fn lemma_base_characters_push(decomposition: Seq<char>, c: char)
    ensures
        base_characters(decomposition.push(c)) == if is_mark(c) {
            base_characters(decomposition)
        } else {
            base_characters(decomposition).push(c)
        },
{
    reveal(Seq::filter);
    assert(decomposition.push(c).drop_last() =~= decomposition);
}

/// Composing with one more character is one more step.
pub proof fn lemma_recomposed_from_push(first: char, rest: Seq<char>, next: char)
    ensures
        recomposed_from(first, rest.push(next)) == compose_next(
            recomposed_from(first, rest),
            next,
        ),
{
    assert(rest.push(next).drop_last() =~= rest);
}

/// Removing diacritics from a text with one more character appends what is
/// left of that character, if anything.
pub proof fn lemma_without_diacritics_push(text: Seq<char>, c: char)
    ensures
        without_diacritics(text.push(c)) == match stripped(c) {
            Some(base) => without_diacritics(text).push(base),
            None => without_diacritics(text),
        },
{
    assert(text.push(c).drop_last() =~= text);
    if let Some(base) = stripped(c) {
        assert(without_diacritics(text) + seq![base] =~= without_diacritics(text).push(base));
    }
}

/// A character whose canonical decomposition holds combining marks only
/// leaves nothing, and a text that consists of it is emptied.
pub proof fn lemma_marks_only_dropped(c: char)
    requires
        forall|i: int|
            0 <= i < canonical_decomposition(c).len() ==> is_mark(
                #[trigger] canonical_decomposition(c)[i],
            ),
    ensures
        stripped(c) is None,
        without_diacritics(seq![c]) == Seq::<char>::empty(),
{
    let decomposition = canonical_decomposition(c);
    let kept = base_characters(decomposition);
    if kept.len() > 0 {
        decomposition.lemma_filter_pred(|d: char| !is_mark(d), 0);
        decomposition.lemma_filter_contains_rev(|d: char| !is_mark(d), kept[0]);
    }
    lemma_without_diacritics_push(Seq::<char>::empty(), c);
    assert(Seq::<char>::empty().push(c) =~= seq![c]);
}

/// The white space counted at the front of a text is at its front, and
/// the character after it is none.
proof fn lemma_leading_white_space(text: Seq<char>)
    ensures
        leading_white_space(text) <= text.len(),
        forall|i: int| 0 <= i < leading_white_space(text) ==> is_white_space(#[trigger] text[i]),
        leading_white_space(text) < text.len() ==> !is_white_space(
            text[leading_white_space(text) as int],
        ),
    decreases text.len(),
{
    if text.len() > 0 && is_white_space(text.first()) {
        let rest = text.drop_first();
        lemma_leading_white_space(rest);
        assert forall|i: int| 0 <= i < leading_white_space(text) implies is_white_space(
            #[trigger] text[i],
        ) by {
            if i > 0 {
                assert(text[i] == rest[i - 1]);
            }
        }
    }
}

/// The white space counted at the back of a text is at its back, and the
/// character before it is none.
proof fn lemma_trailing_white_space(text: Seq<char>)
    ensures
        trailing_white_space(text) <= text.len(),
        forall|i: int|
            text.len() - trailing_white_space(text) <= i < text.len() ==> is_white_space(
                #[trigger] text[i],
            ),
        trailing_white_space(text) < text.len() ==> !is_white_space(
            text[text.len() - trailing_white_space(text) - 1],
        ),
    decreases text.len(),
{
    if text.len() > 0 && is_white_space(text.last()) {
        let rest = text.drop_last();
        lemma_trailing_white_space(rest);
        assert forall|i: int|
            text.len() - trailing_white_space(text) <= i < text.len() implies is_white_space(
            #[trigger] text[i],
        ) by {
            if i < text.len() - 1 {
                assert(text[i] == rest[i]);
            }
        }
    }
}

/// A trimmed text is a part of the text, bounded by characters that are
/// not white space unless it is empty, with white space only around it.
pub proof fn lemma_trimmed_bounds(text: Seq<char>)
    ensures
        trimmed(text).len() > 0 ==> !is_white_space(trimmed(text).first()) && !is_white_space(
            trimmed(text).last(),
        ),
        exists|from: int, to: int|
            {
                &&& 0 <= from <= to <= text.len()
                &&& #[trigger] text.subrange(from, to) == trimmed(text)
                &&& forall|i: int|
                    0 <= i < from || to <= i < text.len() ==> is_white_space(#[trigger] text[i])
            },
{
    let front = leading_white_space(text) as int;
    lemma_leading_white_space(text);
    let rest = text.skip(front);
    lemma_trailing_white_space(rest);
    let back = trailing_white_space(rest) as int;
    if rest.len() > 0 && back == rest.len() {
        assert(is_white_space(rest[0]));
    }
    let to = text.len() - back;
    assert(text.subrange(front, to) =~= trimmed(text));
    assert forall|i: int| 0 <= i < front || to <= i < text.len() implies is_white_space(
        #[trigger] text[i],
    ) by {
        if to <= i {
            assert(text[i] == rest[i - front]);
        }
    }
}

/// Trimming changes nothing in a text that neither starts nor ends with
/// white space.
pub proof fn lemma_trimmed_fixes_bare_ends(text: Seq<char>)
    requires
        text.len() > 0 ==> !is_white_space(text.first()) && !is_white_space(text.last()),
    ensures
        trimmed(text) == text,
{
    assert(text.skip(0) =~= text);
    assert(text.take(text.len() as int) =~= text);
}

/// Trimming a trimmed text changes nothing.
pub proof fn lemma_trimmed_idempotent(text: Seq<char>)
    ensures
        trimmed(trimmed(text)) == trimmed(text),
{
    lemma_trimmed_bounds(text);
    lemma_trimmed_fixes_bare_ends(trimmed(text));
}

/// The removal of diacritics changes nothing in a text whose every
/// character is left as it is.
pub proof fn lemma_without_diacritics_fixes_bare_text(text: Seq<char>)
    requires
        forall|i: int| 0 <= i < text.len() ==> stripped(#[trigger] text[i]) == Some(text[i]),
    ensures
        without_diacritics(text) == text,
    decreases text.len(),
{
    if text.len() > 0 {
        lemma_without_diacritics_fixes_bare_text(text.drop_last());
        lemma_without_diacritics_push(text.drop_last(), text.last());
        assert(text.drop_last().push(text.last()) =~= text);
    }
}

/// The removal of diacritics keeps one character for each character of
/// which something is left, and so never makes a text longer.
pub proof fn lemma_without_diacritics_len(text: Seq<char>)
    ensures
        without_diacritics(text).len() == text.filter(|c: char| stripped(c) is Some).len(),
        without_diacritics(text).len() <= text.len(),
    decreases text.len(),
{
    reveal(Seq::filter);
    if text.len() > 0 {
        lemma_without_diacritics_len(text.drop_last());
        lemma_without_diacritics_push(text.drop_last(), text.last());
        assert(text.drop_last().push(text.last()) =~= text);
    }
}

/// Normalization changes nothing in a text that is in normal form.
pub proof fn lemma_normalized_fixes_normal_text(text: Seq<char>)
    requires
        is_normal(text),
    ensures
        normalized(text) == text,
{
    lemma_trimmed_fixes_bare_ends(text);
    lemma_without_diacritics_fixes_bare_text(text);
}

/// Normalizing twice gives what normalizing once gives, wherever the first
/// result is in normal form. It need not be: a mark that is dropped can
/// lay bare white space that trimming had no reason to take.
pub proof fn lemma_normalized_twice(text: Seq<char>)
    requires
        is_normal(normalized(text)),
    ensures
        normalized(normalized(text)) == normalized(text),
{
    lemma_normalized_fixes_normal_text(normalized(text));
}

} // verus!
