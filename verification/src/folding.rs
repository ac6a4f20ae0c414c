//! Case folding that keeps every character in its place.

use vstd::prelude::*;

verus! {

/// The lowercase mapping that the standard library gives to `c`: the
/// characters that `char::to_lowercase` yields, in order.
pub uninterp spec fn lowercase_mapping(c: char) -> Seq<char>;

/// Calls `char::to_lowercase` and collects what it yields. The contract only
/// gives that sequence its name; nothing is claimed about which characters
/// it holds or how many.
#[verifier::external_body]
fn lowercase_chars(c: char) -> (mapping: Vec<char>)
    ensures
        mapping@ == lowercase_mapping(c),
{
    c.to_lowercase().collect()
}

/// The folded form of one character: its lowercase mapping where that is a
/// single character, and the character itself where the mapping would change
/// the length of the text.
pub open spec fn fold_char(c: char) -> char {
    let mapping = lowercase_mapping(c);
    if mapping.len() == 1 {
        mapping[0]
    } else {
        c
    }
}

/// The folded form of a text: every character folded in place, so that
/// position `i` of the result stands for position `i` of `text`.
pub open spec fn fold(text: Seq<char>) -> Seq<char> {
    Seq::new(text.len(), |i: int| fold_char(text[i]))
}

/// Folding a piece of a text gives that piece of the folded text.
pub proof fn lemma_fold_subrange(text: Seq<char>, from: int, to: int)
    requires
        0 <= from <= to <= text.len(),
    ensures
        fold(text.subrange(from, to)) == fold(text).subrange(from, to),
{
    assert(fold(text.subrange(from, to)) =~= fold(text).subrange(from, to));
}

/// Folds one character.
pub fn fold_one(c: char) -> (folded: char)
    ensures
        folded == fold_char(c),
{
    let mapping = lowercase_chars(c);
    if mapping.len() == 1 {
        mapping[0]
    } else {
        c
    }
}

/// Folds a text, character by character.
pub fn fold_all(chars: &[char]) -> (folded: Vec<char>)
    ensures
        folded@ == fold(chars@),
{
    let mut folded: Vec<char> = Vec::new();
    let mut i: usize = 0;
    while i < chars.len()
        invariant
            i <= chars.len(),
            folded@ == fold(chars@.take(i as int)),
        decreases chars.len() - i,
    {
        folded.push(fold_one(chars[i]));
        i += 1;
    }
    assert(chars@.take(i as int) =~= chars@);
    folded
}

} // verus!
