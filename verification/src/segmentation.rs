//! Text services computed outside the library: Unicode segmentation (the
//! `unicode-segmentation` crate), Unicode lowercase mapping and building
//! strings from characters (the standard library).
use unicode_segmentation::UnicodeSegmentation;
use vstd::prelude::*;

verus! {

/// The byte offsets at which the extended grapheme clusters of `text` start,
/// in order (what `UnicodeSegmentation::grapheme_indices(text, true)` yields).
pub uninterp spec fn grapheme_starts(text: Seq<char>) -> Seq<usize>;

/// The words of `text` with the byte offset of each, in order (what
/// `UnicodeSegmentation::unicode_word_indices` yields).
pub uninterp spec fn unicode_words(text: Seq<char>) -> Seq<(usize, Seq<char>)>;

/// The pieces of `text` between word boundaries with the byte offset of each,
/// in order (what `UnicodeSegmentation::split_word_bound_indices` yields).
pub uninterp spec fn word_bound_pieces(text: Seq<char>) -> Seq<(usize, Seq<char>)>;

/// Calls `UnicodeSegmentation::grapheme_indices(text, true)` and keeps the offsets.
/// The contract only names the result: the segmentation rules of Unicode Standard
/// Annex 29 are not restated here.
#[verifier::external_body]
pub(crate) fn grapheme_indices(text: &str) -> (starts: Vec<usize>)
    ensures
        starts@ == grapheme_starts(text@),
{
    text.grapheme_indices(true).map(|(index, _)| index).collect()
}

/// Calls `UnicodeSegmentation::unicode_word_indices` and copies each word.
/// The contract only names the result; the word rules are not restated here.
#[verifier::external_body]
pub(crate) fn word_indices(text: &str) -> (words: Vec<(usize, String)>)
    ensures
        words@.len() == unicode_words(text@).len(),
        forall|i: int|
            0 <= i < words@.len() ==> {
                &&& (#[trigger] words@[i]).0 == unicode_words(text@)[i].0
                &&& words@[i].1@ == unicode_words(text@)[i].1
            },
{
    text.unicode_word_indices().map(|(start, word)| (start, word.to_string())).collect()
}

/// The texts of `pieces` joined in order.
pub open spec fn joined_pieces(pieces: Seq<(usize, String)>) -> Seq<char>
    decreases pieces.len(),
{
    if pieces.len() == 0 {
        Seq::empty()
    } else {
        joined_pieces(pieces.drop_last()) + pieces.last().1@
    }
}

/// Calls `UnicodeSegmentation::split_word_bound_indices` and copies each piece.
/// The contract names the result and states what the crate documents: the
/// pieces join back into the text. The boundary rules are not restated here.
#[verifier::external_body]
pub(crate) fn word_bound_indices(text: &str) -> (pieces: Vec<(usize, String)>)
    ensures
        joined_pieces(pieces@) == text@,
        pieces@.len() == word_bound_pieces(text@).len(),
        forall|i: int|
            0 <= i < pieces@.len() ==> {
                &&& (#[trigger] pieces@[i]).0 == word_bound_pieces(text@)[i].0
                &&& pieces@[i].1@ == word_bound_pieces(text@)[i].1
            },
{
    text.split_word_bound_indices().map(|(start, piece)| (start, piece.to_string())).collect()
}

/// Collects characters into a `String` (`FromIterator<char>` for `String`).
#[verifier::external_body]
pub(crate) fn string_from_chars(chars: &[char]) -> (s: String)
    ensures
        s@ == chars@,
{
    chars.iter().collect()
}


/// The Unicode lowercase mapping of `text` (what `str::to_lowercase` returns).
pub uninterp spec fn lowercase(text: Seq<char>) -> Seq<char>;

/// Calls `str::to_lowercase`. The contract only names the result: the Unicode
/// case mapping tables are not restated here.
#[verifier::external_body]
pub(crate) fn to_lowercase(text: &str) -> (lower: String)
    ensures
        lower@ == lowercase(text@),
{
    text.to_lowercase()
}

} // verus!
