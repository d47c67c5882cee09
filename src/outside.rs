use vstd::prelude::*;
use ansi_term::Colour;
use rand::seq::SliceRandom;
use crate::scoring::Occurrence;

verus! {

/// What `str::trim` leaves of a text.
pub uninterp spec fn trimmed(s: Seq<char>) -> Seq<char>;

/// What `str::to_lowercase` makes of a text.
pub uninterp spec fn lower_of(s: Seq<char>) -> Seq<char>;

/// Relies on `str::trim`: the text without its leading and trailing white space.
#[verifier::external_body]
pub(crate) fn trim(s: &str) -> (r: &str)
    ensures
        r@ == trimmed(s@),
{
    s.trim()
}

/// Relies on `str::to_lowercase`: the lowercase form of the text.
#[verifier::external_body]
pub(crate) fn to_lowercase(s: &str) -> (r: String)
    ensures
        r@ == lower_of(s@),
{
    s.to_lowercase()
}

/// Relies on rand's `SliceRandom::choose` for slices, with the thread-local
/// generator: `None` for an empty slice, otherwise one of its elements.
#[verifier::external_body]
pub(crate) fn choose_word(words: &Vec<String>) -> (r: Option<String>)
    ensures
        r is None <==> words@.len() == 0,
        r matches Some(w) ==> exists|i: int| 0 <= i < words@.len() && #[trigger] words@[i]@ == w@,
{
    words.choose(&mut rand::thread_rng()).cloned()
}

/// The escape sequence that colours a letter: the foreground code `3d`
/// (`d` a digit), the letter, then the reset code.
pub open spec fn painted(digit: char, letter: char) -> Seq<char> {
    seq!['\u{1b}', '[', '3', digit, 'm', letter, '\u{1b}', '[', '0', 'm']
}

/// The colour digit of a classification: red for wrong, yellow for present,
/// green for correct.
pub open spec fn colour_digit(o: Occurrence) -> char {
    match o {
        Occurrence::Wrong => '1',
        Occurrence::Present => '3',
        Occurrence::Correct => '2',
    }
}

/// Relies on ansi_term's `Colour::paint` and the `Display` of its result: a
/// plain foreground style writes `ESC [ 3d m`, the text, then `ESC [ 0 m`.
#[verifier::external_body]
pub(crate) fn paint(letter: char, occurrence: Occurrence) -> (r: String)
    ensures
        r@ == painted(colour_digit(occurrence), letter),
{
    let colour = match occurrence {
        Occurrence::Wrong => Colour::Red,
        Occurrence::Present => Colour::Yellow,
        Occurrence::Correct => Colour::Green,
    };
    colour.paint(letter.to_string()).to_string()
}

} // verus!
