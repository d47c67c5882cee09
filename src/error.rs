use vstd::prelude::*;

verus! {

/// Why a guess or the setup of a game was refused.
#[derive(Debug)]
pub enum WordleError {
    /// The game is over: the secret was found or every guess was used.
    NoGuessesLeft { word: String },
    /// A guess does not have the configured number of letters.
    WrongLength { expected: usize },
    /// A guess is not in the word list.
    NotAWord { word: String },
    /// A game cannot start from an empty word list.
    EmptyWordList,
    /// The secret word does not have the configured number of letters.
    SecretLength { expected: usize, word: String },
}

} // verus!
