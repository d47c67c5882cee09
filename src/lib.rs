pub mod error;
pub mod game;
pub mod outside;
pub mod scoring;

pub use error::WordleError;
pub use game::{WordList, Wordle, WordleSettings};
pub use scoring::{score, Guess, Occurrence};
