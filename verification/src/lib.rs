//! Core of a single-player terminal word-guessing game.
//!
//! The library owns the parts of the game with real invariants: the
//! scoring of a five-letter guess against the five-letter solution
//! (including the budget rule for repeated letters), the 6x5 board state
//! machine that accepts letters, deletions and submissions, and the
//! extraction of the daily solution from the word source's payload.  The
//! network call itself and the terminal rendering live outside the
//! library.

pub mod board;
pub mod cell;
pub mod fetch;
pub mod score;

pub use board::Grid;
pub use board::Outcome;
pub use board::WordleGrid;
pub use cell::WordleBox;
pub use fetch::extract_solution;
pub use fetch::FetchError;
pub use score::check_word;
pub use score::Color;
pub use score::ScoreError;
