//! A solver for a Wordle-style deduction game played over a catalog of weapons.
//!
//! Every guess is answered with an eight-channel comparison between the hidden
//! weapon and the guessed one. The library models that feedback, encodes it
//! into a bucket index, ranks guesses by how finely they split the remaining
//! candidates, and drives the elimination loop. All of it is verified.

pub mod data;
pub mod openers;
pub mod prompt;
pub mod relations;
pub mod score;
pub mod solver;
pub mod text;
