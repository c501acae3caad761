//! Depth-limited adversarial search over an abstract two-player game: an
//! exhaustive minimax baseline and an ABDADA-style alpha-beta search whose
//! workers share a transposition cache and a set of moves in flight.

pub mod score;
pub mod state;
pub mod evaluators;
pub mod engine;
