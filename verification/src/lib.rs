//! Move selection for a two-player sowing game: a game state is flattened into
//! a fixed-length input, scored by an evolved policy, and the best-scoring
//! legal move is picked.

pub mod board;
pub mod encoder;
pub mod score;
pub mod selector;
pub mod training_agent;
