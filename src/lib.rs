//! Decoding of the `info` lines that a chess engine prints while it searches.

pub mod analysis;
pub mod number;
pub mod text;
