//! A chess engine core: a bitboard position with its move generator, a static
//! evaluator, and an iterative-deepening negamax search with a transposition
//! table, an opening book and a repetition tracker.

pub mod base;
pub mod bot;
pub mod helper;
