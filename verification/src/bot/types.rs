//! The plain types of the search.

use vstd::prelude::*;

verus! {

/// The largest number of entries of a transposition table.
pub const TT_TABLE_SIZE: usize = 1_001_000;

/// What a search has cost.
#[derive(Debug, Clone, Copy, PartialEq, Eq, Structural)]
pub struct Statistics {
    pub nodes_explored: u64,
    pub time_taken_ms: u128,
}

/// What makes a move stand out.
#[derive(Debug, Clone, Copy, PartialEq, Eq, Hash, Structural)]
pub enum SpecialMove {
    Check,
    Capture,
    Attack,
    Promotion,
    EnPassant,
}

/// How the value of a table entry bounds the true value of its position.
#[derive(Debug, Clone, Copy, PartialEq, Eq, Structural)]
pub enum BoundType {
    Exact,
    LowerBound,
    UpperBound,
}

/// What the search has found out about a position at some depth: a value,
/// what that value bounds, and the tag of the best move where one is known.
#[derive(Debug, Clone, Copy, PartialEq, Eq, Structural)]
pub struct TTEntry {
    pub value: i32,
    pub depth: u8,
    pub flag: BoundType,
    pub best_move: Option<u32>,
}

/// A move of the opening book, in the notation of the interface, with the
/// number of games in which it was played.
#[derive(Debug, Clone)]
pub struct OpeningEntry(pub String, pub u32);

} // verus!
