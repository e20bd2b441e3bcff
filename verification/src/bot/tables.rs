//! Piece-square tables and piece values. Row 0 of a table is the own back
//! rank of the side that it is read for, column 0 is the a-file.

use crate::base::defs::Board;
use crate::base::defs::PieceType;
use vstd::prelude::*;

verus! {

/// Pawns: advance, and hold the centre.
pub const PAWN_TABLE: [[i32; 8]; 8] = [
    [0, 0, 0, 0, 0, 0, 0, 0],
    [5, 10, 10, -20, -20, 10, 10, 5],
    [5, -5, -10, 0, 0, -10, -5, 5],
    [0, 0, 0, 20, 20, 0, 0, 0],
    [5, 5, 10, 25, 25, 10, 5, 5],
    [10, 10, 20, 30, 30, 20, 10, 10],
    [50, 50, 50, 50, 50, 50, 50, 50],
    [0, 0, 0, 0, 0, 0, 0, 0],
];

/// Knights: stay off the rim.
pub const KNIGHT_TABLE: [[i32; 8]; 8] = [
    [-50, -40, -30, -30, -30, -30, -40, -50],
    [-40, -20, 0, 5, 5, 0, -20, -40],
    [-30, 5, 10, 15, 15, 10, 5, -30],
    [-30, 0, 15, 20, 20, 15, 0, -30],
    [-30, 5, 15, 20, 20, 15, 5, -30],
    [-30, 0, 10, 15, 15, 10, 0, -30],
    [-40, -20, 0, 0, 0, 0, -20, -40],
    [-50, -40, -30, -30, -30, -30, -40, -50],
];

/// Bishops: prefer the long diagonals.
pub const BISHOP_TABLE: [[i32; 8]; 8] = [
    [-20, -10, -10, -10, -10, -10, -10, -20],
    [-10, 5, 0, 0, 0, 0, 5, -10],
    [-10, 10, 10, 10, 10, 10, 10, -10],
    [-10, 0, 10, 10, 10, 10, 0, -10],
    [-10, 5, 5, 10, 10, 5, 5, -10],
    [-10, 0, 5, 10, 10, 5, 0, -10],
    [-10, 0, 0, 0, 0, 0, 0, -10],
    [-20, -10, -10, -10, -10, -10, -10, -20],
];

/// Rooks: the seventh rank and the centre files.
pub const ROOK_TABLE: [[i32; 8]; 8] = [
    [0, 0, 0, 5, 5, 0, 0, 0],
    [-5, 0, 0, 0, 0, 0, 0, -5],
    [-5, 0, 0, 0, 0, 0, 0, -5],
    [-5, 0, 0, 0, 0, 0, 0, -5],
    [-5, 0, 0, 0, 0, 0, 0, -5],
    [-5, 0, 0, 0, 0, 0, 0, -5],
    [5, 10, 10, 10, 10, 10, 10, 5],
    [0, 0, 0, 0, 0, 0, 0, 0],
];

/// Queens: stay near the centre.
pub const QUEEN_TABLE: [[i32; 8]; 8] = [
    [-20, -10, -10, -5, -5, -10, -10, -20],
    [-10, 0, 5, 0, 0, 0, 0, -10],
    [-10, 5, 5, 5, 5, 5, 0, -10],
    [0, 0, 5, 5, 5, 5, 0, -5],
    [-5, 0, 5, 5, 5, 5, 0, -5],
    [-10, 0, 5, 5, 5, 5, 0, -10],
    [-10, 0, 0, 0, 0, 0, 0, -10],
    [-20, -10, -10, -5, -5, -10, -10, -20],
];

/// Kings while heavy pieces are on the board: stay behind the pawns.
pub const KING_TABLE_START: [[i32; 8]; 8] = [
    [20, 30, 10, 0, 0, 10, 30, 20],
    [20, 20, 0, 0, 0, 0, 20, 20],
    [-10, -20, -20, -20, -20, -20, -20, -10],
    [-20, -30, -30, -40, -40, -30, -30, -20],
    [-30, -40, -40, -50, -50, -40, -40, -30],
    [-30, -40, -40, -50, -50, -40, -40, -30],
    [-30, -40, -40, -50, -50, -40, -40, -30],
    [-30, -40, -40, -50, -50, -40, -40, -30],
];

/// Kings in the endgame: come to the centre.
pub const KING_TABLE_END: [[i32; 8]; 8] = [
    [-25, -23, -20, -20, -20, -20, -23, -25],
    [-23, -15, -5, -5, -5, -5, -15, -23],
    [-20, -5, 15, 20, 20, 15, -5, -20],
    [-20, -5, 20, 25, 25, 20, -5, -20],
    [-20, -5, 20, 25, 25, 20, -5, -20],
    [-20, -5, 15, 20, 20, 15, -5, -20],
    [-23, -15, -5, -5, -5, -5, -15, -23],
    [-25, -23, -20, -20, -20, -20, -23, -25],
];

/// What a piece of the given kind is worth, in hundredths of a pawn.
pub open spec fn piece_value(kind: PieceType) -> int {
    match kind {
        PieceType::Pawn => 100,
        PieceType::Knight => 320,
        PieceType::Bishop => 330,
        PieceType::Rook => 500,
        PieceType::Queen => 900,
        PieceType::King => 0,
    }
}

/// The table that a kind of piece is scored by; the king has one for the
/// endgame and one for the rest of the game.
pub open spec fn table_of(kind: PieceType, is_end_game: bool) -> [[i32; 8]; 8] {
    match kind {
        PieceType::Pawn => PAWN_TABLE,
        PieceType::Knight => KNIGHT_TABLE,
        PieceType::Bishop => BISHOP_TABLE,
        PieceType::Rook => ROOK_TABLE,
        PieceType::Queen => QUEEN_TABLE,
        PieceType::King => if is_end_game {
            KING_TABLE_END
        } else {
            KING_TABLE_START
        },
    }
}

/// The bonus for a piece of the given kind on row `row` and column `col`.
pub open spec fn table_value(kind: PieceType, is_end_game: bool, row: int, col: int) -> int {
    table_of(kind, is_end_game)[row][col] as int
}

/// What a piece of the given kind is worth, in hundredths of a pawn.
pub fn piece_worth(kind: PieceType) -> (v: i32)
    ensures
        v == piece_value(kind),
        0 <= v <= 900,
{
    match kind {
        PieceType::Pawn => 100,
        PieceType::Knight => 320,
        PieceType::Bishop => 330,
        PieceType::Rook => 500,
        PieceType::Queen => 900,
        PieceType::King => 0,
    }
}

/// The bonus for a piece of the given kind on row `row` and column `col`.
pub fn table_entry(kind: PieceType, is_end_game: bool, row: usize, col: usize) -> (v: i32)
    requires
        row < 8,
        col < 8,
    ensures
        v == table_value(kind, is_end_game, row as int, col as int),
        -50 <= v <= 50,
{
    match kind {
        PieceType::Pawn => PAWN_TABLE[row][col],
        PieceType::Knight => KNIGHT_TABLE[row][col],
        PieceType::Bishop => BISHOP_TABLE[row][col],
        PieceType::Rook => ROOK_TABLE[row][col],
        PieceType::Queen => QUEEN_TABLE[row][col],
        PieceType::King => if is_end_game {
            KING_TABLE_END[row][col]
        } else {
            KING_TABLE_START[row][col]
        },
    }
}

impl Board {
    /// The table that a kind of piece is scored by.
    pub fn get_piece_table(&self, piece_type: PieceType, is_end_game: bool) -> (t: [[i32; 8]; 8])
        ensures
            t == table_of(piece_type, is_end_game),
    {
        match piece_type {
            PieceType::Pawn => PAWN_TABLE,
            PieceType::Knight => KNIGHT_TABLE,
            PieceType::Bishop => BISHOP_TABLE,
            PieceType::Rook => ROOK_TABLE,
            PieceType::Queen => QUEEN_TABLE,
            PieceType::King => {
                if !is_end_game {
                    KING_TABLE_START
                } else {
                    KING_TABLE_END
                }
            },
        }
    }
}

} // verus!
