//! The types of the position model.

use vstd::prelude::*;

verus! {

/// The 64-bit fingerprint of a position.
pub type BoardHash = u64;

/// A colour, or both of them where a question is asked of every piece.
#[derive(Debug, Clone, Copy, PartialEq, Eq, Structural)]
pub enum PieceColour {
    Black,
    White,
    Any,
}

/// The wing on which a king castles.
#[derive(Debug, Clone, Copy, PartialEq, Eq, Structural)]
pub enum CastleSide {
    King,
    Queen,
}

/// Whether the side to move can still play, and if not, why.
#[derive(Debug, Clone, Copy, PartialEq, Eq, Structural)]
pub enum GameState {
    Checkmate,
    Stalemate,
    Playable,
}

/// The six kinds of piece.
#[derive(Debug, Clone, Copy, PartialEq, Eq, Structural)]
pub enum PieceType {
    King,
    Queen,
    Rook,
    Bishop,
    Knight,
    Pawn,
}

/// A position. It is a plain value: a move is made on a copy.
///
/// Each piece plane is a 128-bit word; the low 64 bits hold the white pieces
/// of that kind and the high 64 bits the black ones. Within a half, square
/// `sq` (a1 = 0, b1 = 1, ..., h8 = 63) is stored at bit `63 - sq`.
///
/// `metadata`, from the least significant bit: white may castle queen-side,
/// white may castle king-side, black may castle queen-side, black may castle
/// king-side, three bits for the file of a pawn that has just made a double
/// step, one bit that says whether that file is meaningful, one bit that is
/// set when white is to move, seven bits for the half-move clock and sixteen
/// for the full-move number.
///
/// `latest_move` names the move that led here: the destination square in
/// bits 0 to 5, the source square in bits 6 to 11, the promoted piece in bits
/// 12 and 13 (0 queen, 1 rook, 2 bishop, 3 knight) and a flag in bit 14 that
/// says whether the move was a promotion. `eval` caches the static
/// evaluation. Neither takes part in the fingerprint.
#[derive(Debug, Clone, Copy, PartialEq, Eq, Structural)]
pub struct Board {
    pub rooks: u128,
    pub knights: u128,
    pub bishops: u128,
    pub queens: u128,
    pub kings: u128,
    pub pawns: u128,
    pub metadata: u32,
    pub latest_move: u32,
    pub eval: i32,
}

/// Successor positions, in the order in which they were produced.
#[derive(Debug, Clone)]
pub struct LegalMoveVec {
    pub data: Vec<Board>,
}

} // verus!
