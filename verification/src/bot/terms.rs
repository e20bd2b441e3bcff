//! The terms of the evaluation that look at the pawns and at the kings,
//! each by itself.

use crate::base::bits::holds;
use crate::base::bits::on;
use crate::bot::tables::table_entry;
use crate::base::defs::Board;
use crate::base::defs::PieceType;
use crate::bot::evaluate::sum_upto;
use crate::bot::tables::piece_value;
use crate::bot::tables::table_value;
use crate::base::attacks::file_of;
use vstd::prelude::*;

verus! {

/// The sum of a sum of three functions is the sum of their sums.
pub proof fn lemma_sum_of_three(
    f: spec_fn(int) -> int,
    a: spec_fn(int) -> int,
    b: spec_fn(int) -> int,
    c: spec_fn(int) -> int,
    n: nat,
)
    requires
        forall|sq: int| 0 <= sq < n ==> #[trigger] f(sq) == a(sq) + b(sq) + c(sq),
    ensures
        sum_upto(f, n) == sum_upto(a, n) + sum_upto(b, n) + sum_upto(c, n),
    decreases n,
{
    if n > 0 {
        lemma_sum_of_three(f, a, b, c, (n - 1) as nat);
    }
}

impl Board {
    /// The worth of a piece of the given kind and colour on `sq` with the
    /// bonus for its square, and nought where none stands there.
    pub open spec fn plain_part(&self, kind: PieceType, black: bool, end: bool, sq: int) -> int {
        if self.stands(kind, black, sq) {
            piece_value(kind) + table_value(kind, end, Self::advance(black, sq), file_of(sq))
        } else {
            0int
        }
    }

    /// The worth of the pieces of the given colour on `sq` with the bonus
    /// for their squares.
    pub open spec fn plain_side(&self, black: bool, end: bool, sq: int) -> int {
        self.plain_part(PieceType::King, black, end, sq) + self.plain_part(
            PieceType::Queen,
            black,
            end,
            sq,
        ) + self.plain_part(PieceType::Rook, black, end, sq) + self.plain_part(
            PieceType::Bishop,
            black,
            end,
            sq,
        ) + self.plain_part(PieceType::Knight, black, end, sq) + self.plain_part(
            PieceType::Pawn,
            black,
            end,
            sq,
        )
    }

    /// Material and square bonus of what stands on a square, counted for
    /// white and against black.
    pub open spec fn plain_cell(&self, end: bool) -> spec_fn(int) -> int {
        |sq: int| self.plain_side(false, end, sq) - self.plain_side(true, end, sq)
    }

    /// Material and placement are the sum of three terms: the worth of the
    /// pieces with the bonus for their squares, what the pawns earn by
    /// standing beside each other, and what they earn by being passed.
    pub proof fn lemma_placement_terms(&self, end: bool)
        ensures
            self.placement(end) == sum_upto(self.plain_cell(end), 64) + sum_upto(
                self.connected_cell(),
                64,
            ) + sum_upto(self.passed_cell(), 64),
    {
        let f = self.cell(end);
        let a = self.plain_cell(end);
        let b = self.connected_cell();
        let c = self.passed_cell();
        assert forall|sq: int| 0 <= sq < 64 implies #[trigger] f(sq) == a(sq) + b(sq) + c(sq) by {
            assert(self.piece_part(PieceType::King, false, end, sq) == self.plain_part(
                PieceType::King,
                false,
                end,
                sq,
            ));
            assert(self.piece_part(PieceType::King, true, end, sq) == self.plain_part(
                PieceType::King,
                true,
                end,
                sq,
            ));
            assert(self.piece_part(PieceType::Pawn, false, end, sq) == self.plain_part(
                PieceType::Pawn,
                false,
                end,
                sq,
            ) + (if self.stands(PieceType::Pawn, false, sq) {
                self.pawn_bonus(false, sq)
            } else {
                0int
            }));
            assert(self.piece_part(PieceType::Pawn, true, end, sq) == self.plain_part(
                PieceType::Pawn,
                true,
                end,
                sq,
            ) + (if self.stands(PieceType::Pawn, true, sq) {
                self.pawn_bonus(true, sq)
            } else {
                0int
            }));
        }
        lemma_sum_of_three(f, a, b, c, 64);
    }

    /// What the pawns on `sq` earn by having pawns of their own beside them:
    /// five for a white one, five against for a black one.
    pub open spec fn connected_cell(&self) -> spec_fn(int) -> int {
        |sq: int|
            (if self.stands(PieceType::Pawn, false, sq) && self.connected(false, sq) {
                5int
            } else {
                0int
            }) - (if self.stands(PieceType::Pawn, true, sq) && self.connected(true, sq) {
                5int
            } else {
                0int
            })
    }

    /// What the pawns on `sq` earn by being passed: five and five more for
    /// each rank behind it for a white one, the same against for a black
    /// one.
    pub open spec fn passed_cell(&self) -> spec_fn(int) -> int {
        |sq: int|
            (if self.stands(PieceType::Pawn, false, sq) && self.passed(false, sq) {
                5 + 5 * Self::advance(false, sq)
            } else {
                0int
            }) - (if self.stands(PieceType::Pawn, true, sq) && self.passed(true, sq) {
                5 + 5 * Self::advance(true, sq)
            } else {
                0int
            })
    }
}

/// What the pawns earn by standing beside pawns of their own, counted for
/// white and against black.
pub fn evaluate_connected_pawns(board: &Board) -> (r: i32)
    ensures
        r == sum_upto(board.connected_cell(), 64),
{
    let white = board.piece_map(PieceType::Pawn, false);
    let black = board.piece_map(PieceType::Pawn, true);
    let mut score: i32 = 0;
    let mut sq: u8 = 0;
    while sq < 64
        invariant
            sq <= 64,
            white == board.pieces(PieceType::Pawn, false),
            black == board.pieces(PieceType::Pawn, true),
            -5 * sq <= score <= 5 * sq,
            score == sum_upto(board.connected_cell(), sq as nat),
        decreases 64 - sq,
    {
        if holds(white, sq) && board.is_connected(false, sq) {
            score = score + 5;
        }
        if holds(black, sq) && board.is_connected(true, sq) {
            score = score - 5;
        }
        sq = sq + 1;
    }
    score
}

/// What the pawns earn by being passed, counted for white and against
/// black.
pub fn evaluate_passed_pawns(board: &Board) -> (r: i32)
    ensures
        r == sum_upto(board.passed_cell(), 64),
{
    let white = board.piece_map(PieceType::Pawn, false);
    let black = board.piece_map(PieceType::Pawn, true);
    let mut score: i32 = 0;
    let mut sq: u8 = 0;
    while sq < 64
        invariant
            sq <= 64,
            white == board.pieces(PieceType::Pawn, false),
            black == board.pieces(PieceType::Pawn, true),
            -40 * sq <= score <= 40 * sq,
            score == sum_upto(board.passed_cell(), sq as nat),
        decreases 64 - sq,
    {
        let rank = (sq / 8) as i32;
        if holds(white, sq) && board.is_passed(false, sq) {
            score = score + 5 + 5 * rank;
        }
        if holds(black, sq) && board.is_passed(true, sq) {
            score = score - 5 - 5 * (7 - rank);
        }
        sq = sq + 1;
    }
    score
}

/// What the nearness of the kings is worth to the side that is ahead in
/// material, where the game has come to the endgame.
pub fn evaluate_king_proximity(board: &Board) -> (r: i32)
    ensures
        r == board.king_proximity(),
{
    let is_end_game = board.is_endgame();
    board.proximity_score(is_end_game)
}

impl Board {
    /// The bonus that a piece of the given kind and colour earns on `sq`
    /// where `sq` is one of the squares of `piece_map`, counted for white and
    /// against black, and nought where it is not.
    pub open spec fn positional_cell(
        piece_type: PieceType,
        piece_map: u64,
        black: bool,
        is_end_game: bool,
    ) -> spec_fn(int) -> int {
        |sq: int|
            if on(piece_map, sq) {
                if black {
                    -table_value(piece_type, is_end_game, Self::advance(true, sq), file_of(sq))
                } else {
                    table_value(piece_type, is_end_game, Self::advance(false, sq), file_of(sq))
                }
            } else {
                0int
            }
    }

    /// The bonuses that pieces of the given kind earn on the squares of
    /// `piece_map`, counted for white where `is_black` is 0 and against
    /// black where it is not.
    pub fn get_positional_scores(
        &self,
        piece_type: PieceType,
        piece_map: u64,
        is_black: u8,
        is_end_game: bool,
    ) -> (r: i32)
        ensures
            r == sum_upto(
                Self::positional_cell(piece_type, piece_map, is_black != 0, is_end_game),
                64,
            ),
    {
        let black = is_black != 0;
        let mut score: i32 = 0;
        let mut sq: u8 = 0;
        while sq < 64
            invariant
                sq <= 64,
                black == (is_black != 0),
                -50 * sq <= score <= 50 * sq,
                score == sum_upto(
                    Self::positional_cell(piece_type, piece_map, black, is_end_game),
                    sq as nat,
                ),
            decreases 64 - sq,
        {
            if holds(piece_map, sq) {
                let rank = sq / 8;
                let row = if black {
                    7 - rank
                } else {
                    rank
                };
                let bonus = table_entry(piece_type, is_end_game, row as usize, (sq % 8) as usize);
                if black {
                    score = score - bonus;
                } else {
                    score = score + bonus;
                }
            }
            sq = sq + 1;
        }
        score
    }
}

} // verus!
