//! The static evaluator: a score for a position in hundredths of a pawn,
//! positive where white stands better.

use crate::base::attacks::beside;
use crate::base::attacks::beside_squares;
use crate::base::attacks::file_of;
use crate::base::attacks::rank_of;
use crate::base::bits::holds;
use crate::base::bits::lemma_nonzero_has_square;
use crate::base::bits::lemma_on_algebra;
use crate::base::bits::on;
use crate::base::defs::Board;
use crate::base::defs::PieceType;
use crate::bot::tables::piece_value;
use crate::bot::tables::piece_worth;
use crate::bot::tables::table_entry;
use crate::bot::tables::table_value;
use vstd::prelude::*;

verus! {

/// The score of a position in which the side to move has been mated.
pub const MATE_SCORE: i32 = 1_000_000;

/// Non-pawn material, both sides together, below which the game counts as an
/// endgame.
pub const ENDGAME_MATERIAL: i32 = 1600;

/// The half-move clock at which the game is drawn.
pub const DRAW_CLOCK: u32 = 100;

/// The sum of `f` over the squares below `n`.
pub open spec fn sum_upto(f: spec_fn(int) -> int, n: nat) -> int
    decreases n,
{
    if n == 0 {
        0
    } else {
        sum_upto(f, (n - 1) as nat) + f(n - 1)
    }
}

/// The lowest square of `w` that is not below `k`, or 64 where there is
/// none.
pub open spec fn lowest_from(w: u64, k: nat) -> int
    decreases 64 - k,
{
    if k >= 64 {
        64
    } else if on(w, k as int) {
        k as int
    } else {
        lowest_from(w, k + 1)
    }
}

/// The number of steps of a king between two squares when it may not move
/// diagonally.
pub open spec fn manhattan(a: int, b: int) -> int {
    let dx = file_of(a) - file_of(b);
    let dy = rank_of(a) - rank_of(b);
    (if dx < 0 {
        -dx
    } else {
        dx
    }) + (if dy < 0 {
        -dy
    } else {
        dy
    })
}

/// The lowest square of `w`, or 64 where it is empty.
pub fn lowest_square(w: u64) -> (r: u8)
    ensures
        r as int == lowest_from(w, 0),
        r <= 64,
        r < 64 ==> on(w, r as int),
{
    let mut k: u8 = 0;
    while k < 64
        invariant
            k <= 64,
            lowest_from(w, 0) == lowest_from(w, k as nat),
        decreases 64 - k,
    {
        if holds(w, k) {
            return k;
        }
        k = k + 1;
    }
    64
}

impl Board {
    /// One for a square on which a piece of the given kind and colour
    /// stands, nought for any other.
    pub open spec fn indicator(&self, kind: PieceType, black: bool) -> spec_fn(int) -> int {
        |sq: int|
            if self.stands(kind, black, sq) {
                1int
            } else {
                0int
            }
    }

    /// The number of pieces of the given kind and colour.
    pub open spec fn count(&self, kind: PieceType, black: bool) -> int {
        sum_upto(self.indicator(kind, black), 64)
    }

    /// The number of pieces of the given colour.
    pub open spec fn side_count(&self, black: bool) -> int {
        self.count(PieceType::King, black) + self.count(PieceType::Queen, black) + self.count(
            PieceType::Rook,
            black,
        ) + self.count(PieceType::Bishop, black) + self.count(PieceType::Knight, black)
            + self.count(PieceType::Pawn, black)
    }

    /// The worth of the pieces of the given colour without its pawns.
    pub open spec fn heavy_material(&self, black: bool) -> int {
        900 * self.count(PieceType::Queen, black) + 500 * self.count(PieceType::Rook, black) + 330
            * self.count(PieceType::Bishop, black) + 320 * self.count(PieceType::Knight, black)
    }

    /// The worth of the pieces of the given colour.
    pub open spec fn material(&self, black: bool) -> int {
        self.heavy_material(black) + 100 * self.count(PieceType::Pawn, black)
    }

    /// Whether so little is left that the kings come out.
    pub open spec fn endgame(&self) -> bool {
        self.heavy_material(false) + self.heavy_material(true) < ENDGAME_MATERIAL
    }

    /// The given colour has a bare king, a king and one minor piece, or a
    /// king and two knights.
    pub open spec fn cannot_mate(&self, black: bool) -> bool {
        let n = self.side_count(black);
        n == 1 || (n == 2 && (self.count(PieceType::Bishop, black) == 1 || self.count(
            PieceType::Knight,
            black,
        ) == 1)) || (n == 3 && self.count(PieceType::Knight, black) == 2)
    }

    /// One side has a bare king and the other cannot mate it.
    pub open spec fn insufficient_material(&self) -> bool {
        (self.side_count(false) == 1 && self.cannot_mate(true)) || (self.side_count(true) == 1
            && self.cannot_mate(false))
    }

    /// A pawn of the given colour on `sq` has a pawn of its own beside it.
    pub open spec fn connected(&self, black: bool, sq: int) -> bool {
        exists|t: int| 0 <= t < 64 && self.stands(PieceType::Pawn, black, t) && beside(sq, t)
    }

    /// Whether `t` lies ahead of a pawn of the given colour on `sq`, on its
    /// own file or one next to it.
    pub open spec fn in_front(black: bool, sq: int, t: int) -> bool {
        let dx = file_of(t) - file_of(sq);
        -1 <= dx <= 1 && (if black {
            rank_of(t) < rank_of(sq)
        } else {
            rank_of(t) > rank_of(sq)
        })
    }

    /// No pawn of the other colour stands ahead of a pawn of the given
    /// colour on `sq`, on its own file or one next to it.
    pub open spec fn passed(&self, black: bool, sq: int) -> bool {
        forall|t: int|
            0 <= t < 64 && self.stands(PieceType::Pawn, !black, t) ==> !(#[trigger] Self::in_front(
                black,
                sq,
                t,
            ))
    }

    /// The ranks that a pawn of the given colour on `sq` has behind it.
    pub open spec fn advance(black: bool, sq: int) -> int {
        if black {
            7 - rank_of(sq)
        } else {
            rank_of(sq)
        }
    }

    /// What a pawn of the given colour on `sq` earns by its place among the
    /// other pawns.
    pub open spec fn pawn_bonus(&self, black: bool, sq: int) -> int {
        (if self.connected(black, sq) {
            5int
        } else {
            0int
        }) + (if self.passed(black, sq) {
            5 + 5 * Self::advance(black, sq)
        } else {
            0int
        })
    }

    /// What a piece of the given kind and colour on `sq` counts for, and
    /// nought where none stands there.
    pub open spec fn piece_part(&self, kind: PieceType, black: bool, end: bool, sq: int) -> int {
        if self.stands(kind, black, sq) {
            piece_value(kind) + table_value(kind, end, Self::advance(black, sq), file_of(sq)) + (
            if kind == PieceType::Pawn {
                self.pawn_bonus(black, sq)
            } else {
                0int
            })
        } else {
            0int
        }
    }

    /// What the pieces of the given colour on `sq` count for.
    pub open spec fn part(&self, black: bool, end: bool, sq: int) -> int {
        self.piece_part(PieceType::King, black, end, sq) + self.piece_part(
            PieceType::Queen,
            black,
            end,
            sq,
        ) + self.piece_part(PieceType::Rook, black, end, sq) + self.piece_part(
            PieceType::Bishop,
            black,
            end,
            sq,
        ) + self.piece_part(PieceType::Knight, black, end, sq) + self.piece_part(
            PieceType::Pawn,
            black,
            end,
            sq,
        )
    }

    /// What stands on a square, counted for white and against black.
    pub open spec fn cell(&self, end: bool) -> spec_fn(int) -> int {
        |sq: int| self.part(false, end, sq) - self.part(true, end, sq)
    }

    /// Material and placement of all pieces.
    pub open spec fn placement(&self, end: bool) -> int {
        sum_upto(self.cell(end), 64)
    }

    /// The lowest square on which a king of the given colour stands, or 64.
    pub open spec fn king_square(&self, black: bool) -> int {
        lowest_from(self.pieces(PieceType::King, black), 0)
    }

    /// In the endgame the side that is ahead in material is credited with
    /// the nearness of the kings.
    pub open spec fn king_proximity(&self) -> int {
        let w = self.king_square(false);
        let b = self.king_square(true);
        if w < 64 && b < 64 && self.endgame() {
            if self.material(false) > self.material(true) {
                14 - manhattan(w, b)
            } else if self.material(false) < self.material(true) {
                manhattan(w, b) - 14
            } else {
                0
            }
        } else {
            0
        }
    }

    /// The score of a position in which there is still play.
    pub open spec fn static_eval(&self) -> int {
        if self.half_moves() >= DRAW_CLOCK || self.insufficient_material() {
            0
        } else {
            self.placement(self.endgame()) + self.king_proximity()
        }
    }

    /// The score of a position in which the side to move has no move.
    pub open spec fn terminal_eval(&self) -> int {
        if self.half_moves() >= DRAW_CLOCK || !self.checked() {
            0
        } else if self.white_to_move() {
            -MATE_SCORE
        } else {
            MATE_SCORE as int
        }
    }

    /// The number of pieces of the given kind and colour.
    pub fn count_pieces(&self, kind: PieceType, black: bool) -> (r: i32)
        ensures
            r == self.count(kind, black),
            0 <= r <= 64,
    {
        let w = self.piece_map(kind, black);
        let mut n: i32 = 0;
        let mut sq: u8 = 0;
        while sq < 64
            invariant
                sq <= 64,
                w == self.pieces(kind, black),
                0 <= n <= sq,
                n == sum_upto(self.indicator(kind, black), sq as nat),
            decreases 64 - sq,
        {
            if holds(w, sq) {
                n = n + 1;
            }
            sq = sq + 1;
        }
        n
    }

    /// The number of pieces on the board.
    pub fn get_number_pieces(&self) -> (r: u32)
        ensures
            r == self.side_count(false) + self.side_count(true),
    {
        let white = self.count_side(false);
        let black = self.count_side(true);
        (white + black) as u32
    }

    fn count_side(&self, black: bool) -> (r: i32)
        ensures
            r == self.side_count(black),
            0 <= r <= 384,
    {
        self.count_pieces(PieceType::King, black) + self.count_pieces(PieceType::Queen, black)
            + self.count_pieces(PieceType::Rook, black) + self.count_pieces(
            PieceType::Bishop,
            black,
        ) + self.count_pieces(PieceType::Knight, black) + self.count_pieces(
            PieceType::Pawn,
            black,
        )
    }

    fn heavy_worth(&self, black: bool) -> (r: i32)
        ensures
            r == self.heavy_material(black),
            0 <= r <= 200_000,
    {
        900 * self.count_pieces(PieceType::Queen, black) + 500 * self.count_pieces(
            PieceType::Rook,
            black,
        ) + 330 * self.count_pieces(PieceType::Bishop, black) + 320 * self.count_pieces(
            PieceType::Knight,
            black,
        )
    }

    /// Whether so little is left that the kings come out.
    pub fn is_endgame(&self) -> (r: bool)
        ensures
            r == self.endgame(),
    {
        self.heavy_worth(false) + self.heavy_worth(true) < ENDGAME_MATERIAL
    }

    fn side_cannot_mate(&self, black: bool) -> (r: bool)
        ensures
            r == self.cannot_mate(black),
    {
        let n = self.count_side(black);
        let bishops = self.count_pieces(PieceType::Bishop, black);
        let knights = self.count_pieces(PieceType::Knight, black);
        n == 1 || (n == 2 && (bishops == 1 || knights == 1)) || (n == 3 && knights == 2)
    }

    /// Whether a pawn of the given colour on `sq` has a pawn of its own
    /// beside it.
    pub fn is_connected(&self, black: bool, sq: u8) -> (r: bool)
        requires
            sq < 64,
        ensures
            r == self.connected(black, sq as int),
    {
        let pawns = self.piece_map(PieceType::Pawn, black);
        let near = beside_squares(sq);
        proof {
            lemma_on_algebra(pawns, near);
            lemma_nonzero_has_square(pawns & near);
            if pawns & near != 0 {
                let t = choose|t: int| 0 <= t < 64 && on(pawns & near, t);
                assert(on(pawns & near, t) == (on(pawns, t) && on(near, t)));
                assert(self.stands(PieceType::Pawn, black, t) && beside(sq as int, t));
            } else {
                assert forall|t: int| 0 <= t < 64 implies !(self.stands(PieceType::Pawn, black, t)
                    && beside(sq as int, t)) by {
                    assert(on(pawns & near, t) == (on(pawns, t) && on(near, t)));
                }
            }
        }
        pawns & near != 0
    }

    /// Whether no pawn of the other colour stands ahead of a pawn of the
    /// given colour on `sq`, on its own file or one next to it.
    pub fn is_passed(&self, black: bool, sq: u8) -> (r: bool)
        requires
            sq < 64,
        ensures
            r == self.passed(black, sq as int),
    {
        let others = self.piece_map(PieceType::Pawn, !black);
        let x = sq % 8;
        let y = sq / 8;
        let mut t: u8 = 0;
        while t < 64
            invariant
                t <= 64,
                sq < 64,
                x == sq % 8,
                y == sq / 8,
                others == self.pieces(PieceType::Pawn, !black),
                forall|u: int|
                    0 <= u < t && self.stands(PieceType::Pawn, !black, u) ==> !(
                    #[trigger] Self::in_front(black, sq as int, u)),
            decreases 64 - t,
        {
            if holds(others, t) {
                let tx = t % 8;
                let ty = t / 8;
                let near = tx + 1 >= x && tx <= x + 1;
                let ahead = if black {
                    ty < y
                } else {
                    ty > y
                };
                if near && ahead {
                    assert(self.stands(PieceType::Pawn, !black, t as int));
                    assert(Self::in_front(black, sq as int, t as int));
                    return false;
                }
            }
            t = t + 1;
        }
        true
    }

    fn piece_score(&self, kind: PieceType, black: bool, end: bool, sq: u8) -> (r: i32)
        requires
            sq < 64,
        ensures
            r == self.piece_part(kind, black, end, sq as int),
            -50 <= r <= 1000,
    {
        if !holds(self.piece_map(kind, black), sq) {
            return 0;
        }
        let rank = sq / 8;
        let row = if black {
            7 - rank
        } else {
            rank
        };
        let mut total = piece_worth(kind) + table_entry(kind, end, row as usize, (sq % 8) as usize);
        match kind {
            PieceType::Pawn => {
                if self.is_connected(black, sq) {
                    total = total + 5;
                }
                if self.is_passed(black, sq) {
                    total = total + 5 + 5 * (row as i32);
                }
            },
            _ => {},
        }
        total
    }

    fn side_score(&self, black: bool, end: bool, sq: u8) -> (r: i32)
        requires
            sq < 64,
        ensures
            r == self.part(black, end, sq as int),
            -300 <= r <= 6000,
    {
        self.piece_score(PieceType::King, black, end, sq) + self.piece_score(
            PieceType::Queen,
            black,
            end,
            sq,
        ) + self.piece_score(PieceType::Rook, black, end, sq) + self.piece_score(
            PieceType::Bishop,
            black,
            end,
            sq,
        ) + self.piece_score(PieceType::Knight, black, end, sq) + self.piece_score(
            PieceType::Pawn,
            black,
            end,
            sq,
        )
    }

    fn placement_score(&self, end: bool) -> (r: i32)
        ensures
            r == self.placement(end),
            -403_200 <= r <= 403_200,
    {
        let mut total: i32 = 0;
        let mut sq: u8 = 0;
        while sq < 64
            invariant
                sq <= 64,
                -6300 * sq <= total <= 6300 * sq,
                total == sum_upto(self.cell(end), sq as nat),
            decreases 64 - sq,
        {
            total = total + self.side_score(false, end, sq) - self.side_score(true, end, sq);
            sq = sq + 1;
        }
        total
    }

    /// What the nearness of the kings is worth in the endgame to the side
    /// that is ahead in material.
    pub fn proximity_score(&self, end: bool) -> (r: i32)
        requires
            end == self.endgame(),
        ensures
            r == self.king_proximity(),
            -14 <= r <= 14,
    {
        let w = lowest_square(self.piece_map(PieceType::King, false));
        let b = lowest_square(self.piece_map(PieceType::King, true));
        if w < 64 && b < 64 && end {
            let white = self.heavy_worth(false) + 100 * self.count_pieces(PieceType::Pawn, false);
            let black = self.heavy_worth(true) + 100 * self.count_pieces(PieceType::Pawn, true);
            let wx = (w % 8) as i32;
            let wy = (w / 8) as i32;
            let bx = (b % 8) as i32;
            let by = (b / 8) as i32;
            let dx = if wx < bx {
                bx - wx
            } else {
                wx - bx
            };
            let dy = if wy < by {
                by - wy
            } else {
                wy - by
            };
            if white > black {
                14 - (dx + dy)
            } else if white < black {
                dx + dy - 14
            } else {
                0
            }
        } else {
            0
        }
    }

    /// The game is drawn by the half-move clock or for want of material.
    pub open spec fn drawn(&self) -> bool {
        self.half_moves() >= DRAW_CLOCK || self.insufficient_material()
    }

    /// Whether the game is drawn by the half-move clock or for want of
    /// material.
    pub fn is_drawn(&self) -> (r: bool)
        ensures
            r == self.drawn(),
    {
        if self.half_move_clock() >= DRAW_CLOCK {
            return true;
        }
        let white_bare = self.count_side(false) == 1;
        let black_bare = self.count_side(true) == 1;
        (white_bare && self.side_cannot_mate(true)) || (black_bare && self.side_cannot_mate(false))
    }

    /// The score of the position, positive where white stands better. With
    /// `end` set the position is taken to be one in which the side to move
    /// has no move: it is scored as a mate against that side where its king
    /// is attacked, and as a draw where it is not.
    pub fn evaluate(&self, end: bool) -> (r: i32)
        ensures
            r == (if end {
                self.terminal_eval()
            } else {
                self.static_eval()
            }),
            -MATE_SCORE <= r <= MATE_SCORE,
    {
        if self.half_move_clock() >= DRAW_CLOCK {
            return 0;
        }
        if end {
            return if !self.in_check() {
                0
            } else if self.read_bookkeeping().white_to_move {
                -MATE_SCORE
            } else {
                MATE_SCORE
            };
        }
        let white_bare = self.count_side(false) == 1;
        let black_bare = self.count_side(true) == 1;
        if (white_bare && self.side_cannot_mate(true)) || (black_bare && self.side_cannot_mate(
            false,
        )) {
            return 0;
        }
        let is_end_game = self.is_endgame();
        self.placement_score(is_end_game) + self.proximity_score(is_end_game)
    }
}

} // verus!
