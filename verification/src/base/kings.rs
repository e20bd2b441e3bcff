//! King moves.

use crate::base::attacks::king_attacks;
use crate::base::attacks::king_step;
use crate::base::bits::holds;
use crate::base::bits::lemma_on_algebra;
use crate::base::bits::on;
use crate::base::defs::Board;
use crate::base::defs::CastleSide;
use crate::base::defs::LegalMoveVec;
use crate::base::defs::PieceColour;
use crate::base::defs::PieceType;
use crate::base::steps::colour_of;
use crate::base::steps::move_tag;
use crate::base::steps::side_colour;
use vstd::prelude::*;

verus! {

/// The a-file square of the back rank of a side.
pub open spec fn home_corner(black: bool) -> int {
    if black {
        56
    } else {
        0
    }
}

/// The square from which a king castles.
pub open spec fn king_home(black: bool) -> int {
    home_corner(black) + 4
}

/// The square on which a king lands when it castles.
pub open spec fn king_goal(black: bool, side: CastleSide) -> int {
    match side {
        CastleSide::King => home_corner(black) + 6,
        CastleSide::Queen => home_corner(black) + 2,
    }
}

/// The square from which a rook castles.
pub open spec fn rook_home(black: bool, side: CastleSide) -> int {
    match side {
        CastleSide::King => home_corner(black) + 7,
        CastleSide::Queen => home_corner(black),
    }
}

/// The square on which a rook lands when it castles, which is the square
/// that the king crosses.
pub open spec fn rook_goal(black: bool, side: CastleSide) -> int {
    match side {
        CastleSide::King => home_corner(black) + 5,
        CastleSide::Queen => home_corner(black) + 3,
    }
}

impl Board {
    /// Whether the side to move may castle on the given wing: it has the
    /// right, king and rook stand at home, the squares between them are
    /// empty, and the other side attacks neither the king's square nor the
    /// square that it crosses nor the one on which it lands.
    pub open spec fn can_castle(&self, side: CastleSide) -> bool {
        let black = !self.white_to_move();
        &&& self.may_castle(black, side)
        &&& self.stands(PieceType::King, black, king_home(black))
        &&& self.stands(PieceType::Rook, black, rook_home(black, side))
        &&& !self.occupied(king_goal(black, side))
        &&& !self.occupied(rook_goal(black, side))
        &&& (side == CastleSide::Queen ==> !self.occupied(home_corner(black) + 1))
        &&& !self.attacked_by(!black, king_home(black))
        &&& !self.attacked_by(!black, rook_goal(black, side))
        &&& !self.attacked_by(!black, king_goal(black, side))
    }

    /// The position after the side to move has castled on the given wing:
    /// king and rook have changed places as the rule says, both castling
    /// rights of the side are gone, the half-move clock has gone up, the
    /// en-passant file is cleared and the king's move is recorded.
    pub open spec fn after_castle(&self, side: CastleSide) -> Board {
        let black = !self.white_to_move();
        let own = colour_of(black);
        self.without_piece(king_home(black)).without_piece(rook_home(black, side)).with_piece(
            PieceType::King,
            black,
            king_goal(black, side),
        ).with_piece(PieceType::Rook, black, rook_goal(black, side)).ticked(
            false,
            black,
        ).with_en_passant(None).without_castling(CastleSide::King, own).without_castling(
            CastleSide::Queen,
            own,
        ).tagged(move_tag(king_home(black), king_goal(black, side)))
    }

    /// The legal successor by castling on the given wing, if there is one.
    pub open spec fn castles(&self, side: CastleSide) -> Seq<Board> {
        if self.can_castle(side) {
            self.after_castle(side).kept()
        } else {
            Seq::empty()
        }
    }

    /// A king that castles is not in check, crosses no attacked square and
    /// lands on none.
    pub proof fn lemma_castling_is_safe(&self, side: CastleSide)
        requires
            self.castles(side).len() > 0,
        ensures
            !self.attacked_by(self.white_to_move(), king_home(!self.white_to_move())),
            !self.attacked_by(self.white_to_move(), rook_goal(!self.white_to_move(), side)),
            !self.attacked_by(self.white_to_move(), king_goal(!self.white_to_move(), side)),
            self.after_castle(side).legal(),
    {
    }

    fn try_castle(&self, side: CastleSide, list: &mut LegalMoveVec)
        ensures
            final(list)@ == old(list)@ + self.castles(side),
    {
        let f = self.read_bookkeeping();
        let black = !f.white_to_move;
        let own = side_colour(black);
        let corner: u8 = if black {
            56
        } else {
            0
        };
        let right = match side {
            CastleSide::King => if black {
                f.black_king_side
            } else {
                f.white_king_side
            },
            CastleSide::Queen => if black {
                f.black_queen_side
            } else {
                f.white_queen_side
            },
        };
        let king_from: u8 = corner + 4;
        let (king_to, rook_from, rook_to): (u8, u8, u8) = match side {
            CastleSide::King => (corner + 6, corner + 7, corner + 5),
            CastleSide::Queen => (corner + 2, corner, corner + 3),
        };
        let all = self.consolidated_piece_map(&PieceColour::Any);
        proof {
            self.lemma_all_map();
        }
        let extra_free = match side {
            CastleSide::King => true,
            CastleSide::Queen => !holds(all, corner + 1),
        };
        let allowed = right && holds(self.piece_map(PieceType::King, black), king_from) && holds(
            self.piece_map(PieceType::Rook, black),
            rook_from,
        ) && !holds(all, king_to) && !holds(all, rook_to) && extra_free && !self.square_attacked(
            !black,
            king_from,
        ) && !self.square_attacked(!black, rook_to) && !self.square_attacked(!black, king_to);
        if allowed {
            let mut next: Board = *self;
            next.remove_piece(king_from);
            next.remove_piece(rook_from);
            next.put_piece(PieceType::King, black, king_to);
            next.put_piece(PieceType::Rook, black, rook_to);
            next.update_tickers(false, black);
            next.set_enpassant(None);
            next.remove_castling_bits(CastleSide::King, &own);
            next.remove_castling_bits(CastleSide::Queen, &own);
            next.latest_move = 64 * (king_from as u32) + (king_to as u32);
            list.push(&mut next);
        } else {
            assert(list@ == old(list)@ + self.castles(side));
        }
    }

    /// The legal successors by a move of the king of the side to move: its
    /// steps by rising destination, then castling on the king's wing, then
    /// castling on the queen's wing.
    pub fn generate_king_moves(&self) -> (r: LegalMoveVec)
        ensures
            r@ == self.steps_from(PieceType::King, 64) + self.castles(CastleSide::King)
                + self.castles(CastleSide::Queen),
    {
        let mut list = self.generate_steps(PieceType::King);
        self.try_castle(CastleSide::King, &mut list);
        self.try_castle(CastleSide::Queen, &mut list);
        list
    }

    /// The squares that a king on bit `pos`, that is on square `63 - pos`,
    /// bears on, without those on which a piece of the colour named by
    /// `is_black` stands (0 white, 1 black, anything else both).
    pub fn get_king_attack_bit_map(&self, pos: i8, is_black: u8) -> (r: u64)
        requires
            0 <= pos < 64,
        ensures
            forall|t: int|
                0 <= t < 64 ==> (#[trigger] on(r, t)) == (king_step(63 - pos, t) && !on(
                    self.colour_map(PieceColour::of_flag(is_black)),
                    t,
                )),
    {
        let sq: u8 = (63 - pos) as u8;
        let reach = king_attacks(sq);
        let own = self.consolidated_piece_map(&PieceColour::from_u8(is_black));
        proof {
            lemma_on_algebra(own, 0);
            lemma_on_algebra(reach, !own);
        }
        reach & !own
    }
}

} // verus!
