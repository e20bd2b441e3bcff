//! Which squares a side attacks, and from that whether a king is in check.

use crate::base::attacks::bishop_attacks;
use crate::base::attacks::bishop_reach;
use crate::base::attacks::king_attacks;
use crate::base::attacks::king_step;
use crate::base::attacks::knight_attacks;
use crate::base::attacks::knight_step;
use crate::base::attacks::pawn_attack_step;
use crate::base::attacks::pawn_attacks;
use crate::base::attacks::queen_reach;
use crate::base::attacks::rook_attacks;
use crate::base::attacks::rook_reach;
use crate::base::bits::holds;
use crate::base::bits::lemma_nonzero_has_square;
use crate::base::bits::lemma_on_algebra;
use crate::base::bits::on;
use crate::base::defs::Board;
use crate::base::defs::PieceColour;
use crate::base::defs::PieceType;
use vstd::prelude::*;

verus! {

impl Board {
    /// Whether a piece of the given colour on `from` attacks `sq`. The test
    /// looks from `sq` outwards: a piece of some kind attacks `sq` when a
    /// piece of the same kind on `sq` would bear on it, and a pawn when a
    /// pawn of the other colour on `sq` would.
    pub open spec fn attacked_from(&self, by_black: bool, sq: int, from: int) -> bool {
        let occ = self.all_map();
        ||| self.stands(PieceType::Bishop, by_black, from) && bishop_reach(occ, sq, from)
        ||| self.stands(PieceType::Queen, by_black, from) && queen_reach(occ, sq, from)
        ||| self.stands(PieceType::Knight, by_black, from) && knight_step(sq, from)
        ||| self.stands(PieceType::Rook, by_black, from) && rook_reach(occ, sq, from)
        ||| self.stands(PieceType::King, by_black, from) && king_step(sq, from)
        ||| self.stands(PieceType::Pawn, by_black, from) && pawn_attack_step(!by_black, sq, from)
    }

    /// Whether some piece of the given colour attacks `sq`.
    pub open spec fn attacked_by(&self, by_black: bool, sq: int) -> bool {
        exists|from: int| 0 <= from < 64 && self.attacked_from(by_black, sq, from)
    }

    /// Whether some piece of the given colour attacks some square of
    /// `targets`.
    pub open spec fn any_attacked(&self, by_black: bool, targets: u64) -> bool {
        exists|t: int| 0 <= t < 64 && on(targets, t) && self.attacked_by(by_black, t)
    }

    /// The side that has just moved has not left its king attacked.
    pub open spec fn legal(&self) -> bool {
        !self.any_attacked(!self.white_to_move(), self.pieces(PieceType::King, self.white_to_move()))
    }

    /// The king of the side to move is attacked.
    pub open spec fn checked(&self) -> bool {
        self.any_attacked(self.white_to_move(), self.pieces(PieceType::King, !self.white_to_move()))
    }

    /// Whether some piece of the given colour attacks `sq`.
    pub fn square_attacked(&self, by_black: bool, sq: u8) -> (r: bool)
        requires
            sq < 64,
        ensures
            r == self.attacked_by(by_black, sq as int),
    {
        let occ = self.consolidated_piece_map(&PieceColour::Any);
        let diagonal = bishop_attacks(occ, sq);
        let straight = rook_attacks(occ, sq);
        let knight = knight_attacks(sq);
        let king = king_attacks(sq);
        let pawn = pawn_attacks(!by_black, sq);
        let b = self.piece_map(PieceType::Bishop, by_black);
        let q = self.piece_map(PieceType::Queen, by_black);
        let n = self.piece_map(PieceType::Knight, by_black);
        let r = self.piece_map(PieceType::Rook, by_black);
        let k = self.piece_map(PieceType::King, by_black);
        let p = self.piece_map(PieceType::Pawn, by_black);
        let h1 = b & diagonal;
        let h2 = q & (diagonal | straight);
        let h3 = n & knight;
        let h4 = r & straight;
        let h5 = k & king;
        let h6 = p & pawn;
        let hits = h1 | h2 | h3 | h4 | h5 | h6;
        proof {
            lemma_on_algebra(b, diagonal);
            lemma_on_algebra(diagonal, straight);
            lemma_on_algebra(q, diagonal | straight);
            lemma_on_algebra(n, knight);
            lemma_on_algebra(r, straight);
            lemma_on_algebra(k, king);
            lemma_on_algebra(p, pawn);
            lemma_on_algebra(h1, h2);
            lemma_on_algebra(h1 | h2, h3);
            lemma_on_algebra(h1 | h2 | h3, h4);
            lemma_on_algebra(h1 | h2 | h3 | h4, h5);
            lemma_on_algebra(h1 | h2 | h3 | h4 | h5, h6);
            assert forall|from: int| 0 <= from < 64 implies (#[trigger] on(hits, from))
                == self.attacked_from(by_black, sq as int, from) by {
                assert(on(hits, from) == (on(h1 | h2 | h3 | h4 | h5, from) || on(h6, from)));
                assert(on(h1 | h2 | h3 | h4 | h5, from) == (on(h1 | h2 | h3 | h4, from) || on(
                    h5,
                    from,
                )));
                assert(on(h1 | h2 | h3 | h4, from) == (on(h1 | h2 | h3, from) || on(h4, from)));
                assert(on(h1 | h2 | h3, from) == (on(h1 | h2, from) || on(h3, from)));
                assert(on(h1 | h2, from) == (on(h1, from) || on(h2, from)));
                assert(on(h1, from) == (on(b, from) && on(diagonal, from)));
                assert(on(h2, from) == (on(q, from) && on(diagonal | straight, from)));
                assert(on(diagonal | straight, from) == (on(diagonal, from) || on(
                    straight,
                    from,
                )));
                assert(on(h3, from) == (on(n, from) && on(knight, from)));
                assert(on(h4, from) == (on(r, from) && on(straight, from)));
                assert(on(h5, from) == (on(k, from) && on(king, from)));
                assert(on(h6, from) == (on(p, from) && on(pawn, from)));
            }
            lemma_nonzero_has_square(hits);
            if hits != 0 {
                let from = choose|from: int| 0 <= from < 64 && on(hits, from);
                assert(self.attacked_from(by_black, sq as int, from));
            } else {
                assert forall|from: int| 0 <= from < 64 implies !self.attacked_from(
                    by_black,
                    sq as int,
                    from,
                ) by {
                    assert(!on(hits, from));
                }
            }
        }
        hits != 0
    }

    /// Whether the side named by `is_black` (0 for white, 1 for black)
    /// attacks some square of `targets`.
    pub fn can_attack(&self, is_black: u8, targets: u64) -> (r: bool)
        requires
            is_black <= 1,
        ensures
            r == self.any_attacked(is_black == 1, targets),
    {
        let by_black = is_black == 1;
        let mut sq: u8 = 0;
        while sq < 64
            invariant
                sq <= 64,
                by_black == (is_black == 1),
                forall|t: int| 0 <= t < sq && on(targets, t) ==> !self.attacked_by(by_black, t),
            decreases 64 - sq,
        {
            if holds(targets, sq) && self.square_attacked(by_black, sq) {
                return true;
            }
            sq = sq + 1;
        }
        false
    }

    /// Whether the side that has just moved has kept its king out of
    /// attack.
    pub fn is_legal(&self) -> (r: bool)
        ensures
            r == self.legal(),
    {
        let white_to_move = self.read_bookkeeping().white_to_move;
        let king = self.piece_map(PieceType::King, white_to_move);
        !self.can_attack(
            if white_to_move {
                0
            } else {
                1
            },
            king,
        )
    }

    /// Whether the king of the side to move is attacked.
    pub fn in_check(&self) -> (r: bool)
        ensures
            r == self.checked(),
    {
        let white_to_move = self.read_bookkeeping().white_to_move;
        let king = self.piece_map(PieceType::King, !white_to_move);
        self.can_attack(
            if white_to_move {
                1
            } else {
                0
            },
            king,
        )
    }
}

} // verus!
