//! Bishop moves.

use crate::base::attacks::bishop_attacks;
use crate::base::attacks::bishop_reach;
use crate::base::bits::lemma_on_algebra;
use crate::base::bits::on;
use crate::base::defs::Board;
use crate::base::defs::LegalMoveVec;
use crate::base::defs::PieceColour;
use crate::base::defs::PieceType;
use vstd::prelude::*;

verus! {

impl Board {
    /// The squares that a bishop on bit `pos`, that is on square `63 - pos`,
    /// bears on, without those on which a piece of the colour named by
    /// `is_black` stands (0 white, 1 black, anything else both).
    pub fn get_bishop_move_bit_map(&self, pos: i8, is_black: u8) -> (r: u64)
        requires
            0 <= pos < 64,
        ensures
            forall|t: int|
                0 <= t < 64 ==> (#[trigger] on(r, t)) == (bishop_reach(self.all_map(), 63 - pos, t) && !on(
                    self.colour_map(PieceColour::of_flag(is_black)),
                    t,
                )),
    {
        let sq: u8 = (63 - pos) as u8;
        let occ = self.consolidated_piece_map(&PieceColour::Any);
        let reach = bishop_attacks(occ, sq);
        let own = self.consolidated_piece_map(&PieceColour::from_u8(is_black));
        proof {
            lemma_on_algebra(own, 0);
            lemma_on_algebra(reach, !own);
        }
        reach & !own
    }

    /// The legal successors by a move of a bishop of the side to move: for
    /// each bishop by rising square, its moves by rising destination.
    pub fn generate_bishop_moves(&self) -> (r: LegalMoveVec)
        ensures
            r@ == self.steps_from(PieceType::Bishop, 64),
    {
        self.generate_steps(PieceType::Bishop)
    }
}

} // verus!
