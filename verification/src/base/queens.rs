//! Queen moves.

use crate::base::attacks::queen_reach;
use crate::base::bits::lemma_on_algebra;
use crate::base::bits::on;
use crate::base::defs::Board;
use crate::base::defs::LegalMoveVec;
use crate::base::defs::PieceColour;
use crate::base::defs::PieceType;
use vstd::prelude::*;

verus! {

impl Board {
    /// The squares that a queen on bit `pos`, that is on square `63 - pos`,
    /// bears on, without those on which a piece of the colour named by
    /// `is_black` stands (0 white, 1 black, anything else both).
    pub fn get_queen_move_bit_map(&self, pos: i8, is_black: u8) -> (r: u64)
        requires
            0 <= pos < 64,
        ensures
            forall|t: int|
                0 <= t < 64 ==> (#[trigger] on(r, t)) == (queen_reach(
                    self.all_map(),
                    63 - pos,
                    t,
                ) && !on(self.colour_map(PieceColour::of_flag(is_black)), t)),
    {
        let diagonal = self.get_bishop_move_bit_map(pos, is_black);
        let straight = self.get_rook_move_bit_map(pos, is_black);
        proof {
            lemma_on_algebra(diagonal, straight);
        }
        diagonal | straight
    }

    /// The legal successors by a move of a queen of the side to move: for
    /// each queen by rising square, its moves by rising destination.
    pub fn generate_queen_moves(&self) -> (r: LegalMoveVec)
        ensures
            r@ == self.steps_from(PieceType::Queen, 64),
    {
        self.generate_steps(PieceType::Queen)
    }
}

} // verus!
