//! The attack sets that do not depend on what stands on the board, worked
//! out once for every square.

use crate::base::attacks::king_attacks;
use crate::base::attacks::king_step;
use crate::base::attacks::knight_attacks;
use crate::base::attacks::knight_step;
use crate::base::attacks::pawn_attack_step;
use crate::base::attacks::pawn_attacks;
use crate::base::bits::on;
use vstd::prelude::*;

verus! {

/// The attack sets of king, knight and pawn by square.
#[derive(Debug, Clone)]
pub struct GlobalMap {
    pub king_map: Vec<u64>,
    pub knight_map: Vec<u64>,
    pub white_pawn_map: Vec<u64>,
    pub black_pawn_map: Vec<u64>,
}

impl GlobalMap {
    /// Each table has an entry for each square, and each entry holds the
    /// squares that the piece bears on from there.
    pub open spec fn well_formed(&self) -> bool {
        &&& self.king_map@.len() == 64
        &&& self.knight_map@.len() == 64
        &&& self.white_pawn_map@.len() == 64
        &&& self.black_pawn_map@.len() == 64
        &&& forall|sq: int, t: int|
            0 <= sq < 64 && 0 <= t < 64 ==> (#[trigger] on(self.king_map@[sq], t)) == king_step(
                sq,
                t,
            )
        &&& forall|sq: int, t: int|
            0 <= sq < 64 && 0 <= t < 64 ==> (#[trigger] on(self.knight_map@[sq], t))
                == knight_step(sq, t)
        &&& forall|sq: int, t: int|
            0 <= sq < 64 && 0 <= t < 64 ==> (#[trigger] on(self.white_pawn_map@[sq], t))
                == pawn_attack_step(false, sq, t)
        &&& forall|sq: int, t: int|
            0 <= sq < 64 && 0 <= t < 64 ==> (#[trigger] on(self.black_pawn_map@[sq], t))
                == pawn_attack_step(true, sq, t)
    }

    /// The tables, filled.
    pub fn init() -> (r: GlobalMap)
        ensures
            r.well_formed(),
    {
        let mut king_map: Vec<u64> = Vec::new();
        let mut knight_map: Vec<u64> = Vec::new();
        let mut white_pawn_map: Vec<u64> = Vec::new();
        let mut black_pawn_map: Vec<u64> = Vec::new();
        let mut sq: u8 = 0;
        while sq < 64
            invariant
                sq <= 64,
                king_map@.len() == sq,
                knight_map@.len() == sq,
                white_pawn_map@.len() == sq,
                black_pawn_map@.len() == sq,
                forall|s: int, t: int|
                    0 <= s < sq && 0 <= t < 64 ==> (#[trigger] on(king_map@[s], t)) == king_step(
                        s,
                        t,
                    ),
                forall|s: int, t: int|
                    0 <= s < sq && 0 <= t < 64 ==> (#[trigger] on(knight_map@[s], t))
                        == knight_step(s, t),
                forall|s: int, t: int|
                    0 <= s < sq && 0 <= t < 64 ==> (#[trigger] on(white_pawn_map@[s], t))
                        == pawn_attack_step(false, s, t),
                forall|s: int, t: int|
                    0 <= s < sq && 0 <= t < 64 ==> (#[trigger] on(black_pawn_map@[s], t))
                        == pawn_attack_step(true, s, t),
            decreases 64 - sq,
        {
            king_map.push(king_attacks(sq));
            knight_map.push(knight_attacks(sq));
            white_pawn_map.push(pawn_attacks(false, sq));
            black_pawn_map.push(pawn_attacks(true, sq));
            sq = sq + 1;
        }
        GlobalMap { king_map, knight_map, white_pawn_map, black_pawn_map }
    }

    /// The squares that a king on `sq` bears on.
    pub fn king(&self, sq: u8) -> (r: u64)
        requires
            self.well_formed(),
            sq < 64,
        ensures
            forall|t: int| 0 <= t < 64 ==> (#[trigger] on(r, t)) == king_step(sq as int, t),
    {
        self.king_map[sq as usize]
    }

    /// The squares that a knight on `sq` bears on.
    pub fn knight(&self, sq: u8) -> (r: u64)
        requires
            self.well_formed(),
            sq < 64,
        ensures
            forall|t: int| 0 <= t < 64 ==> (#[trigger] on(r, t)) == knight_step(sq as int, t),
    {
        self.knight_map[sq as usize]
    }

    /// The squares that a pawn of the given colour on `sq` attacks.
    pub fn pawn(&self, black: bool, sq: u8) -> (r: u64)
        requires
            self.well_formed(),
            sq < 64,
        ensures
            forall|t: int|
                0 <= t < 64 ==> (#[trigger] on(r, t)) == pawn_attack_step(black, sq as int, t),
    {
        if black {
            self.black_pawn_map[sq as usize]
        } else {
            self.white_pawn_map[sq as usize]
        }
    }
}

} // verus!
