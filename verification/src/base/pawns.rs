//! Pawn moves.

use crate::base::attacks::file_of;
use crate::base::attacks::pawn_attack_step;
use crate::base::attacks::pawn_attacks;
use crate::base::attacks::rank_of;
use crate::base::bits::holds;
use crate::base::bits::in_board;
use crate::base::bits::lemma_on_algebra;
use crate::base::bits::on;
use crate::base::bits::square_of;
use crate::base::defs::Board;
use crate::base::defs::LegalMoveVec;
use crate::base::defs::PieceColour;
use crate::base::defs::PieceType;
use crate::base::steps::promotion_number;
use vstd::prelude::*;

verus! {

/// The change of rank when a pawn of the given colour advances.
pub open spec fn forward(black: bool) -> int {
    if black {
        -1
    } else {
        1
    }
}

/// Whether `sq` is on the rank on which a pawn of the given colour
/// promotes.
pub open spec fn on_last_rank(black: bool, sq: int) -> bool {
    rank_of(sq) == (if black {
        0int
    } else {
        7int
    })
}

/// Whether `sq` is on the rank from which a pawn of the given colour may
/// make a double step.
pub open spec fn on_start_rank(black: bool, sq: int) -> bool {
    rank_of(sq) == (if black {
        6int
    } else {
        1int
    })
}

/// Whether `sq` is on the rank from which a pawn of the given colour can
/// capture in passing.
pub open spec fn on_passing_rank(black: bool, sq: int) -> bool {
    rank_of(sq) == (if black {
        3int
    } else {
        4int
    })
}

impl Board {
    /// The position in which the pawn that has just arrived on `to` has
    /// become a piece of the given kind.
    pub open spec fn promoted(&self, kind: PieceType, black: bool, to: int) -> Board {
        self.without_piece(to).with_piece(kind, black, to).tagged(
            self.latest_move + 4096 * (4 + promotion_number(kind)),
        )
    }

    /// The legal successors that come of a pawn of the given colour having
    /// arrived on `to`: the position itself, or on the last rank one for
    /// each of queen, rook, bishop and knight.
    pub open spec fn arrivals(&self, black: bool, to: int) -> Seq<Board> {
        if on_last_rank(black, to) {
            self.promoted(PieceType::Queen, black, to).kept() + self.promoted(
                PieceType::Rook,
                black,
                to,
            ).kept() + self.promoted(PieceType::Bishop, black, to).kept() + self.promoted(
                PieceType::Knight,
                black,
                to,
            ).kept()
        } else {
            self.kept()
        }
    }

    /// The legal successors by a single step of the pawn on `from`.
    #[verifier::opaque]
    pub open spec fn pawn_push(&self, from: int) -> Seq<Board> {
        let black = !self.white_to_move();
        let to = from + 8 * forward(black);
        if 0 <= to < 64 && !self.occupied(to) {
            self.after_step(PieceType::Pawn, from, to).arrivals(black, to)
        } else {
            Seq::empty()
        }
    }

    /// The legal successor by a double step of the pawn on `from`, if there
    /// is one; it records the pawn's file for a capture in passing.
    #[verifier::opaque]
    pub open spec fn pawn_double(&self, from: int) -> Seq<Board> {
        let black = !self.white_to_move();
        let mid = from + 8 * forward(black);
        let to = from + 16 * forward(black);
        if on_start_rank(black, from) && !self.occupied(mid) && !self.occupied(to) {
            self.after_step(PieceType::Pawn, from, to).with_en_passant(
                Some(file_of(from) as u8),
            ).kept()
        } else {
            Seq::empty()
        }
    }

    /// The legal successors by a capture of the pawn on `from` towards the
    /// file `dx` to its side. A king is never taken.
    #[verifier::opaque]
    pub open spec fn pawn_capture(&self, from: int, dx: int) -> Seq<Board> {
        let black = !self.white_to_move();
        let x = file_of(from) + dx;
        let y = rank_of(from) + forward(black);
        if in_board(x, y) && self.side_stands(!black, square_of(x, y)) && !self.stands(
            PieceType::King,
            !black,
            square_of(x, y),
        ) {
            self.after_step(PieceType::Pawn, from, square_of(x, y)).arrivals(
                black,
                square_of(x, y),
            )
        } else {
            Seq::empty()
        }
    }

    /// Whether the pawn on `from` may capture in passing: a pawn of the
    /// other side has just made a double step on a file next to it and
    /// stands beside it, and the square behind that pawn is empty.
    pub open spec fn may_pass(&self, from: int) -> bool {
        let black = !self.white_to_move();
        let dx = self.en_passant_bits() - file_of(from);
        &&& self.en_passant_valid()
        &&& (dx == 1 || dx == -1)
        &&& on_passing_rank(black, from)
        &&& self.stands(PieceType::Pawn, !black, square_of(self.en_passant_bits(), rank_of(from)))
        &&& !self.occupied(square_of(self.en_passant_bits(), rank_of(from) + forward(black)))
    }

    /// The legal successor by a capture in passing of the pawn on `from`,
    /// if there is one: the pawn beside it is taken off the board.
    #[verifier::opaque]
    pub open spec fn pawn_passing(&self, from: int) -> Seq<Board> {
        let black = !self.white_to_move();
        if self.may_pass(from) {
            self.without_piece(square_of(self.en_passant_bits(), rank_of(from))).after_step(
                PieceType::Pawn,
                from,
                square_of(self.en_passant_bits(), rank_of(from) + forward(black)),
            ).kept()
        } else {
            Seq::empty()
        }
    }

    /// The legal successors by a move of the pawn on `from`: single step,
    /// double step, capture towards the a-file, capture towards the h-file,
    /// capture in passing.
    pub open spec fn pawn_moves_at(&self, from: int) -> Seq<Board> {
        self.pawn_push(from) + self.pawn_double(from) + self.pawn_capture(from, -1)
            + self.pawn_capture(from, 1) + self.pawn_passing(from)
    }

    /// The legal successors by a move of a pawn of the side to move that
    /// stands on a square below `n`, by rising square.
    pub open spec fn pawn_moves_from(&self, n: nat) -> Seq<Board>
        decreases n,
    {
        if n == 0 {
            Seq::empty()
        } else {
            let rest = self.pawn_moves_from((n - 1) as nat);
            if self.stands(PieceType::Pawn, !self.white_to_move(), n - 1) {
                rest + self.pawn_moves_at(n - 1)
            } else {
                rest
            }
        }
    }

    /// The squares that a pawn of the colour named by `is_black` on bit
    /// `pos`, that is on square `63 - pos`, attacks, without those on which
    /// a piece of that colour stands.
    pub fn get_pawn_attack_bit_map(&self, pos: i8, is_black: u8) -> (r: u64)
        requires
            0 <= pos < 64,
            is_black <= 1,
        ensures
            forall|t: int|
                0 <= t < 64 ==> (#[trigger] on(r, t)) == (pawn_attack_step(
                    is_black == 1,
                    63 - pos,
                    t,
                ) && !on(self.colour_map(PieceColour::of_flag(is_black)), t)),
    {
        let sq: u8 = (63 - pos) as u8;
        let reach = pawn_attacks(is_black == 1, sq);
        let own = self.consolidated_piece_map(&PieceColour::from_u8(is_black));
        proof {
            lemma_on_algebra(own, 0);
            lemma_on_algebra(reach, !own);
        }
        reach & !own
    }

    fn promote(&self, kind: PieceType, number: u32, black: bool, index: u8) -> (r: Board)
        requires
            index < 64,
            number == promotion_number(kind),
            0 <= number <= 3,
            self.latest_move < 4096,
        ensures
            r == self.promoted(kind, black, index as int),
    {
        let mut next: Board = *self;
        next.remove_piece(index);
        next.put_piece(kind, black, index);
        next.latest_move = self.latest_move + 4096 * (4 + number);
        next
    }

    /// Adds to `legal_boards` what comes of a pawn of the colour named by
    /// `is_black` having arrived on `index` in this position: the position
    /// itself, or on the last rank one position for each of queen, rook,
    /// bishop and knight; in each case only what is legal.
    pub fn check_and_add_promotion(
        &mut self,
        index: u8,
        is_black: u8,
        legal_boards: &mut LegalMoveVec,
    )
        requires
            index < 64,
            is_black <= 1,
            old(self).latest_move < 4096,
        ensures
            final(legal_boards)@ == old(legal_boards)@ + old(self).arrivals(
                is_black == 1,
                index as int,
            ),
    {
        let black = is_black == 1;
        let y = index / 8;
        if (black && y == 0) || (!black && y == 7) {
            let mut queen = self.promote(PieceType::Queen, 0, black, index);
            legal_boards.push(&mut queen);
            let mut rook = self.promote(PieceType::Rook, 1, black, index);
            legal_boards.push(&mut rook);
            let mut bishop = self.promote(PieceType::Bishop, 2, black, index);
            legal_boards.push(&mut bishop);
            let mut knight = self.promote(PieceType::Knight, 3, black, index);
            legal_boards.push(&mut knight);
        } else {
            legal_boards.push(self);
        }
    }

    fn add_pawn_push(&self, from: u8, list: &mut LegalMoveVec)
        requires
            from < 64,
        ensures
            final(list)@ == old(list)@ + self.pawn_push(from as int),
    {
        reveal(Board::pawn_push);
        let black = !self.read_bookkeeping().white_to_move;
        let all = self.consolidated_piece_map(&PieceColour::Any);
        proof {
            self.lemma_all_map();
        }
        let y = from / 8;
        if (black && y >= 1) || (!black && y <= 6) {
            let to: u8 = if black {
                from - 8
            } else {
                from + 8
            };
            if !holds(all, to) {
                let mut next = self.step(PieceType::Pawn, from, to);
                next.check_and_add_promotion(
                    to,
                    if black {
                        1
                    } else {
                        0
                    },
                    list,
                );
                return ;
            }
        }
        assert(list@ == old(list)@ + self.pawn_push(from as int));
    }

    fn add_pawn_double(&self, from: u8, list: &mut LegalMoveVec)
        requires
            from < 64,
        ensures
            final(list)@ == old(list)@ + self.pawn_double(from as int),
    {
        reveal(Board::pawn_double);
        let black = !self.read_bookkeeping().white_to_move;
        let all = self.consolidated_piece_map(&PieceColour::Any);
        proof {
            self.lemma_all_map();
        }
        let y = from / 8;
        if (black && y == 6) || (!black && y == 1) {
            let mid: u8 = if black {
                from - 8
            } else {
                from + 8
            };
            let to: u8 = if black {
                from - 16
            } else {
                from + 16
            };
            if !holds(all, mid) && !holds(all, to) {
                let mut next = self.step(PieceType::Pawn, from, to);
                next.set_enpassant(Some(from % 8));
                list.push(&mut next);
                return ;
            }
        }
        assert(list@ == old(list)@ + self.pawn_double(from as int));
    }

    fn add_pawn_capture(&self, from: u8, towards_h: bool, list: &mut LegalMoveVec)
        requires
            from < 64,
        ensures
            final(list)@ == old(list)@ + self.pawn_capture(
                from as int,
                if towards_h {
                    1
                } else {
                    -1
                },
            ),
    {
        reveal(Board::pawn_capture);
        let black = !self.read_bookkeeping().white_to_move;
        let others = self.consolidated_piece_map(
            &(if black {
                PieceColour::White
            } else {
                PieceColour::Black
            }),
        );
        proof {
            self.lemma_side_map(!black);
        }
        let x = from % 8;
        let y = from / 8;
        let file_ok = if towards_h {
            x <= 6
        } else {
            x >= 1
        };
        let rank_ok = if black {
            y >= 1
        } else {
            y <= 6
        };
        if file_ok && rank_ok {
            let nx: u8 = if towards_h {
                x + 1
            } else {
                x - 1
            };
            let ny: u8 = if black {
                y - 1
            } else {
                y + 1
            };
            let to: u8 = nx + 8 * ny;
            if holds(others, to) && !holds(self.piece_map(PieceType::King, !black), to) {
                let mut next = self.step(PieceType::Pawn, from, to);
                next.check_and_add_promotion(
                    to,
                    if black {
                        1
                    } else {
                        0
                    },
                    list,
                );
                return ;
            }
        }
        assert(list@ == old(list)@ + self.pawn_capture(
            from as int,
            if towards_h {
                1
            } else {
                -1
            },
        ));
    }

    fn add_pawn_passing(&self, from: u8, list: &mut LegalMoveVec)
        requires
            from < 64,
        ensures
            final(list)@ == old(list)@ + self.pawn_passing(from as int),
    {
        reveal(Board::pawn_passing);
        let f = self.read_bookkeeping();
        let black = !f.white_to_move;
        let all = self.consolidated_piece_map(&PieceColour::Any);
        proof {
            self.lemma_all_map();
        }
        let x = from % 8;
        let y = from / 8;
        if f.ep_valid && (f.ep_file == x + 1 || f.ep_file + 1 == x) && ((black && y == 3) || (
        !black && y == 4)) {
            let victim: u8 = f.ep_file + 8 * y;
            let to: u8 = if black {
                victim - 8
            } else {
                victim + 8
            };
            if holds(self.piece_map(PieceType::Pawn, !black), victim) && !holds(all, to) {
                let mut cleared: Board = *self;
                cleared.remove_piece(victim);
                let mut next = cleared.step(PieceType::Pawn, from, to);
                list.push(&mut next);
                return ;
            }
        }
        assert(list@ == old(list)@ + self.pawn_passing(from as int));
    }

    fn add_pawn_moves(&self, from: u8, list: &mut LegalMoveVec)
        requires
            from < 64,
        ensures
            final(list)@ == old(list)@ + self.pawn_moves_at(from as int),
    {
        let ghost l0 = list@;
        self.add_pawn_push(from, list);
        self.add_pawn_double(from, list);
        self.add_pawn_capture(from, false, list);
        self.add_pawn_capture(from, true, list);
        self.add_pawn_passing(from, list);
        proof {
            let a = self.pawn_push(from as int);
            let b = self.pawn_double(from as int);
            let c = self.pawn_capture(from as int, -1);
            let d = self.pawn_capture(from as int, 1);
            let e = self.pawn_passing(from as int);
            assert(list@ == l0 + a + b + c + d + e);
            assert(l0 + a + b + c + d + e =~= l0 + (a + b + c + d + e));
        }
    }

    /// The legal successors by a move of a pawn of the side to move: for
    /// each pawn by rising square its single step, its double step, its
    /// captures and its capture in passing, a pawn that reaches the last
    /// rank giving one successor for each piece that it may become.
    pub fn generate_pawn_moves(&self) -> (r: LegalMoveVec)
        ensures
            r@ == self.pawn_moves_from(64),
    {
        let mut list = LegalMoveVec::new();
        let black = !self.read_bookkeeping().white_to_move;
        let pawns = self.piece_map(PieceType::Pawn, black);
        let mut from: u8 = 0;
        while from < 64
            invariant
                from <= 64,
                black == !self.white_to_move(),
                pawns == self.pieces(PieceType::Pawn, black),
                list@ == self.pawn_moves_from(from as nat),
            decreases 64 - from,
        {
            if holds(pawns, from) {
                self.add_pawn_moves(from, &mut list);
            }
            from = from + 1;
        }
        list
    }
}

} // verus!
