//! What holds of every position that can arise in play, and how the single
//! steps of a move keep it.

use crate::base::defs::Board;
use crate::base::defs::CastleSide;
use crate::base::defs::PieceColour;
use crate::base::defs::PieceType;
use crate::base::meta::Bookkeeping;
use vstd::prelude::*;

verus! {

impl Board {
    /// At most one piece stands on `sq`.
    pub open spec fn single(&self, sq: int) -> bool {
        forall|k1: PieceType, c1: bool, k2: PieceType, c2: bool|
            #![trigger self.stands(k1, c1, sq), self.stands(k2, c2, sq)]
            self.stands(k1, c1, sq) && self.stands(k2, c2, sq) ==> k1 == k2 && c1 == c2
    }

    /// No two pieces stand on one square.
    pub open spec fn tidy(&self) -> bool {
        forall|sq: int| 0 <= sq < 64 ==> #[trigger] self.single(sq)
    }

    /// The given colour has its only king on `sq`.
    pub open spec fn king_on(&self, black: bool, sq: int) -> bool {
        0 <= sq < 64 && forall|t: int|
            0 <= t < 64 ==> (#[trigger] self.stands(PieceType::King, black, t)) == (t == sq)
    }

    /// The given colour has exactly one king.
    pub open spec fn one_king(&self, black: bool) -> bool {
        exists|sq: int| self.king_on(black, sq)
    }

    /// The en-passant file is kept at nought while it means nothing.
    pub open spec fn plain_en_passant(&self) -> bool {
        !self.en_passant_valid() ==> self.en_passant_bits() == 0
    }

    /// No two pieces stand on one square, each side has exactly one king,
    /// and the en-passant file is kept at nought while it means nothing.
    pub open spec fn well_formed(&self) -> bool {
        self.tidy() && self.one_king(false) && self.one_king(true) && self.plain_en_passant()
    }

    /// Every castling right of this position is one of `before`.
    pub open spec fn rights_within(&self, before: &Board) -> bool {
        forall|black: bool, side: CastleSide|
            #[trigger] self.may_castle(black, side) ==> before.may_castle(black, side)
    }

    /// The same pieces stand on the same squares in both positions.
    pub open spec fn same_pieces(&self, other: &Board) -> bool {
        self.rooks == other.rooks && self.knights == other.knights && self.bishops
            == other.bishops && self.queens == other.queens && self.kings == other.kings
            && self.pawns == other.pawns
    }

    /// What is read from the bookkeeping word fits into it.
    pub proof fn lemma_bookkeeping_fits(&self)
        ensures
            self.bookkeeping().fits(),
    {
        self.lemma_metadata_fields();
    }

    /// Moving the clocks on touches no piece, no castling right and not the
    /// en-passant file, and hands the move to the other side.
    pub proof fn lemma_ticked(&self, half_reset: bool, is_black: bool)
        ensures
            self.ticked(half_reset, is_black).same_pieces(self),
            self.ticked(half_reset, is_black).white_to_move() == !self.white_to_move(),
            self.ticked(half_reset, is_black).en_passant_valid() == self.en_passant_valid(),
            self.ticked(half_reset, is_black).en_passant_bits() == self.en_passant_bits(),
            forall|black: bool, side: CastleSide|
                #[trigger] self.ticked(half_reset, is_black).may_castle(black, side)
                    == self.may_castle(black, side),
    {
        reveal(Board::ticked);
        self.lemma_bookkeeping_fits();
        let f = self.bookkeeping();
        let g = Bookkeeping {
            white_to_move: !f.white_to_move,
            half_moves: if half_reset {
                0
            } else if f.half_moves < 127 {
                (f.half_moves + 1) as u32
            } else {
                127
            },
            full_moves: if is_black && f.full_moves < 65535 {
                (f.full_moves + 1) as u32
            } else {
                f.full_moves
            },
            ..f
        };
        self.lemma_bookkeeping(g);
        let after = self.ticked(half_reset, is_black);
        assert(after == self.with_bookkeeping(g));
        assert(after.bookkeeping() == g);
        assert forall|black: bool, side: CastleSide| #[trigger]
            after.may_castle(black, side) == self.may_castle(black, side) by {
            match (black, side) {
                (false, CastleSide::Queen) => {
                    assert(after.bookkeeping().white_queen_side == g.white_queen_side);
                },
                (false, CastleSide::King) => {
                    assert(after.bookkeeping().white_king_side == g.white_king_side);
                },
                (true, CastleSide::Queen) => {
                    assert(after.bookkeeping().black_queen_side == g.black_queen_side);
                },
                (true, CastleSide::King) => {
                    assert(after.bookkeeping().black_king_side == g.black_king_side);
                },
            }
        }
        assert(after.bookkeeping().ep_valid == g.ep_valid);
        assert(after.bookkeeping().ep_file == g.ep_file);
        assert(after.bookkeeping().white_to_move == g.white_to_move);
    }

    /// Setting the en-passant file touches no piece, no castling right and
    /// not the side to move.
    pub proof fn lemma_with_en_passant(&self, x: Option<u8>)
        requires
            x matches Some(file) ==> file < 8,
        ensures
            self.with_en_passant(x).same_pieces(self),
            self.with_en_passant(x).white_to_move() == self.white_to_move(),
            self.with_en_passant(x).en_passant_valid() == x is Some,
            self.with_en_passant(x).en_passant_bits() == (match x {
                Some(file) => file as int,
                None => 0,
            }),
            forall|black: bool, side: CastleSide|
                #[trigger] self.with_en_passant(x).may_castle(black, side) == self.may_castle(
                    black,
                    side,
                ),
    {
        reveal(Board::with_en_passant);
        self.lemma_bookkeeping_fits();
        let f = self.bookkeeping();
        let g = match x {
            Some(file) => Bookkeeping { ep_file: file, ep_valid: true, ..f },
            None => Bookkeeping { ep_file: 0, ep_valid: false, ..f },
        };
        self.lemma_bookkeeping(g);
        let after = self.with_en_passant(x);
        assert(after == self.with_bookkeeping(g));
        assert(after.bookkeeping() == g);
        assert forall|black: bool, side: CastleSide| #[trigger]
            after.may_castle(black, side) == self.may_castle(black, side) by {
            match (black, side) {
                (false, CastleSide::Queen) => {
                    assert(after.bookkeeping().white_queen_side == g.white_queen_side);
                },
                (false, CastleSide::King) => {
                    assert(after.bookkeeping().white_king_side == g.white_king_side);
                },
                (true, CastleSide::Queen) => {
                    assert(after.bookkeeping().black_queen_side == g.black_queen_side);
                },
                (true, CastleSide::King) => {
                    assert(after.bookkeeping().black_king_side == g.black_king_side);
                },
            }
        }
        assert(after.bookkeeping().ep_valid == g.ep_valid);
        assert(after.bookkeeping().ep_file == g.ep_file);
        assert(after.bookkeeping().white_to_move == g.white_to_move);
    }

    /// Taking a castling right away touches no piece, not the side to move
    /// and not the en-passant file, gives no right, and takes the one that
    /// is named.
    pub proof fn lemma_without_castling(&self, side: CastleSide, colour: PieceColour)
        ensures
            self.without_castling(side, colour).same_pieces(self),
            self.without_castling(side, colour).white_to_move() == self.white_to_move(),
            self.without_castling(side, colour).en_passant_valid() == self.en_passant_valid(),
            self.without_castling(side, colour).en_passant_bits() == self.en_passant_bits(),
            self.without_castling(side, colour).rights_within(self),
            colour != PieceColour::Any ==> !self.without_castling(side, colour).may_castle(
                colour == PieceColour::Black,
                side,
            ),
    {
        reveal(Board::without_castling);
        self.lemma_bookkeeping_fits();
        let f = self.bookkeeping();
        let after = self.without_castling(side, colour);
        if colour != PieceColour::Any {
            let g = match (colour, side) {
                (PieceColour::White, CastleSide::Queen) => Bookkeeping {
                    white_queen_side: false,
                    ..f
                },
                (PieceColour::White, CastleSide::King) => Bookkeeping {
                    white_king_side: false,
                    ..f
                },
                (PieceColour::Black, CastleSide::Queen) => Bookkeeping {
                    black_queen_side: false,
                    ..f
                },
                _ => Bookkeeping { black_king_side: false, ..f },
            };
            self.lemma_bookkeeping(g);
            assert(after == self.with_bookkeeping(g));
            assert(after.bookkeeping() == g);
            assert forall|black: bool, s: CastleSide| #[trigger]
                after.may_castle(black, s) implies self.may_castle(black, s) by {
                match (black, s) {
                    (false, CastleSide::Queen) => {
                        assert(after.bookkeeping().white_queen_side == g.white_queen_side);
                    },
                    (false, CastleSide::King) => {
                        assert(after.bookkeeping().white_king_side == g.white_king_side);
                    },
                    (true, CastleSide::Queen) => {
                        assert(after.bookkeeping().black_queen_side == g.black_queen_side);
                    },
                    (true, CastleSide::King) => {
                        assert(after.bookkeeping().black_king_side == g.black_king_side);
                    },
                }
            }
            assert(after.bookkeeping().ep_valid == g.ep_valid);
            assert(after.bookkeeping().ep_file == g.ep_file);
            assert(after.bookkeeping().white_to_move == g.white_to_move);
            match (colour, side) {
                (PieceColour::White, CastleSide::Queen) => {
                    assert(after.bookkeeping().white_queen_side == g.white_queen_side);
                },
                (PieceColour::White, CastleSide::King) => {
                    assert(after.bookkeeping().white_king_side == g.white_king_side);
                },
                (PieceColour::Black, CastleSide::Queen) => {
                    assert(after.bookkeeping().black_queen_side == g.black_queen_side);
                },
                _ => {
                    assert(after.bookkeeping().black_king_side == g.black_king_side);
                },
            }
        }
    }

    /// Taking the castling right of a rook away touches no piece, not the
    /// side to move and not the en-passant file, and gives no right.
    pub proof fn lemma_without_rook_right(&self, colour: PieceColour, sq: int)
        ensures
            self.without_rook_right(colour, sq).same_pieces(self),
            self.without_rook_right(colour, sq).white_to_move() == self.white_to_move(),
            self.without_rook_right(colour, sq).en_passant_valid() == self.en_passant_valid(),
            self.without_rook_right(colour, sq).en_passant_bits() == self.en_passant_bits(),
            self.without_rook_right(colour, sq).rights_within(self),
    {
        reveal(Board::without_rook_right);
        self.lemma_without_castling(CastleSide::King, colour);
        self.lemma_without_castling(CastleSide::Queen, colour);
    }
}

} // verus!
