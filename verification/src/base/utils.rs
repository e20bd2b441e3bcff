//! The position: what stands where, the bookkeeping word, and the single
//! steps out of which a move is made.

use crate::base::bits::bit_of;
use crate::base::bits::half_of;
use crate::base::bits::holds;
use crate::base::bits::join_halves;
use crate::base::bits::lemma_join_halves;
use crate::base::bits::lemma_on_algebra;
use crate::base::bits::lemma_on_square_bit;
use crate::base::bits::on;
use crate::base::bits::plane_half;
use crate::base::bits::plane_join;
use crate::base::bits::square_bit;
use crate::base::defs::Board;
use crate::base::defs::CastleSide;
use crate::base::defs::PieceColour;
use crate::base::defs::PieceType;
use vstd::prelude::*;

verus! {

/// The four castling rights as one number below 16.
pub open spec fn castling_of(
    white_queen: bool,
    white_king: bool,
    black_queen: bool,
    black_king: bool,
) -> int {
    (if white_queen {
        1int
    } else {
        0int
    }) + (if white_king {
        2int
    } else {
        0int
    }) + (if black_queen {
        4int
    } else {
        0int
    }) + (if black_king {
        8int
    } else {
        0int
    })
}

/// The bookkeeping word made of its fields.
pub open spec fn pack_metadata(
    castling: int,
    ep_file: int,
    ep_valid: bool,
    white_to_move: bool,
    half_moves: int,
    full_moves: int,
) -> int {
    castling + 16 * ep_file + (if ep_valid {
        128int
    } else {
        0int
    }) + (if white_to_move {
        256int
    } else {
        0int
    }) + 512 * half_moves + 65536 * full_moves
}

pub proof fn lemma_fields_of_word(
    q1: u32,
    q2: u32,
    q3: u32,
    q4: u32,
    e: u32,
    v: u32,
    w: u32,
    h: u32,
    f: u32,
)
    by (bit_vector)
    requires
        q1 < 2,
        q2 < 2,
        q3 < 2,
        q4 < 2,
        e < 8,
        v < 2,
        w < 2,
        h < 128,
        f < 65536,
    ensures
        q1 + 2 * q2 + 4 * q3 + 8 * q4 + 16 * e + 128 * v + 256 * w + 512 * h + 65536 * f
            < 0x1_0000_0000,
        (q1 + 2 * q2 + 4 * q3 + 8 * q4 + 16 * e + 128 * v + 256 * w + 512 * h + 65536 * f) % 2
            == q1,
        ((q1 + 2 * q2 + 4 * q3 + 8 * q4 + 16 * e + 128 * v + 256 * w + 512 * h + 65536 * f) / 2)
            % 2 == q2,
        ((q1 + 2 * q2 + 4 * q3 + 8 * q4 + 16 * e + 128 * v + 256 * w + 512 * h + 65536 * f) / 4)
            % 2 == q3,
        ((q1 + 2 * q2 + 4 * q3 + 8 * q4 + 16 * e + 128 * v + 256 * w + 512 * h + 65536 * f) / 8)
            % 2 == q4,
        ((q1 + 2 * q2 + 4 * q3 + 8 * q4 + 16 * e + 128 * v + 256 * w + 512 * h + 65536 * f) / 16)
            % 8 == e,
        ((q1 + 2 * q2 + 4 * q3 + 8 * q4 + 16 * e + 128 * v + 256 * w + 512 * h + 65536 * f)
            / 128) % 2 == v,
        ((q1 + 2 * q2 + 4 * q3 + 8 * q4 + 16 * e + 128 * v + 256 * w + 512 * h + 65536 * f)
            / 256) % 2 == w,
        ((q1 + 2 * q2 + 4 * q3 + 8 * q4 + 16 * e + 128 * v + 256 * w + 512 * h + 65536 * f)
            / 512) % 128 == h,
        (q1 + 2 * q2 + 4 * q3 + 8 * q4 + 16 * e + 128 * v + 256 * w + 512 * h + 65536 * f)
            / 65536 == f,
{
}

pub proof fn lemma_word_fields(m: u32)
    by (bit_vector)
    ensures
        m == (m % 2) + 2 * ((m / 2) % 2) + 4 * ((m / 4) % 2) + 8 * ((m / 8) % 2) + 16 * ((m / 16)
            % 8) + 128 * ((m / 128) % 2) + 256 * ((m / 256) % 2) + 512 * ((m / 512) % 128) + 65536
            * (m / 65536),
        m % 16 == (m % 2) + 2 * ((m / 2) % 2) + 4 * ((m / 4) % 2) + 8 * ((m / 8) % 2),
        m / 65536 < 65536,
{
}

impl PieceColour {
    /// The colour to speak of when a side is named by a flag: 0 is white,
    /// 1 is black, anything else both.
    pub open spec fn of_flag(is_black: u8) -> PieceColour {
        if is_black == 0 {
            PieceColour::White
        } else if is_black == 1 {
            PieceColour::Black
        } else {
            PieceColour::Any
        }
    }

    pub fn from_u8(is_black: u8) -> (r: PieceColour)
        ensures
            r == PieceColour::of_flag(is_black),
    {
        match is_black {
            0 => PieceColour::White,
            1 => PieceColour::Black,
            _ => PieceColour::Any,
        }
    }
}

impl Board {
    /// The plane of one kind of piece.
    pub open spec fn plane(&self, kind: PieceType) -> u128 {
        match kind {
            PieceType::King => self.kings,
            PieceType::Queen => self.queens,
            PieceType::Rook => self.rooks,
            PieceType::Bishop => self.bishops,
            PieceType::Knight => self.knights,
            PieceType::Pawn => self.pawns,
        }
    }

    /// This position with the plane of one kind of piece replaced.
    pub open spec fn with_plane(&self, kind: PieceType, plane: u128) -> Board {
        match kind {
            PieceType::King => Board { kings: plane, ..*self },
            PieceType::Queen => Board { queens: plane, ..*self },
            PieceType::Rook => Board { rooks: plane, ..*self },
            PieceType::Bishop => Board { bishops: plane, ..*self },
            PieceType::Knight => Board { knights: plane, ..*self },
            PieceType::Pawn => Board { pawns: plane, ..*self },
        }
    }

    /// The squares on which the pieces of one kind and colour stand.
    pub open spec fn pieces(&self, kind: PieceType, black: bool) -> u64 {
        half_of(self.plane(kind), black)
    }

    /// The squares on which the pieces of one colour stand.
    pub open spec fn side_map(&self, black: bool) -> u64 {
        self.pieces(PieceType::Rook, black) | self.pieces(PieceType::Knight, black) | self.pieces(
            PieceType::Bishop,
            black,
        ) | self.pieces(PieceType::Queen, black) | self.pieces(PieceType::King, black)
            | self.pieces(PieceType::Pawn, black)
    }

    /// The occupied squares.
    pub open spec fn all_map(&self) -> u64 {
        self.side_map(false) | self.side_map(true)
    }

    /// The squares on which the pieces of a colour stand; all occupied
    /// squares for `Any`.
    pub open spec fn colour_map(&self, colour: PieceColour) -> u64 {
        match colour {
            PieceColour::Black => self.side_map(true),
            PieceColour::White => self.side_map(false),
            PieceColour::Any => self.all_map(),
        }
    }

    /// Whether a piece of the given kind and colour stands on `sq`.
    pub open spec fn stands(&self, kind: PieceType, black: bool, sq: int) -> bool {
        on(self.pieces(kind, black), sq)
    }

    /// Whether any piece of the given colour stands on `sq`.
    pub open spec fn side_stands(&self, black: bool, sq: int) -> bool {
        self.stands(PieceType::Rook, black, sq) || self.stands(PieceType::Knight, black, sq)
            || self.stands(PieceType::Bishop, black, sq) || self.stands(
            PieceType::Queen,
            black,
            sq,
        ) || self.stands(PieceType::King, black, sq) || self.stands(PieceType::Pawn, black, sq)
    }

    /// Whether any piece stands on `sq`.
    pub open spec fn occupied(&self, sq: int) -> bool {
        self.side_stands(false, sq) || self.side_stands(true, sq)
    }

    /// The four castling rights as a number below 16.
    pub open spec fn castling_word(&self) -> int {
        self.metadata as int % 16
    }

    /// Whether the given side may still castle on the given wing.
    pub open spec fn may_castle(&self, black: bool, side: CastleSide) -> bool {
        let m = self.metadata as int;
        match (black, side) {
            (false, CastleSide::Queen) => m % 2 == 1,
            (false, CastleSide::King) => (m / 2) % 2 == 1,
            (true, CastleSide::Queen) => (m / 4) % 2 == 1,
            (true, CastleSide::King) => (m / 8) % 2 == 1,
        }
    }

    /// The file stored for a pawn that has just made a double step.
    pub open spec fn en_passant_bits(&self) -> int {
        (self.metadata as int / 16) % 8
    }

    /// Whether the stored en-passant file is meaningful.
    pub open spec fn en_passant_valid(&self) -> bool {
        (self.metadata as int / 128) % 2 == 1
    }

    /// The file of the pawn that has just made a double step, if one has.
    pub open spec fn ep_file(&self) -> Option<int> {
        if self.en_passant_valid() {
            Some(self.en_passant_bits())
        } else {
            None
        }
    }

    /// Whether white is to move.
    pub open spec fn white_to_move(&self) -> bool {
        (self.metadata as int / 256) % 2 == 1
    }

    /// Half-moves since the last capture or pawn move, at most 127.
    pub open spec fn half_moves(&self) -> int {
        (self.metadata as int / 512) % 128
    }

    /// The number of the move, at most 65535.
    pub open spec fn full_moves(&self) -> int {
        self.metadata as int / 65536
    }

    /// The bookkeeping word is made of its fields.
    pub proof fn lemma_metadata_fields(&self)
        ensures
            self.metadata as int == pack_metadata(
                castling_of(
                    self.may_castle(false, CastleSide::Queen),
                    self.may_castle(false, CastleSide::King),
                    self.may_castle(true, CastleSide::Queen),
                    self.may_castle(true, CastleSide::King),
                ),
                self.en_passant_bits(),
                self.en_passant_valid(),
                self.white_to_move(),
                self.half_moves(),
                self.full_moves(),
            ),
            self.castling_word() == castling_of(
                self.may_castle(false, CastleSide::Queen),
                self.may_castle(false, CastleSide::King),
                self.may_castle(true, CastleSide::Queen),
                self.may_castle(true, CastleSide::King),
            ),
            0 <= self.en_passant_bits() < 8,
            0 <= self.half_moves() < 128,
            0 <= self.full_moves() < 65536,
    {
        lemma_word_fields(self.metadata);
    }

    /// This position with `sq` emptied.
    #[verifier::opaque]
    pub open spec fn without_piece(&self, sq: int) -> Board {
        let keep = !square_bit(sq);
        Board {
            rooks: join_halves(
                self.pieces(PieceType::Rook, false) & keep,
                self.pieces(PieceType::Rook, true) & keep,
            ),
            knights: join_halves(
                self.pieces(PieceType::Knight, false) & keep,
                self.pieces(PieceType::Knight, true) & keep,
            ),
            bishops: join_halves(
                self.pieces(PieceType::Bishop, false) & keep,
                self.pieces(PieceType::Bishop, true) & keep,
            ),
            queens: join_halves(
                self.pieces(PieceType::Queen, false) & keep,
                self.pieces(PieceType::Queen, true) & keep,
            ),
            kings: join_halves(
                self.pieces(PieceType::King, false) & keep,
                self.pieces(PieceType::King, true) & keep,
            ),
            pawns: join_halves(
                self.pieces(PieceType::Pawn, false) & keep,
                self.pieces(PieceType::Pawn, true) & keep,
            ),
            ..*self
        }
    }

    /// This position with a piece of the given kind and colour added on `sq`.
    #[verifier::opaque]
    pub open spec fn with_piece(&self, kind: PieceType, black: bool, sq: int) -> Board {
        let white = self.pieces(kind, false) | (if black {
            0u64
        } else {
            square_bit(sq)
        });
        let dark = self.pieces(kind, true) | (if black {
            square_bit(sq)
        } else {
            0u64
        });
        self.with_plane(kind, join_halves(white, dark))
    }

    /// What stands where after `sq` has been emptied: everything that stood
    /// elsewhere, and nothing on `sq`.
    pub proof fn lemma_without_piece(&self, sq: int)
        requires
            0 <= sq < 64,
        ensures
            forall|kind: PieceType, black: bool, t: int|
                0 <= t < 64 ==> (#[trigger] self.without_piece(sq).stands(kind, black, t)) == (
                self.stands(kind, black, t) && t != sq),
            self.without_piece(sq).metadata == self.metadata,
            self.without_piece(sq).latest_move == self.latest_move,
            self.without_piece(sq).eval == self.eval,
    {
        reveal(Board::without_piece);
        let after = self.without_piece(sq);
        let keep = !square_bit(sq);
        assert forall|kind: PieceType, black: bool, t: int| 0 <= t < 64 implies (
        #[trigger] after.stands(kind, black, t)) == (self.stands(kind, black, t) && t != sq) by {
            let w = self.pieces(kind, false);
            let d = self.pieces(kind, true);
            lemma_join_halves(0, w & keep, d & keep);
            lemma_on_algebra(w, keep);
            lemma_on_algebra(d, keep);
            lemma_on_algebra(square_bit(sq), 0);
            lemma_on_square_bit(sq);
            assert(on(keep, t) == !on(square_bit(sq), t));
            if black {
                assert(after.pieces(kind, true) == d & keep);
                assert(on(d & keep, t) == (on(d, t) && on(keep, t)));
            } else {
                assert(after.pieces(kind, false) == w & keep);
                assert(on(w & keep, t) == (on(w, t) && on(keep, t)));
            }
        }
    }

    /// What stands where after a piece has been added on `sq`: everything
    /// that stood before, and the new piece.
    pub proof fn lemma_with_piece(&self, kind: PieceType, black: bool, sq: int)
        requires
            0 <= sq < 64,
        ensures
            forall|k: PieceType, b: bool, t: int|
                0 <= t < 64 ==> (#[trigger] self.with_piece(kind, black, sq).stands(k, b, t)) == (
                self.stands(k, b, t) || (k == kind && b == black && t == sq)),
            self.with_piece(kind, black, sq).metadata == self.metadata,
            self.with_piece(kind, black, sq).latest_move == self.latest_move,
            self.with_piece(kind, black, sq).eval == self.eval,
    {
        reveal(Board::with_piece);
        let after = self.with_piece(kind, black, sq);
        let w = self.pieces(kind, false);
        let d = self.pieces(kind, true);
        let bit = square_bit(sq);
        lemma_on_algebra(w, bit);
        lemma_on_algebra(d, bit);
        lemma_on_algebra(w, 0);
        lemma_on_algebra(d, 0);
        lemma_on_square_bit(sq);
        lemma_join_halves(0, w | bit, d | 0);
        lemma_join_halves(0, w | 0, d | bit);
        assert forall|k: PieceType, b: bool, t: int| 0 <= t < 64 implies (#[trigger] after.stands(
            k,
            b,
            t,
        )) == (self.stands(k, b, t) || (k == kind && b == black && t == sq)) by {
            if k == kind {
                if black {
                    assert(after.pieces(kind, true) == d | bit);
                    assert(after.pieces(kind, false) == w | 0);
                    assert(on(d | bit, t) == (on(d, t) || on(bit, t)));
                    assert(on(w | 0, t) == (on(w, t) || on(0u64, t)));
                } else {
                    assert(after.pieces(kind, false) == w | bit);
                    assert(after.pieces(kind, true) == d | 0);
                    assert(on(w | bit, t) == (on(w, t) || on(bit, t)));
                    assert(on(d | 0, t) == (on(d, t) || on(0u64, t)));
                }
            } else {
                assert(after.plane(k) == self.plane(k));
            }
        }
    }

    /// The squares of a colour, read square by square.
    pub proof fn lemma_side_map(&self, black: bool)
        ensures
            forall|t: int|
                0 <= t < 64 ==> (#[trigger] on(self.side_map(black), t)) == self.side_stands(
                    black,
                    t,
                ),
    {
        let r = self.pieces(PieceType::Rook, black);
        let n = self.pieces(PieceType::Knight, black);
        let b = self.pieces(PieceType::Bishop, black);
        let q = self.pieces(PieceType::Queen, black);
        let k = self.pieces(PieceType::King, black);
        let p = self.pieces(PieceType::Pawn, black);
        lemma_on_algebra(r, n);
        lemma_on_algebra(r | n, b);
        lemma_on_algebra(r | n | b, q);
        lemma_on_algebra(r | n | b | q, k);
        lemma_on_algebra(r | n | b | q | k, p);
        assert forall|t: int| 0 <= t < 64 implies (#[trigger] on(self.side_map(black), t))
            == self.side_stands(black, t) by {
            assert(on(r | n | b | q | k | p, t) == (on(r | n | b | q | k, t) || on(p, t)));
            assert(on(r | n | b | q | k, t) == (on(r | n | b | q, t) || on(k, t)));
            assert(on(r | n | b | q, t) == (on(r | n | b, t) || on(q, t)));
            assert(on(r | n | b, t) == (on(r | n, t) || on(b, t)));
            assert(on(r | n, t) == (on(r, t) || on(n, t)));
        }
    }

    /// The occupied squares, read square by square.
    pub proof fn lemma_all_map(&self)
        ensures
            forall|t: int| 0 <= t < 64 ==> (#[trigger] on(self.all_map(), t)) == self.occupied(t),
    {
        self.lemma_side_map(false);
        self.lemma_side_map(true);
        lemma_on_algebra(self.side_map(false), self.side_map(true));
        assert forall|t: int| 0 <= t < 64 implies (#[trigger] on(self.all_map(), t))
            == self.occupied(t) by {
            assert(on(self.side_map(false) | self.side_map(true), t) == (on(
                self.side_map(false),
                t,
            ) || on(self.side_map(true), t)));
        }
    }

    /// The squares on which the pieces of one kind and colour stand.
    pub fn piece_map(&self, kind: PieceType, black: bool) -> (r: u64)
        ensures
            r == self.pieces(kind, black),
    {
        let plane = match kind {
            PieceType::King => self.kings,
            PieceType::Queen => self.queens,
            PieceType::Rook => self.rooks,
            PieceType::Bishop => self.bishops,
            PieceType::Knight => self.knights,
            PieceType::Pawn => self.pawns,
        };
        plane_half(plane, black)
    }

    fn side_pieces(&self, black: bool) -> (r: u64)
        ensures
            r == self.side_map(black),
    {
        plane_half(self.rooks, black) | plane_half(self.knights, black) | plane_half(
            self.bishops,
            black,
        ) | plane_half(self.queens, black) | plane_half(self.kings, black) | plane_half(
            self.pawns,
            black,
        )
    }

    /// The squares on which the pieces of a colour stand; all occupied
    /// squares for `Any`.
    pub fn consolidated_piece_map(&self, colour: &PieceColour) -> (r: u64)
        ensures
            r == self.colour_map(*colour),
    {
        match colour {
            PieceColour::Black => self.side_pieces(true),
            PieceColour::White => self.side_pieces(false),
            PieceColour::Any => self.side_pieces(false) | self.side_pieces(true),
        }
    }

    /// The squares on which the pieces of a colour stand; all occupied
    /// squares for `Any`.
    pub fn occupancy(&self, colour: PieceColour) -> (r: u64)
        ensures
            r == self.colour_map(colour),
    {
        self.consolidated_piece_map(&colour)
    }

    /// Empties square `index`, whatever stands there, and says whether
    /// anything did.
    pub fn remove_piece(&mut self, index: u8) -> (removed: bool)
        requires
            index < 64,
        ensures
            *final(self) == old(self).without_piece(index as int),
            removed == old(self).occupied(index as int),
    {
        reveal(Board::without_piece);
        proof {
            self.lemma_all_map();
            assert(on(self.all_map(), index as int) == self.occupied(index as int));
        }
        let occupied = holds(self.side_pieces(false) | self.side_pieces(true), index);
        let keep: u64 = !bit_of(index);
        self.rooks = plane_join(
            plane_half(self.rooks, false) & keep,
            plane_half(self.rooks, true) & keep,
        );
        self.knights = plane_join(
            plane_half(self.knights, false) & keep,
            plane_half(self.knights, true) & keep,
        );
        self.bishops = plane_join(
            plane_half(self.bishops, false) & keep,
            plane_half(self.bishops, true) & keep,
        );
        self.queens = plane_join(
            plane_half(self.queens, false) & keep,
            plane_half(self.queens, true) & keep,
        );
        self.kings = plane_join(
            plane_half(self.kings, false) & keep,
            plane_half(self.kings, true) & keep,
        );
        self.pawns = plane_join(
            plane_half(self.pawns, false) & keep,
            plane_half(self.pawns, true) & keep,
        );
        occupied
    }

    /// Adds a piece of the given kind and colour on square `index`.
    pub fn put_piece(&mut self, kind: PieceType, black: bool, index: u8)
        requires
            index < 64,
        ensures
            *final(self) == old(self).with_piece(kind, black, index as int),
    {
        reveal(Board::with_piece);
        let bit = bit_of(index);
        let plane = match kind {
            PieceType::King => self.kings,
            PieceType::Queen => self.queens,
            PieceType::Rook => self.rooks,
            PieceType::Bishop => self.bishops,
            PieceType::Knight => self.knights,
            PieceType::Pawn => self.pawns,
        };
        let white = plane_half(plane, false) | (if black {
            0u64
        } else {
            bit
        });
        let dark = plane_half(plane, true) | (if black {
            bit
        } else {
            0u64
        });
        let joined = plane_join(white, dark);
        match kind {
            PieceType::King => {
                self.kings = joined;
            },
            PieceType::Queen => {
                self.queens = joined;
            },
            PieceType::Rook => {
                self.rooks = joined;
            },
            PieceType::Bishop => {
                self.bishops = joined;
            },
            PieceType::Knight => {
                self.knights = joined;
            },
            PieceType::Pawn => {
                self.pawns = joined;
            },
        }
    }
}

} // verus!
