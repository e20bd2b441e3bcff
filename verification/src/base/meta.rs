//! The bookkeeping word of a position: castling rights, the en-passant
//! file, the side to move and the two move counters.

use crate::base::bits::holds;
use crate::base::bits::on;
use crate::base::bits::plane_half;
use crate::base::defs::Board;
use crate::base::defs::CastleSide;
use crate::base::defs::PieceColour;
use crate::base::defs::PieceType;
use crate::base::utils::castling_of;
use crate::base::utils::lemma_fields_of_word;
use crate::base::utils::pack_metadata;
use vstd::prelude::*;

verus! {

/// The largest half-move clock that the bookkeeping word can hold.
pub const MAX_HALF_MOVES: u32 = 127;

/// The largest full-move number that the bookkeeping word can hold.
pub const MAX_FULL_MOVES: u32 = 65535;

/// The fields of a bookkeeping word, taken apart.
pub struct Bookkeeping {
    pub white_queen_side: bool,
    pub white_king_side: bool,
    pub black_queen_side: bool,
    pub black_king_side: bool,
    pub ep_file: u8,
    pub ep_valid: bool,
    pub white_to_move: bool,
    pub half_moves: u32,
    pub full_moves: u32,
}

impl Bookkeeping {
    /// The fields are within what the word can hold.
    pub open spec fn fits(&self) -> bool {
        self.ep_file < 8 && self.half_moves <= MAX_HALF_MOVES && self.full_moves <= MAX_FULL_MOVES
    }

    /// The word that holds these fields.
    pub open spec fn word(&self) -> int {
        pack_metadata(
            castling_of(
                self.white_queen_side,
                self.white_king_side,
                self.black_queen_side,
                self.black_king_side,
            ),
            self.ep_file as int,
            self.ep_valid,
            self.white_to_move,
            self.half_moves as int,
            self.full_moves as int,
        )
    }
}

impl Board {
    /// The fields of the bookkeeping word.
    pub open spec fn bookkeeping(&self) -> Bookkeeping {
        Bookkeeping {
            white_queen_side: self.may_castle(false, CastleSide::Queen),
            white_king_side: self.may_castle(false, CastleSide::King),
            black_queen_side: self.may_castle(true, CastleSide::Queen),
            black_king_side: self.may_castle(true, CastleSide::King),
            ep_file: self.en_passant_bits() as u8,
            ep_valid: self.en_passant_valid(),
            white_to_move: self.white_to_move(),
            half_moves: self.half_moves() as u32,
            full_moves: self.full_moves() as u32,
        }
    }

    /// This position with other bookkeeping.
    pub open spec fn with_bookkeeping(&self, fields: Bookkeeping) -> Board {
        Board { metadata: fields.word() as u32, ..*self }
    }

    /// Writing fields and reading them again gives the same fields, and
    /// writing what was read changes nothing.
    pub proof fn lemma_bookkeeping(&self, fields: Bookkeeping)
        requires
            fields.fits(),
        ensures
            self.with_bookkeeping(fields).bookkeeping() == fields,
            0 <= fields.word() < 0x1_0000_0000,
            self.bookkeeping().fits(),
            self.with_bookkeeping(self.bookkeeping()) == *self,
    {
        lemma_fields_of_word(
            if fields.white_queen_side {
                1
            } else {
                0
            },
            if fields.white_king_side {
                1
            } else {
                0
            },
            if fields.black_queen_side {
                1
            } else {
                0
            },
            if fields.black_king_side {
                1
            } else {
                0
            },
            fields.ep_file as u32,
            if fields.ep_valid {
                1
            } else {
                0
            },
            if fields.white_to_move {
                1
            } else {
                0
            },
            fields.half_moves,
            fields.full_moves,
        );
        self.lemma_metadata_fields();
    }

    /// Takes the bookkeeping word apart.
    pub fn read_bookkeeping(&self) -> (r: Bookkeeping)
        ensures
            r == self.bookkeeping(),
            r.fits(),
    {
        let m = self.metadata;
        proof {
            self.lemma_metadata_fields();
        }
        Bookkeeping {
            white_queen_side: m % 2 == 1,
            white_king_side: (m / 2) % 2 == 1,
            black_queen_side: (m / 4) % 2 == 1,
            black_king_side: (m / 8) % 2 == 1,
            ep_file: ((m / 16) % 8) as u8,
            ep_valid: (m / 128) % 2 == 1,
            white_to_move: (m / 256) % 2 == 1,
            half_moves: (m / 512) % 128,
            full_moves: m / 65536,
        }
    }

    /// Puts a bookkeeping word together.
    pub fn write_bookkeeping(&mut self, fields: &Bookkeeping)
        requires
            fields.fits(),
        ensures
            *final(self) == old(self).with_bookkeeping(*fields),
            final(self).bookkeeping() == *fields,
    {
        proof {
            self.lemma_bookkeeping(*fields);
        }
        let mut m: u32 = 0;
        if fields.white_queen_side {
            m = m + 1;
        }
        if fields.white_king_side {
            m = m + 2;
        }
        if fields.black_queen_side {
            m = m + 4;
        }
        if fields.black_king_side {
            m = m + 8;
        }
        m = m + 16 * (fields.ep_file as u32);
        if fields.ep_valid {
            m = m + 128;
        }
        if fields.white_to_move {
            m = m + 256;
        }
        m = m + 512 * fields.half_moves;
        m = m + 65536 * fields.full_moves;
        self.metadata = m;
    }

    /// The position after the clocks have been moved on: the half-move clock
    /// starts again at 0 or goes up by one, the full-move number goes up by
    /// one after a move of black, and the other side is to move. Both
    /// counters stay at their largest value once they have reached it.
    #[verifier::opaque]
    pub open spec fn ticked(&self, half_reset: bool, is_black: bool) -> Board {
        let f = self.bookkeeping();
        self.with_bookkeeping(
            Bookkeeping {
                white_to_move: !f.white_to_move,
                half_moves: if half_reset {
                    0
                } else if f.half_moves < MAX_HALF_MOVES {
                    (f.half_moves + 1) as u32
                } else {
                    MAX_HALF_MOVES
                },
                full_moves: if is_black && f.full_moves < MAX_FULL_MOVES {
                    (f.full_moves + 1) as u32
                } else {
                    f.full_moves
                },
                ..f
            },
        )
    }

    /// Moves the clocks on after a move and hands the move to the other
    /// side.
    pub fn update_tickers(&mut self, half_reset: bool, is_black: bool)
        ensures
            *final(self) == old(self).ticked(half_reset, is_black),
    {
        reveal(Board::ticked);
        let mut f = self.read_bookkeeping();
        f.white_to_move = !f.white_to_move;
        f.half_moves = if half_reset {
            0
        } else if f.half_moves < MAX_HALF_MOVES {
            f.half_moves + 1
        } else {
            MAX_HALF_MOVES
        };
        if is_black && f.full_moves < MAX_FULL_MOVES {
            f.full_moves = f.full_moves + 1;
        }
        self.write_bookkeeping(&f);
    }

    /// The position without one castling right. For `Any` nothing changes.
    #[verifier::opaque]
    pub open spec fn without_castling(&self, side: CastleSide, colour: PieceColour) -> Board {
        let f = self.bookkeeping();
        match (colour, side) {
            (PieceColour::White, CastleSide::Queen) => self.with_bookkeeping(
                Bookkeeping { white_queen_side: false, ..f },
            ),
            (PieceColour::White, CastleSide::King) => self.with_bookkeeping(
                Bookkeeping { white_king_side: false, ..f },
            ),
            (PieceColour::Black, CastleSide::Queen) => self.with_bookkeeping(
                Bookkeeping { black_queen_side: false, ..f },
            ),
            (PieceColour::Black, CastleSide::King) => self.with_bookkeeping(
                Bookkeeping { black_king_side: false, ..f },
            ),
            (PieceColour::Any, _) => *self,
        }
    }

    /// Takes one castling right away.
    pub fn remove_castling_bits(&mut self, side: CastleSide, colour: &PieceColour)
        ensures
            *final(self) == old(self).without_castling(side, *colour),
    {
        reveal(Board::without_castling);
        let mut f = self.read_bookkeeping();
        match colour {
            PieceColour::White => match side {
                CastleSide::Queen => {
                    f.white_queen_side = false;
                },
                CastleSide::King => {
                    f.white_king_side = false;
                },
            },
            PieceColour::Black => match side {
                CastleSide::Queen => {
                    f.black_queen_side = false;
                },
                CastleSide::King => {
                    f.black_king_side = false;
                },
            },
            PieceColour::Any => {
                return ;
            },
        }
        self.write_bookkeeping(&f);
    }

    /// The position without the castling right that belongs to the rook of
    /// the given colour on `sq`, where such a rook stands on its home corner.
    #[verifier::opaque]
    pub open spec fn without_rook_right(&self, colour: PieceColour, sq: int) -> Board {
        match colour {
            PieceColour::Black => if self.stands(PieceType::Rook, true, sq) && sq == 56 {
                self.without_castling(CastleSide::Queen, colour)
            } else if self.stands(PieceType::Rook, true, sq) && sq == 63 {
                self.without_castling(CastleSide::King, colour)
            } else {
                *self
            },
            PieceColour::White => if self.stands(PieceType::Rook, false, sq) && sq == 0 {
                self.without_castling(CastleSide::Queen, colour)
            } else if self.stands(PieceType::Rook, false, sq) && sq == 7 {
                self.without_castling(CastleSide::King, colour)
            } else {
                *self
            },
            PieceColour::Any => *self,
        }
    }

    /// Takes away the castling right of a rook that stands on its home
    /// corner `index`, before that rook moves or is captured.
    pub fn remove_castling_for_rook(&mut self, colour: &PieceColour, index: u64)
        requires
            index < 64,
        ensures
            *final(self) == old(self).without_rook_right(*colour, index as int),
    {
        reveal(Board::without_rook_right);
        match colour {
            PieceColour::Black => {
                if holds(plane_half(self.rooks, true), index as u8) {
                    if index == 56 {
                        self.remove_castling_bits(CastleSide::Queen, colour);
                    } else if index == 63 {
                        self.remove_castling_bits(CastleSide::King, colour);
                    }
                }
            },
            PieceColour::White => {
                if holds(plane_half(self.rooks, false), index as u8) {
                    if index == 0 {
                        self.remove_castling_bits(CastleSide::Queen, colour);
                    } else if index == 7 {
                        self.remove_castling_bits(CastleSide::King, colour);
                    }
                }
            },
            PieceColour::Any => {},
        }
    }

    /// The position with the en-passant file set to `x`, or cleared.
    #[verifier::opaque]
    pub open spec fn with_en_passant(&self, x: Option<u8>) -> Board {
        let f = self.bookkeeping();
        match x {
            Some(file) => self.with_bookkeeping(Bookkeeping { ep_file: file, ep_valid: true, ..f }),
            None => self.with_bookkeeping(Bookkeeping { ep_file: 0, ep_valid: false, ..f }),
        }
    }

    /// Records the file of a pawn that has just made a double step, or that
    /// none has.
    pub fn set_enpassant(&mut self, x: Option<u8>)
        requires
            x matches Some(file) ==> file < 8,
        ensures
            *final(self) == old(self).with_en_passant(x),
    {
        reveal(Board::with_en_passant);
        let mut f = self.read_bookkeeping();
        match x {
            Some(file) => {
                f.ep_file = file;
                f.ep_valid = true;
            },
            None => {
                f.ep_file = 0;
                f.ep_valid = false;
            },
        }
        self.write_bookkeeping(&f);
    }

    /// The file of the pawn that has just made a double step, if one has.
    pub fn get_enpassant(&self) -> (r: Option<i8>)
        ensures
            r is Some == self.en_passant_valid(),
            r matches Some(file) ==> file as int == self.en_passant_bits(),
    {
        let f = self.read_bookkeeping();
        if f.ep_valid {
            Some(f.ep_file as i8)
        } else {
            None
        }
    }

    /// The side that is to move.
    pub fn side_to_move(&self) -> (r: PieceColour)
        ensures
            r == (if self.white_to_move() {
                PieceColour::White
            } else {
                PieceColour::Black
            }),
    {
        if self.read_bookkeeping().white_to_move {
            PieceColour::White
        } else {
            PieceColour::Black
        }
    }

    /// The four castling rights as a number below 16: 1 for white's queen
    /// side, 2 for white's king side, 4 and 8 for black's.
    pub fn castling_rights(&self) -> (r: u8)
        ensures
            r as int == self.castling_word(),
    {
        (self.metadata % 16) as u8
    }

    /// The file of the pawn that has just made a double step, if one has.
    pub fn en_passant_file(&self) -> (r: Option<u8>)
        ensures
            r is Some == self.en_passant_valid(),
            r matches Some(file) ==> file as int == self.en_passant_bits(),
    {
        let f = self.read_bookkeeping();
        if f.ep_valid {
            Some(f.ep_file)
        } else {
            None
        }
    }

    /// Half-moves since the last capture or pawn move.
    pub fn half_move_clock(&self) -> (r: u32)
        ensures
            r as int == self.half_moves(),
    {
        (self.metadata / 512) % 128
    }

    /// The number of the move.
    pub fn full_move_number(&self) -> (r: u32)
        ensures
            r as int == self.full_moves(),
    {
        self.metadata / 65536
    }
}

} // verus!
