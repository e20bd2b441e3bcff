//! Successor positions: how a position changes when a piece steps from one
//! square to another, and the list in which successors are collected.

use crate::base::attacks::bishop_reach;
use crate::base::attacks::king_step;
use crate::base::attacks::knight_step;
use crate::base::attacks::queen_reach;
use crate::base::attacks::rook_reach;
use crate::base::bits::holds;
use crate::base::bits::lemma_on_algebra;
use crate::base::bits::on;
use crate::base::defs::Board;
use crate::base::defs::CastleSide;
use crate::base::defs::LegalMoveVec;
use crate::base::defs::PieceColour;
use crate::base::defs::PieceType;
use vstd::prelude::*;

verus! {

/// The colour that a flag stands for.
pub open spec fn colour_of(black: bool) -> PieceColour {
    if black {
        PieceColour::Black
    } else {
        PieceColour::White
    }
}

/// The tag of a move from `from` to `to` that promotes nothing.
pub open spec fn move_tag(from: int, to: int) -> int {
    64 * from + to
}

/// The number that stands for a kind of piece in the tag of a promotion.
pub open spec fn promotion_number(kind: PieceType) -> int {
    match kind {
        PieceType::Queen => 0,
        PieceType::Rook => 1,
        PieceType::Bishop => 2,
        _ => 3,
    }
}

/// The colour that a flag stands for.
pub fn side_colour(black: bool) -> (r: PieceColour)
    ensures
        r == colour_of(black),
{
    if black {
        PieceColour::Black
    } else {
        PieceColour::White
    }
}

impl Board {
    /// This position with its evaluation cache filled.
    pub open spec fn scored(&self) -> Board {
        Board { eval: self.static_eval() as i32, ..*self }
    }

    /// This position with another move tag.
    pub open spec fn tagged(&self, tag: int) -> Board {
        Board { latest_move: tag as u32, ..*self }
    }

    /// The list that holds this position alone, with its evaluation, where
    /// it is legal, and the empty list where it is not.
    pub open spec fn kept(&self) -> Seq<Board> {
        if self.legal() {
            seq![self.scored()]
        } else {
            Seq::empty()
        }
    }

    /// The position after a piece of the given kind of the side to move has
    /// gone from `from` to `to` and taken what stood there. A rook that
    /// leaves or is taken on its home corner costs its side the castling
    /// right of that wing, a king that moves costs its side both. The
    /// half-move clock starts again after a capture or a pawn's move, the
    /// en-passant file is cleared and the move is recorded.
    #[verifier::opaque]
    pub open spec fn after_step(&self, kind: PieceType, from: int, to: int) -> Board {
        let black = !self.white_to_move();
        let own = colour_of(black);
        let b0 = if kind == PieceType::Rook {
            self.without_rook_right(own, from)
        } else {
            *self
        };
        let b1 = b0.without_piece(from).without_rook_right(colour_of(!black), to);
        let b2 = b1.without_piece(to).with_piece(kind, black, to).ticked(
            b1.occupied(to) || kind == PieceType::Pawn,
            black,
        ).with_en_passant(None);
        let b3 = if kind == PieceType::King {
            b2.without_castling(CastleSide::King, own).without_castling(CastleSide::Queen, own)
        } else {
            b2
        };
        b3.tagged(move_tag(from, to))
    }

    /// Whether a piece of the given kind of the side to move on `from` may
    /// step to `to`: it bears on `to`, no piece of its own side stands there,
    /// and neither does the king of the other side, which is never taken.
    /// Pawns do not move this way.
    #[verifier::opaque]
    pub open spec fn may_step(&self, kind: PieceType, from: int, to: int) -> bool {
        let occ = self.all_map();
        (match kind {
            PieceType::Knight => knight_step(from, to),
            PieceType::Bishop => bishop_reach(occ, from, to),
            PieceType::Rook => rook_reach(occ, from, to),
            PieceType::Queen => queen_reach(occ, from, to),
            PieceType::King => king_step(from, to),
            PieceType::Pawn => false,
        }) && !self.side_stands(!self.white_to_move(), to) && !self.stands(
            PieceType::King,
            self.white_to_move(),
            to,
        )
    }

    /// The legal successors by a step of the piece of the given kind on
    /// `from` to a square below `n`, by rising square.
    pub open spec fn steps_to(&self, kind: PieceType, from: int, n: nat) -> Seq<Board>
        decreases n,
    {
        if n == 0 {
            Seq::empty()
        } else {
            let rest = self.steps_to(kind, from, (n - 1) as nat);
            if self.may_step(kind, from, n - 1) {
                rest + self.after_step(kind, from, n - 1).kept()
            } else {
                rest
            }
        }
    }

    /// The legal successors by a step of a piece of the given kind of the
    /// side to move that stands on a square below `n`, by rising square.
    pub open spec fn steps_from(&self, kind: PieceType, n: nat) -> Seq<Board>
        decreases n,
    {
        if n == 0 {
            Seq::empty()
        } else {
            let rest = self.steps_from(kind, (n - 1) as nat);
            if self.stands(kind, !self.white_to_move(), n - 1) {
                rest + self.steps_to(kind, n - 1, 64)
            } else {
                rest
            }
        }
    }

    /// The position after a piece of the given kind of the side to move has
    /// gone from `from` to `to`.
    pub fn step(&self, kind: PieceType, from: u8, to: u8) -> (r: Board)
        requires
            from < 64,
            to < 64,
        ensures
            r == self.after_step(kind, from as int, to as int),
            r.latest_move == move_tag(from as int, to as int),
    {
        reveal(Board::after_step);
        let black = !self.read_bookkeeping().white_to_move;
        let own = side_colour(black);
        let other = side_colour(!black);
        let mut next: Board = *self;
        match kind {
            PieceType::Rook => {
                next.remove_castling_for_rook(&own, from as u64);
            },
            _ => {},
        }
        next.remove_piece(from);
        next.remove_castling_for_rook(&other, to as u64);
        let captured = next.remove_piece(to);
        next.put_piece(kind, black, to);
        let is_pawn = match kind {
            PieceType::Pawn => true,
            _ => false,
        };
        next.update_tickers(captured || is_pawn, black);
        next.set_enpassant(None);
        match kind {
            PieceType::King => {
                next.remove_castling_bits(CastleSide::King, &own);
                next.remove_castling_bits(CastleSide::Queen, &own);
            },
            _ => {},
        }
        next.latest_move = 64 * (from as u32) + (to as u32);
        next
    }
}

impl Board {
    /// The squares to which the piece of the given kind of the side to move
    /// on `from` may step.
    pub fn step_map(&self, kind: PieceType, from: u8) -> (r: u64)
        requires
            from < 64,
        ensures
            forall|t: int|
                0 <= t < 64 ==> (#[trigger] on(r, t)) == self.may_step(kind, from as int, t),
    {
        let black = !self.read_bookkeeping().white_to_move;
        let flag: u8 = if black {
            1
        } else {
            0
        };
        let pos: i8 = (63 - from) as i8;
        let other_king = self.piece_map(PieceType::King, !black);
        let reach = match kind {
            PieceType::Knight => self.get_knight_move_bit_map(pos, flag),
            PieceType::Bishop => self.get_bishop_move_bit_map(pos, flag),
            PieceType::Rook => self.get_rook_move_bit_map(pos, flag),
            PieceType::Queen => self.get_queen_move_bit_map(pos, flag),
            PieceType::King => self.get_king_attack_bit_map(pos, flag),
            PieceType::Pawn => 0,
        };
        proof {
            reveal(Board::may_step);
            self.lemma_side_map(black);
            lemma_on_algebra(0, 0);
            lemma_on_algebra(other_king, 0);
            lemma_on_algebra(reach, !other_king);
        }
        reach & !other_king
    }

    /// The legal successors by a step of a piece of the given kind of the
    /// side to move.
    pub fn generate_steps(&self, kind: PieceType) -> (r: LegalMoveVec)
        ensures
            r@ == self.steps_from(kind, 64),
    {
        let mut list = LegalMoveVec::new();
        let black = !self.read_bookkeeping().white_to_move;
        let movers = self.piece_map(kind, black);
        let mut from: u8 = 0;
        while from < 64
            invariant
                from <= 64,
                black == !self.white_to_move(),
                movers == self.pieces(kind, black),
                list@ == self.steps_from(kind, from as nat),
            decreases 64 - from,
        {
            if holds(movers, from) {
                let ghost before = list@;
                let targets = self.step_map(kind, from);
                let mut to: u8 = 0;
                while to < 64
                    invariant
                        to <= 64,
                        from < 64,
                        forall|t: int|
                            0 <= t < 64 ==> (#[trigger] on(targets, t)) == self.may_step(
                                kind,
                                from as int,
                                t,
                            ),
                        list@ == before + self.steps_to(kind, from as int, to as nat),
                    decreases 64 - to,
                {
                    if holds(targets, to) {
                        let mut next = self.step(kind, from, to);
                        list.push(&mut next);
                    }
                    to = to + 1;
                }
            }
            from = from + 1;
        }
        list
    }
}

impl LegalMoveVec {
    /// The positions of the list, in order.
    pub open spec fn view(&self) -> Seq<Board> {
        self.data@
    }

    /// An empty list.
    pub fn new() -> (r: LegalMoveVec)
        ensures
            r@ == Seq::<Board>::empty(),
    {
        LegalMoveVec { data: Vec::new() }
    }

    /// Adds `board` to the list where it is legal, after filling its
    /// evaluation cache; an illegal position is left out and left as it is.
    pub fn push(&mut self, board: &mut Board)
        ensures
            final(self)@ == old(self)@ + old(board).kept(),
            *final(board) == (if old(board).legal() {
                old(board).scored()
            } else {
                *old(board)
            }),
    {
        if board.is_legal() {
            board.eval = board.evaluate(false);
            self.data.push(*board);
            assert(self@ == old(self)@ + old(board).kept());
        } else {
            assert(self@ == old(self)@ + old(board).kept());
        }
    }

    /// The number of positions in the list.
    pub fn len(&self) -> (r: usize)
        ensures
            r == self@.len(),
    {
        self.data.len()
    }

    /// The position at `index`, if there is one.
    pub fn pick(&self, index: usize) -> (r: Option<&Board>)
        ensures
            r == (if index < self@.len() {
                Some(&self@[index as int])
            } else {
                None
            }),
    {
        if index < self.data.len() {
            Some(&self.data[index])
        } else {
            None
        }
    }

    /// The positions of the list, in order.
    pub fn iter(&self) -> (r: Vec<Board>)
        ensures
            r@ == self@,
    {
        let mut out: Vec<Board> = Vec::new();
        let mut i: usize = 0;
        while i < self.data.len()
            invariant
                i <= self.data.len(),
                out@ == self@.take(i as int),
            decreases self.data.len() - i,
        {
            out.push(self.data[i]);
            assert(self@.take(i + 1) == self@.take(i as int).push(self@[i as int]));
            i = i + 1;
        }
        out
    }

    /// Empties the list.
    pub fn clear(&mut self)
        ensures
            final(self)@ == Seq::<Board>::empty(),
    {
        self.data.clear();
    }

    /// Appends the positions of `move_vec`, in order.
    pub fn extend(&mut self, move_vec: LegalMoveVec)
        ensures
            final(self)@ == old(self)@ + move_vec@,
    {
        let mut other = move_vec;
        self.data.append(&mut other.data);
    }

    /// Takes the first position off the list.
    pub fn next(&mut self) -> (r: Option<Board>)
        ensures
            old(self)@.len() == 0 ==> r is None && final(self)@ == old(self)@,
            old(self)@.len() > 0 ==> r == Some(old(self)@[0]) && final(self)@ == old(
                self,
            )@.drop_first(),
    {
        if self.data.len() > 0 {
            let first = self.data.remove(0);
            assert(self@ == old(self)@.drop_first());
            Some(first)
        } else {
            None
        }
    }
}

} // verus!
