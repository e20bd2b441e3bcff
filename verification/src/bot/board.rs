//! What kind of move leads from a position to one of its successors, and
//! how promising that makes it.

use crate::base::attacks::bears_on;
use crate::base::attacks::bishop_attacks;
use crate::base::attacks::file_of;
use crate::base::attacks::king_attacks;
use crate::base::attacks::knight_attacks;
use crate::base::attacks::pawn_attacks;
use crate::base::attacks::rook_attacks;
use crate::base::bits::lemma_nonzero_has_square;
use crate::base::bits::lemma_on_algebra;
use crate::base::bits::on;
use crate::base::defs::Board;
use crate::base::defs::PieceColour;
use crate::base::defs::PieceType;
use crate::base::fen::Cell;
use crate::bot::tables::piece_value;
use crate::bot::tables::piece_worth;
use crate::bot::types::SpecialMove;
use vstd::prelude::*;

verus! {

/// The marks of a move.
#[derive(Debug, Clone, Copy, PartialEq, Eq, Structural)]
pub struct MoveTags {
    pub check: bool,
    pub capture: bool,
    pub attack: bool,
    pub promotion: bool,
    pub en_passant: bool,
}

impl MoveTags {
    /// Whether a move with these marks has the given one. A capture in
    /// passing is a capture too.
    pub open spec fn has_mark(&self, mark: SpecialMove) -> bool {
        match mark {
            SpecialMove::Check => self.check,
            SpecialMove::Capture => self.capture,
            SpecialMove::Attack => self.attack,
            SpecialMove::Promotion => self.promotion,
            SpecialMove::EnPassant => self.en_passant,
        }
    }

    /// Whether a move with these marks has the given one.
    pub fn contains(&self, mark: &SpecialMove) -> (r: bool)
        ensures
            r == self.has_mark(*mark),
    {
        match mark {
            SpecialMove::Check => self.check,
            SpecialMove::Capture => self.capture,
            SpecialMove::Attack => self.attack,
            SpecialMove::Promotion => self.promotion,
            SpecialMove::EnPassant => self.en_passant,
        }
    }
}

/// The square from which the move with the given tag starts.
pub open spec fn tag_from(tag: int) -> int {
    (tag / 64) % 64
}

/// The square on which the move with the given tag ends.
pub open spec fn tag_to(tag: int) -> int {
    tag % 64
}

/// Whether the move with the given tag is a promotion.
pub open spec fn tag_promotes(tag: int) -> bool {
    (tag / 16384) % 2 == 1
}

/// The worth of what stands in a cell, and nought for an empty one.
pub open spec fn cell_value(cell: Cell) -> int {
    match cell {
        Some((kind, _)) => piece_value(kind),
        None => 0,
    }
}

/// What a move with the given marks that takes a piece of the given worth
/// is given in the ordering of moves: 80 for a promotion, 50 for a check,
/// 40 for a capture, 30 for an attack on a piece, and a tenth of the worth
/// of what is taken.
pub open spec fn priority_of(tags: MoveTags, taken: int) -> int {
    (if tags.promotion {
        80int
    } else {
        0int
    }) + (if tags.check {
        50int
    } else {
        0int
    }) + (if tags.capture {
        40int
    } else {
        0int
    }) + (if tags.attack {
        30int
    } else {
        0int
    }) + taken / 10
}

/// Whether a move with these marks stirs the position up: a check, a
/// capture or a promotion.
pub fn is_noisy(classification: &MoveTags) -> (r: bool)
    ensures
        r == (classification.check || classification.capture || classification.promotion
            || classification.en_passant),
{
    classification.check || classification.capture || classification.promotion
        || classification.en_passant
}

fn reach_of(kind: PieceType, black: bool, occ: u64, from: u8) -> (r: u64)
    requires
        from < 64,
    ensures
        forall|t: int|
            0 <= t < 64 ==> (#[trigger] on(r, t)) == bears_on(kind, black, occ, from as int, t),
{
    match kind {
        PieceType::King => king_attacks(from),
        PieceType::Queen => {
            let d = bishop_attacks(occ, from);
            let s = rook_attacks(occ, from);
            proof {
                lemma_on_algebra(d, s);
            }
            d | s
        },
        PieceType::Rook => rook_attacks(occ, from),
        PieceType::Bishop => bishop_attacks(occ, from),
        PieceType::Knight => knight_attacks(from),
        PieceType::Pawn => pawn_attacks(black, from),
    }
}

impl Board {
    /// Whether the move that leads to `next` takes a pawn in passing: a
    /// pawn of the side to move goes to another file and onto an empty
    /// square.
    pub open spec fn passes(&self, next: &Board) -> bool {
        let tag = next.latest_move as int;
        self.cell_on(tag_from(tag)) == Some((PieceType::Pawn, !self.white_to_move()))
            && self.cell_on(tag_to(tag)) is None && file_of(tag_from(tag)) != file_of(tag_to(tag))
    }

    /// Whether the move that leads to `next` takes a piece.
    pub open spec fn captures(&self, next: &Board) -> bool {
        let tag = next.latest_move as int;
        (self.cell_on(tag_to(tag)) matches Some((_, black)) && black == self.white_to_move())
            || self.passes(next)
    }

    /// The worth of the piece that the move that leads to `next` takes.
    pub open spec fn taken_value(&self, next: &Board) -> int {
        if self.passes(next) {
            piece_value(PieceType::Pawn)
        } else if self.captures(next) {
            cell_value(self.cell_on(tag_to(next.latest_move as int)))
        } else {
            0
        }
    }

    /// Whether what the side that is not to move has on `from` bears on a
    /// piece of the side to move.
    pub open spec fn threatens(&self, from: int) -> bool {
        exists|t: int|
            0 <= t < 64 && self.side_stands(!self.white_to_move(), t) && (
            #[trigger] self.threat(from, t))
    }

    /// Whether what the side that is not to move has on `from` bears on
    /// `to`.
    pub open spec fn threat(&self, from: int, to: int) -> bool {
        match self.cell_on(from) {
            Some((kind, black)) => black == self.white_to_move() && bears_on(
                kind,
                black,
                self.all_map(),
                from,
                to,
            ),
            None => false,
        }
    }

    /// The marks of the move that leads from this position to `next`.
    pub open spec fn tags_of(&self, next: &Board) -> MoveTags {
        let tag = next.latest_move as int;
        MoveTags {
            check: next.checked(),
            capture: self.captures(next),
            attack: next.threatens(tag_to(tag)),
            promotion: tag_promotes(tag),
            en_passant: self.passes(next),
        }
    }

    /// The kind of piece that makes the move that leads to `next`.
    pub fn piece_moved(&self, next: &Board) -> (r: Option<PieceType>)
        ensures
            r == match self.cell_on(tag_from(next.latest_move as int)) {
                Some((kind, _)) => Some(kind),
                None => None,
            },
    {
        let from = ((next.latest_move / 64) % 64) as u8;
        match self.piece_at(from) {
            Some((kind, _)) => Some(kind),
            None => None,
        }
    }

    /// Whether the move that leads to `next` takes a pawn in passing.
    pub fn is_en_passant(&self, next: &Board) -> (r: bool)
        ensures
            r == self.passes(next),
    {
        let from = ((next.latest_move / 64) % 64) as u8;
        let to = (next.latest_move % 64) as u8;
        let mover_black = !self.read_bookkeeping().white_to_move;
        match self.piece_at(from) {
            Some((kind, black)) => {
                let is_pawn = match kind {
                    PieceType::Pawn => true,
                    _ => false,
                };
                is_pawn && black == mover_black && self.piece_at(to).is_none() && from % 8 != to
                    % 8
            },
            None => false,
        }
    }

    fn is_capture(&self, next: &Board) -> (r: bool)
        ensures
            r == self.captures(next),
    {
        let to = (next.latest_move % 64) as u8;
        let white_to_move = self.read_bookkeeping().white_to_move;
        let direct = match self.piece_at(to) {
            Some((_, black)) => black == white_to_move,
            None => false,
        };
        direct || self.is_en_passant(next)
    }

    /// Whether the piece that has just arrived on `from` bears on a piece of
    /// the side to move.
    pub fn is_attack(&self, from: u8) -> (r: bool)
        requires
            from < 64,
        ensures
            r == self.threatens(from as int),
    {
        let white_to_move = self.read_bookkeeping().white_to_move;
        match self.piece_at(from) {
            Some((kind, black)) => {
                if black != white_to_move {
                    assert forall|t: int| 0 <= t < 64 implies !self.threat(from as int, t) by {}
                    return false;
                }
                let occ = self.consolidated_piece_map(&PieceColour::Any);
                let reach = reach_of(kind, black, occ, from);
                let others = self.consolidated_piece_map(
                    &(if white_to_move {
                        PieceColour::White
                    } else {
                        PieceColour::Black
                    }),
                );
                proof {
                    self.lemma_side_map(!white_to_move);
                    lemma_on_algebra(reach, others);
                    lemma_nonzero_has_square(reach & others);
                    if reach & others != 0 {
                        let t = choose|t: int| 0 <= t < 64 && on(reach & others, t);
                        assert(on(reach & others, t) == (on(reach, t) && on(others, t)));
                        assert(self.threat(from as int, t));
                    } else {
                        assert forall|t: int| 0 <= t < 64 implies !(self.side_stands(
                            !self.white_to_move(),
                            t,
                        ) && self.threat(from as int, t)) by {
                            assert(on(reach & others, t) == (on(reach, t) && on(others, t)));
                        }
                    }
                }
                reach & others != 0
            },
            None => {
                assert forall|t: int| 0 <= t < 64 implies !self.threat(from as int, t) by {}
                false
            },
        }
    }

    /// The marks of the move that leads from this position to `next`.
    pub fn classify_move(&self, next: &Board) -> (r: MoveTags)
        ensures
            r == self.tags_of(next),
    {
        let to = (next.latest_move % 64) as u8;
        MoveTags {
            check: next.in_check(),
            capture: self.is_capture(next),
            attack: next.is_attack(to),
            promotion: (next.latest_move / 16384) % 2 == 1,
            en_passant: self.is_en_passant(next),
        }
    }

    /// The kinds of the piece that takes and of the piece that is taken in
    /// the move that leads to `next`, where that move takes a piece.
    pub fn capture_pieces(&self, next: &Board) -> (r: Option<(PieceType, PieceType)>)
        ensures
            r is Some == (self.captures(next) && self.cell_on(tag_from(next.latest_move as int))
                is Some),
            r matches Some((attacker, victim)) ==> self.cell_on(tag_from(next.latest_move as int))
                matches Some((kind, _)) && kind == attacker && piece_value(victim)
                == self.taken_value(next),
    {
        if !self.is_capture(next) {
            return None;
        }
        let from = ((next.latest_move / 64) % 64) as u8;
        let to = (next.latest_move % 64) as u8;
        let attacker = match self.piece_at(from) {
            Some((kind, _)) => kind,
            None => {
                return None;
            },
        };
        let victim = if self.is_en_passant(next) {
            PieceType::Pawn
        } else {
            match self.piece_at(to) {
                Some((kind, _)) => kind,
                None => PieceType::Pawn,
            }
        };
        Some((attacker, victim))
    }

    /// How promising the move that leads to `next` is.
    pub fn move_priority(&self, next: &Board) -> (r: i32)
        ensures
            r == priority_of(self.tags_of(next), self.taken_value(next)),
            0 <= r <= 290,
    {
        let tags = self.classify_move(next);
        let to = (next.latest_move % 64) as u8;
        let taken = if tags.en_passant {
            piece_worth(PieceType::Pawn)
        } else if tags.capture {
            match self.piece_at(to) {
                Some((kind, _)) => piece_worth(kind),
                None => 0,
            }
        } else {
            0
        };
        let mut bonus: i32 = 0;
        if tags.promotion {
            bonus = bonus + 80;
        }
        if tags.check {
            bonus = bonus + 50;
        }
        if tags.capture {
            bonus = bonus + 40;
        }
        if tags.attack {
            bonus = bonus + 30;
        }
        bonus + taken / 10
    }

    /// Whether no legal move stirs the position up: none gives check, takes a
    /// piece or promotes a pawn.
    pub fn is_quiet_position(&self) -> (r: bool)
        ensures
            r == forall|i: int|
                0 <= i < self.successors().len() ==> !(#[trigger] self.stirs(
                    self.successors()[i],
                )),
    {
        let moves = self.generate_all_moves();
        let mut i: usize = 0;
        while i < moves.data.len()
            invariant
                i <= moves@.len(),
                moves@ == self.successors(),
                forall|j: int| 0 <= j < i ==> !(#[trigger] self.stirs(moves@[j])),
            decreases moves@.len() - i,
        {
            let tags = self.classify_move(&moves.data[i]);
            if is_noisy(&tags) {
                assert(self.stirs(self.successors()[i as int]));
                return false;
            }
            i = i + 1;
        }
        true
    }

    /// Whether the move that leads to `next` gives check, takes a piece or
    /// promotes a pawn.
    pub open spec fn stirs(&self, next: Board) -> bool {
        let tags = self.tags_of(&next);
        tags.check || tags.capture || tags.promotion || tags.en_passant
    }
}

} // verus!
