//! What a move keeps: every legal successor of a well-formed position is
//! well formed, leaves the side that has moved out of check, and has no
//! castling right that its parent had not.

use crate::base::defs::Board;
use crate::base::defs::CastleSide;
use crate::base::defs::PieceType;
use crate::base::kings::king_goal;
use crate::base::kings::king_home;
use crate::base::kings::rook_goal;
use crate::base::kings::rook_home;
use crate::base::steps::colour_of;
use crate::base::steps::move_tag;
use vstd::prelude::*;

verus! {

impl Board {
    /// What stands where after a step: what stood there before, but for the
    /// two squares of the move, and the piece that has moved on its new
    /// square. The move passes to the other side, no castling right comes
    /// up, and the en-passant file is cleared.
    pub proof fn lemma_after_step(&self, kind: PieceType, from: int, to: int)
        requires
            0 <= from < 64,
            0 <= to < 64,
        ensures
            forall|k: PieceType, c: bool, t: int|
                0 <= t < 64 ==> (#[trigger] self.after_step(kind, from, to).stands(k, c, t)) == ((
                self.stands(k, c, t) && t != from && t != to) || (k == kind && c
                    == !self.white_to_move() && t == to)),
            self.after_step(kind, from, to).white_to_move() == !self.white_to_move(),
            self.after_step(kind, from, to).rights_within(self),
            !self.after_step(kind, from, to).en_passant_valid(),
            self.after_step(kind, from, to).en_passant_bits() == 0,
    {
        reveal(Board::after_step);
        let black = !self.white_to_move();
        let own = colour_of(black);
        let b0 = if kind == PieceType::Rook {
            self.without_rook_right(own, from)
        } else {
            *self
        };
        self.lemma_without_rook_right(own, from);
        let b1a = b0.without_piece(from);
        b0.lemma_without_piece(from);
        let b1 = b1a.without_rook_right(colour_of(!black), to);
        b1a.lemma_without_rook_right(colour_of(!black), to);
        let b2a = b1.without_piece(to);
        b1.lemma_without_piece(to);
        let b2b = b2a.with_piece(kind, black, to);
        b2a.lemma_with_piece(kind, black, to);
        let reset = b1.occupied(to) || kind == PieceType::Pawn;
        let b2c = b2b.ticked(reset, black);
        b2b.lemma_ticked(reset, black);
        let b2 = b2c.with_en_passant(None);
        b2c.lemma_with_en_passant(None);
        let b3a = b2.without_castling(CastleSide::King, own);
        b2.lemma_without_castling(CastleSide::King, own);
        let b3b = b3a.without_castling(CastleSide::Queen, own);
        b3a.lemma_without_castling(CastleSide::Queen, own);
        let b3 = if kind == PieceType::King {
            b3b
        } else {
            b2
        };
        let after = self.after_step(kind, from, to);
        assert(after == b3.tagged(move_tag(from, to)));
        assert(after.same_pieces(&b2b));
        assert(b0.same_pieces(self));
        assert(b1.same_pieces(&b1a));
        assert forall|k: PieceType, c: bool, t: int| 0 <= t < 64 implies (#[trigger] after.stands(
            k,
            c,
            t,
        )) == ((self.stands(k, c, t) && t != from && t != to) || (k == kind && c == black && t
            == to)) by {
            assert(after.stands(k, c, t) == b2b.stands(k, c, t));
            assert(b2b.stands(k, c, t) == (b2a.stands(k, c, t) || (k == kind && c == black && t
                == to)));
            assert(b2a.stands(k, c, t) == (b1.stands(k, c, t) && t != to));
            assert(b1.stands(k, c, t) == b1a.stands(k, c, t));
            assert(b1a.stands(k, c, t) == (b0.stands(k, c, t) && t != from));
            assert(b0.stands(k, c, t) == self.stands(k, c, t));
        }
        assert(b0.white_to_move() == self.white_to_move());
        assert(b1a.metadata == b0.metadata);
        assert(b1.white_to_move() == self.white_to_move());
        assert(b2a.metadata == b1.metadata);
        assert(b2b.metadata == b2a.metadata);
        assert(b2c.white_to_move() == !self.white_to_move());
        assert(b2.white_to_move() == !self.white_to_move());
        assert(b3.white_to_move() == !self.white_to_move());
        assert(after.metadata == b3.metadata);
        assert(!b2.en_passant_valid() && b2.en_passant_bits() == 0);
        assert(!b3.en_passant_valid() && b3.en_passant_bits() == 0);
        assert forall|c: bool, side: CastleSide| #[trigger]
            after.may_castle(c, side) implies self.may_castle(c, side) by {
            assert(b3.may_castle(c, side));
            if kind == PieceType::King {
                assert(b3a.may_castle(c, side));
            }
            assert(b2.may_castle(c, side));
            assert(b2c.may_castle(c, side));
            assert(b2b.may_castle(c, side));
            assert(b1.may_castle(c, side));
            assert(b1a.may_castle(c, side));
            assert(b0.may_castle(c, side));
        }
    }

    /// Whether `after` has the pieces of this position but for one that has
    /// gone from `from` to `to`, where it stands as a piece of the given
    /// kind and colour in place of what stood there.
    pub open spec fn moved_to(
        &self,
        after: &Board,
        kind: PieceType,
        black: bool,
        from: int,
        to: int,
    ) -> bool {
        forall|k: PieceType, c: bool, t: int|
            0 <= t < 64 ==> (#[trigger] after.stands(k, c, t)) == ((self.stands(k, c, t) && t
                != from && t != to) || (k == kind && c == black && t == to))
    }

    /// Whether `after` has the pieces of this position but for what stood on
    /// `sq`.
    pub open spec fn cleared_of(&self, after: &Board, sq: int) -> bool {
        forall|k: PieceType, c: bool, t: int|
            0 <= t < 64 ==> (#[trigger] after.stands(k, c, t)) == (self.stands(k, c, t) && t
                != sq)
    }

    /// A piece that goes to a square on which neither a piece of its own
    /// side nor a king stands leaves no two pieces on one square and each
    /// side with its one king. The piece may change its kind on the way, but
    /// a king stays a king and nothing else becomes one.
    pub proof fn lemma_moved_keeps_form(
        &self,
        after: &Board,
        was: PieceType,
        kind: PieceType,
        black: bool,
        from: int,
        to: int,
    )
        requires
            0 <= from < 64,
            0 <= to < 64,
            self.tidy(),
            self.one_king(false),
            self.one_king(true),
            self.stands(was, black, from),
            (was == PieceType::King) == (kind == PieceType::King),
            !self.stands(PieceType::King, black, to) || to == from,
            !self.stands(PieceType::King, !black, to),
            self.moved_to(after, kind, black, from, to),
        ensures
            after.tidy(),
            after.one_king(false),
            after.one_king(true),
    {
        assert forall|sq: int| 0 <= sq < 64 implies #[trigger] after.single(sq) by {
            assert(self.single(sq));
            assert forall|k1: PieceType, c1: bool, k2: PieceType, c2: bool|
                #![trigger after.stands(k1, c1, sq), after.stands(k2, c2, sq)]
                after.stands(k1, c1, sq) && after.stands(k2, c2, sq) implies k1 == k2 && c1
                == c2 by {
                if sq != to {
                    assert(self.stands(k1, c1, sq) && self.stands(k2, c2, sq));
                }
            }
        }
        self.lemma_moved_keeps_king(after, was, kind, black, from, to, false);
        self.lemma_moved_keeps_king(after, was, kind, black, from, to, true);
    }

    /// The part of the lemma above that is about the king of one side.
    pub proof fn lemma_moved_keeps_king(
        &self,
        after: &Board,
        was: PieceType,
        kind: PieceType,
        black: bool,
        from: int,
        to: int,
        side: bool,
    )
        requires
            0 <= from < 64,
            0 <= to < 64,
            self.tidy(),
            self.one_king(side),
            self.stands(was, black, from),
            (was == PieceType::King) == (kind == PieceType::King),
            !self.stands(PieceType::King, black, to) || to == from,
            !self.stands(PieceType::King, !black, to),
            self.moved_to(after, kind, black, from, to),
        ensures
            after.one_king(side),
    {
        let home = choose|sq: int| self.king_on(side, sq);
        assert(self.king_on(side, home));
        assert(self.single(from));
        if kind == PieceType::King && side == black {
            assert(self.stands(PieceType::King, side, from));
            assert(from == home);
            assert forall|t: int| 0 <= t < 64 implies (#[trigger] after.stands(
                PieceType::King,
                side,
                t,
            )) == (t == to) by {
                assert(self.stands(PieceType::King, side, t) == (t == home));
            }
            assert(after.king_on(side, to));
        } else {
            assert(self.stands(PieceType::King, side, home));
            if home == from {
                assert(self.stands(PieceType::King, side, from) && self.stands(was, black, from));
                assert(false);
            }
            assert(home != to) by {
                if home == to {
                    assert(self.stands(PieceType::King, side, to));
                }
            }
            assert forall|t: int| 0 <= t < 64 implies (#[trigger] after.stands(
                PieceType::King,
                side,
                t,
            )) == (t == home) by {
                assert(self.stands(PieceType::King, side, t) == (t == home));
            }
            assert(after.king_on(side, home));
        }
    }

    /// Taking a piece that is no king off the board leaves no two pieces on
    /// one square and each side with its one king.
    pub proof fn lemma_cleared_keeps_form(&self, after: &Board, sq: int)
        requires
            0 <= sq < 64,
            self.tidy(),
            self.one_king(false),
            self.one_king(true),
            !self.stands(PieceType::King, false, sq),
            !self.stands(PieceType::King, true, sq),
            self.cleared_of(after, sq),
        ensures
            after.tidy(),
            after.one_king(false),
            after.one_king(true),
    {
        assert forall|t: int| 0 <= t < 64 implies #[trigger] after.single(t) by {
            assert(self.single(t));
            assert forall|k1: PieceType, c1: bool, k2: PieceType, c2: bool|
                #![trigger after.stands(k1, c1, t), after.stands(k2, c2, t)]
                after.stands(k1, c1, t) && after.stands(k2, c2, t) implies k1 == k2 && c1
                == c2 by {
                assert(self.stands(k1, c1, t) && self.stands(k2, c2, t));
            }
        }
        let white = choose|t: int| self.king_on(false, t);
        assert forall|t: int| 0 <= t < 64 implies (#[trigger] after.stands(
            PieceType::King,
            false,
            t,
        )) == (t == white) by {
            assert(self.stands(PieceType::King, false, t) == (t == white));
        }
        assert(after.king_on(false, white));
        let dark = choose|t: int| self.king_on(true, t);
        assert forall|t: int| 0 <= t < 64 implies (#[trigger] after.stands(
            PieceType::King,
            true,
            t,
        )) == (t == dark) by {
            assert(self.stands(PieceType::King, true, t) == (t == dark));
        }
        assert(after.king_on(true, dark));
    }

    /// Whether two positions differ at most in the move tag and in the
    /// evaluation cache.
    pub open spec fn same_position(&self, other: &Board) -> bool {
        self.same_pieces(other) && self.metadata == other.metadata
    }

    /// What is attacked does not depend on the move tag nor on the
    /// evaluation cache, and so neither does whether a king is in check.
    pub proof fn lemma_same_position(&self, other: &Board)
        requires
            self.same_position(other),
        ensures
            self.legal() == other.legal(),
            self.checked() == other.checked(),
            self.well_formed() == other.well_formed(),
            forall|before: Board| self.rights_within(&before) == other.rights_within(&before),
            self.white_to_move() == other.white_to_move(),
    {
        assert forall|by: bool, t: int| #[trigger]
            self.attacked_by(by, t) == other.attacked_by(by, t) by {
            if self.attacked_by(by, t) {
                let from = choose|from: int| 0 <= from < 64 && self.attacked_from(by, t, from);
                assert(other.attacked_from(by, t, from));
            }
            if other.attacked_by(by, t) {
                let from = choose|from: int| 0 <= from < 64 && other.attacked_from(by, t, from);
                assert(self.attacked_from(by, t, from));
            }
        }
        assert forall|by: bool, w: u64| #[trigger]
            self.any_attacked(by, w) == other.any_attacked(by, w) by {
            if self.any_attacked(by, w) {
                let t = choose|t: int|
                    0 <= t < 64 && crate::base::bits::on(w, t) && self.attacked_by(by, t);
                assert(other.attacked_by(by, t));
            }
            if other.any_attacked(by, w) {
                let t = choose|t: int|
                    0 <= t < 64 && crate::base::bits::on(w, t) && other.attacked_by(by, t);
                assert(self.attacked_by(by, t));
            }
        }
        self.lemma_same_pieces_form(other);
        assert forall|before: Board|
            self.rights_within(&before) == other.rights_within(&before) by {
            if self.rights_within(&before) {
                assert forall|c: bool, side: CastleSide| #[trigger]
                    other.may_castle(c, side) implies before.may_castle(c, side) by {
                    assert(self.may_castle(c, side));
                }
            }
            if other.rights_within(&before) {
                assert forall|c: bool, side: CastleSide| #[trigger]
                    self.may_castle(c, side) implies before.may_castle(c, side) by {
                    assert(other.may_castle(c, side));
                }
            }
        }
    }

    /// What every legal successor owes to its parent: it is well formed, the
    /// side that has moved has not left its king attacked, it has no
    /// castling right that the parent had not, and the other side is to move.
    pub open spec fn follows(&self, parent: &Board) -> bool {
        self.well_formed() && self.legal() && self.rights_within(parent) && self.white_to_move()
            != parent.white_to_move()
    }

    /// What holds of a position but for the check whether it is legal holds
    /// of what is kept of it, and that is legal too.
    pub proof fn lemma_kept_follows(&self, parent: &Board)
        requires
            self.well_formed(),
            self.rights_within(parent),
            self.white_to_move() != parent.white_to_move(),
        ensures
            forall|i: int| 0 <= i < self.kept().len() ==> (#[trigger] self.kept()[i]).follows(parent),
    {
        self.scored().lemma_same_position(self);
    }

    /// What stands where after castling: what stood there before, but for
    /// the king and the rook, which stand on their new squares. The move
    /// passes to the other side, no castling right comes up, and the
    /// en-passant file is cleared.
    pub proof fn lemma_after_castle(&self, side: CastleSide)
        ensures
            forall|k: PieceType, c: bool, t: int|
                0 <= t < 64 ==> (#[trigger] self.after_castle(side).stands(k, c, t)) == ((
                self.stands(k, c, t) && t != king_home(!self.white_to_move()) && t != rook_home(
                    !self.white_to_move(),
                    side,
                )) || (k == PieceType::King && c == !self.white_to_move() && t == king_goal(
                    !self.white_to_move(),
                    side,
                )) || (k == PieceType::Rook && c == !self.white_to_move() && t == rook_goal(
                    !self.white_to_move(),
                    side,
                ))),
            self.after_castle(side).white_to_move() == !self.white_to_move(),
            self.after_castle(side).rights_within(self),
            !self.after_castle(side).en_passant_valid(),
            self.after_castle(side).en_passant_bits() == 0,
    {
        let black = !self.white_to_move();
        let own = colour_of(black);
        let e = king_home(black);
        let g = king_goal(black, side);
        let h = rook_home(black, side);
        let f = rook_goal(black, side);
        let a1 = self.without_piece(e);
        self.lemma_without_piece(e);
        let a2 = a1.without_piece(h);
        a1.lemma_without_piece(h);
        let a3 = a2.with_piece(PieceType::King, black, g);
        a2.lemma_with_piece(PieceType::King, black, g);
        let a4 = a3.with_piece(PieceType::Rook, black, f);
        a3.lemma_with_piece(PieceType::Rook, black, f);
        let a5 = a4.ticked(false, black);
        a4.lemma_ticked(false, black);
        let a6 = a5.with_en_passant(None);
        a5.lemma_with_en_passant(None);
        let a7 = a6.without_castling(CastleSide::King, own);
        a6.lemma_without_castling(CastleSide::King, own);
        let a8 = a7.without_castling(CastleSide::Queen, own);
        a7.lemma_without_castling(CastleSide::Queen, own);
        let after = self.after_castle(side);
        assert(after == a8.tagged(move_tag(e, g)));
        assert(after.same_pieces(&a4));
        assert forall|k: PieceType, c: bool, t: int| 0 <= t < 64 implies (#[trigger] after.stands(
            k,
            c,
            t,
        )) == ((self.stands(k, c, t) && t != e && t != h) || (k == PieceType::King && c == black
            && t == g) || (k == PieceType::Rook && c == black && t == f)) by {
            assert(after.stands(k, c, t) == a4.stands(k, c, t));
            assert(a4.stands(k, c, t) == (a3.stands(k, c, t) || (k == PieceType::Rook && c
                == black && t == f)));
            assert(a3.stands(k, c, t) == (a2.stands(k, c, t) || (k == PieceType::King && c
                == black && t == g)));
            assert(a2.stands(k, c, t) == (a1.stands(k, c, t) && t != h));
            assert(a1.stands(k, c, t) == (self.stands(k, c, t) && t != e));
        }
        assert(a1.metadata == self.metadata);
        assert(a2.metadata == self.metadata);
        assert(a3.metadata == self.metadata);
        assert(a4.metadata == self.metadata);
        assert(a5.white_to_move() == !self.white_to_move());
        assert(a6.white_to_move() == !self.white_to_move());
        assert(a7.white_to_move() == !self.white_to_move());
        assert(a8.white_to_move() == !self.white_to_move());
        assert(after.metadata == a8.metadata);
        assert(!a6.en_passant_valid() && a6.en_passant_bits() == 0);
        assert(!a7.en_passant_valid() && a7.en_passant_bits() == 0);
        assert(!a8.en_passant_valid() && a8.en_passant_bits() == 0);
        assert forall|c: bool, s: CastleSide| #[trigger]
            after.may_castle(c, s) implies self.may_castle(c, s) by {
            assert(a8.may_castle(c, s));
            assert(a7.may_castle(c, s));
            assert(a6.may_castle(c, s));
            assert(a5.may_castle(c, s));
            assert(a4.may_castle(c, s));
        }
    }

    /// What stands where after a pawn that has arrived on `to` has been
    /// promoted: the new piece in place of the pawn, everything else as it
    /// was. The bookkeeping stays.
    pub proof fn lemma_promoted(&self, kind: PieceType, black: bool, to: int)
        requires
            0 <= to < 64,
        ensures
            forall|k: PieceType, c: bool, t: int|
                0 <= t < 64 ==> (#[trigger] self.promoted(kind, black, to).stands(k, c, t)) == ((
                self.stands(k, c, t) && t != to) || (k == kind && c == black && t == to)),
            self.promoted(kind, black, to).metadata == self.metadata,
    {
        let a1 = self.without_piece(to);
        self.lemma_without_piece(to);
        let a2 = a1.with_piece(kind, black, to);
        a1.lemma_with_piece(kind, black, to);
        let after = self.promoted(kind, black, to);
        assert(after.same_pieces(&a2));
        assert forall|k: PieceType, c: bool, t: int| 0 <= t < 64 implies (#[trigger] after.stands(
            k,
            c,
            t,
        )) == ((self.stands(k, c, t) && t != to) || (k == kind && c == black && t == to)) by {
            assert(after.stands(k, c, t) == a2.stands(k, c, t));
            assert(a2.stands(k, c, t) == (a1.stands(k, c, t) || (k == kind && c == black && t
                == to)));
            assert(a1.stands(k, c, t) == (self.stands(k, c, t) && t != to));
        }
    }

    /// Whether no two pieces stand on one square and whether a side has its
    /// one king depends only on what stands where.
    pub proof fn lemma_same_pieces_form(&self, other: &Board)
        requires
            self.same_pieces(other),
        ensures
            self.tidy() == other.tidy(),
            self.one_king(false) == other.one_king(false),
            self.one_king(true) == other.one_king(true),
    {
        self.lemma_pieces_carry_form(other);
        other.lemma_pieces_carry_form(self);
    }

    /// One direction of the lemma above.
    pub proof fn lemma_pieces_carry_form(&self, other: &Board)
        requires
            self.same_pieces(other),
        ensures
            self.tidy() ==> other.tidy(),
            self.one_king(false) ==> other.one_king(false),
            self.one_king(true) ==> other.one_king(true),
    {
        if self.tidy() {
            assert forall|sq: int| 0 <= sq < 64 implies #[trigger] other.single(sq) by {
                assert(self.single(sq));
                assert forall|k1: PieceType, c1: bool, k2: PieceType, c2: bool|
                    #![trigger other.stands(k1, c1, sq), other.stands(k2, c2, sq)]
                    other.stands(k1, c1, sq) && other.stands(k2, c2, sq) implies k1 == k2 && c1
                    == c2 by {
                    assert(self.stands(k1, c1, sq) && self.stands(k2, c2, sq));
                }
            }
        }
        assert forall|c: bool| #[trigger] self.one_king(c) implies other.one_king(c) by {
            let sq = choose|sq: int| self.king_on(c, sq);
            assert forall|t: int| 0 <= t < 64 implies (#[trigger] other.stands(
                PieceType::King,
                c,
                t,
            )) == (t == sq) by {
                assert(self.stands(PieceType::King, c, t) == (t == sq));
            }
            assert(other.king_on(c, sq));
        }
        if self.one_king(false) {
            assert(other.one_king(false));
        }
        if self.one_king(true) {
            assert(other.one_king(true));
        }
    }
}

} // verus!
