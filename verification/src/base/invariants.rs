//! Every legal successor of a well-formed position keeps what holds of
//! positions that arise in play.

use crate::base::attacks::file_of;
use crate::base::attacks::rank_of;
use crate::base::bits::in_board;
use crate::base::bits::square_of;
use crate::base::defs::Board;
use crate::base::defs::CastleSide;
use crate::base::defs::PieceType;
use crate::base::kings::king_goal;
use crate::base::kings::king_home;
use crate::base::kings::rook_goal;
use crate::base::kings::rook_home;
use crate::base::pawns::forward;
use vstd::prelude::*;

verus! {

/// Every position of `list` is what a legal successor of `parent` has to
/// be.
pub open spec fn all_follow(parent: &Board, list: Seq<Board>) -> bool {
    forall|i: int| 0 <= i < list.len() ==> (#[trigger] list[i]).follows(parent)
}

/// Every position of `list` is legal.
pub open spec fn all_legal(list: Seq<Board>) -> bool {
    forall|i: int| 0 <= i < list.len() ==> (#[trigger] list[i]).legal()
}

/// Two lists of legal positions joined are a list of legal positions.
pub proof fn lemma_all_legal_join(a: Seq<Board>, b: Seq<Board>)
    requires
        all_legal(a),
        all_legal(b),
    ensures
        all_legal(a + b),
{
    assert forall|i: int| 0 <= i < (a + b).len() implies (#[trigger] (a + b)[i]).legal() by {
        if i < a.len() {
            assert((a + b)[i] == a[i]);
        } else {
            assert((a + b)[i] == b[i - a.len()]);
        }
    }
}

/// What holds of two lists holds of them joined.
pub proof fn lemma_all_follow_join(parent: &Board, a: Seq<Board>, b: Seq<Board>)
    requires
        all_follow(parent, a),
        all_follow(parent, b),
    ensures
        all_follow(parent, a + b),
{
    assert forall|i: int| 0 <= i < (a + b).len() implies (#[trigger] (a + b)[i]).follows(
        parent,
    ) by {
        if i < a.len() {
            assert((a + b)[i] == a[i]);
        } else {
            assert((a + b)[i] == b[i - a.len()]);
        }
    }
}

impl Board {
    /// A piece that arrives on a square on which neither a piece of its own
    /// side nor a king stands leaves a well-formed position well formed.
    /// This is the form of the position after the step, before it is asked
    /// whether the step is legal.
    pub proof fn lemma_step_keeps_form(&self, kind: PieceType, from: int, to: int)
        requires
            self.well_formed(),
            0 <= from < 64,
            0 <= to < 64,
            self.stands(kind, !self.white_to_move(), from),
            !self.side_stands(!self.white_to_move(), to),
            !self.stands(PieceType::King, self.white_to_move(), to),
        ensures
            self.after_step(kind, from, to).well_formed(),
            self.after_step(kind, from, to).rights_within(self),
            self.after_step(kind, from, to).white_to_move() != self.white_to_move(),
            self.moved_to(
                &self.after_step(kind, from, to),
                kind,
                !self.white_to_move(),
                from,
                to,
            ),
    {
        let after = self.after_step(kind, from, to);
        self.lemma_after_step(kind, from, to);
        self.lemma_moved_keeps_form(&after, kind, kind, !self.white_to_move(), from, to);
    }

    /// The legal successors by a step of one piece follow from the
    /// position.
    pub proof fn lemma_steps_to_follow(&self, kind: PieceType, from: int, n: nat)
        requires
            self.well_formed(),
            0 <= from < 64,
            n <= 64,
            self.stands(kind, !self.white_to_move(), from),
        ensures
            all_follow(self, self.steps_to(kind, from, n)),
        decreases n,
    {
        if n > 0 {
            self.lemma_steps_to_follow(kind, from, (n - 1) as nat);
            let rest = self.steps_to(kind, from, (n - 1) as nat);
            if self.may_step(kind, from, n - 1) {
                reveal(Board::may_step);
                self.lemma_step_keeps_form(kind, from, n - 1);
                let after = self.after_step(kind, from, n - 1);
                after.lemma_kept_follows(self);
                lemma_all_follow_join(self, rest, after.kept());
            }
        }
    }

    /// The legal successors by a step of the pieces of one kind follow from
    /// the position.
    pub proof fn lemma_steps_from_follow(&self, kind: PieceType, n: nat)
        requires
            self.well_formed(),
            n <= 64,
        ensures
            all_follow(self, self.steps_from(kind, n)),
        decreases n,
    {
        if n > 0 {
            self.lemma_steps_from_follow(kind, (n - 1) as nat);
            let rest = self.steps_from(kind, (n - 1) as nat);
            if self.stands(kind, !self.white_to_move(), n - 1) {
                self.lemma_steps_to_follow(kind, n - 1, 64);
                lemma_all_follow_join(self, rest, self.steps_to(kind, n - 1, 64));
            }
        }
    }

    /// The legal successor by castling follows from the position.
    pub proof fn lemma_castles_follow(&self, side: CastleSide)
        requires
            self.well_formed(),
        ensures
            all_follow(self, self.castles(side)),
    {
        if self.can_castle(side) {
            let black = !self.white_to_move();
            let e = king_home(black);
            let g = king_goal(black, side);
            let h = rook_home(black, side);
            let f = rook_goal(black, side);
            let after = self.after_castle(side);
            self.lemma_after_castle(side);
            let a1 = self.without_piece(e);
            self.lemma_without_piece(e);
            let middle = a1.with_piece(PieceType::King, black, g);
            a1.lemma_with_piece(PieceType::King, black, g);
            assert(self.moved_to(&middle, PieceType::King, black, e, g)) by {
                assert forall|k: PieceType, c: bool, t: int| 0 <= t < 64 implies (
                #[trigger] middle.stands(k, c, t)) == ((self.stands(k, c, t) && t != e && t != g)
                    || (k == PieceType::King && c == black && t == g)) by {
                    assert(middle.stands(k, c, t) == (a1.stands(k, c, t) || (k
                        == PieceType::King && c == black && t == g)));
                    assert(a1.stands(k, c, t) == (self.stands(k, c, t) && t != e));
                    if t == g && self.stands(k, c, t) {
                        assert(self.occupied(g));
                    }
                }
            }
            self.lemma_moved_keeps_form(
                &middle,
                PieceType::King,
                PieceType::King,
                black,
                e,
                g,
            );
            assert(middle.moved_to(&after, PieceType::Rook, black, h, f)) by {
                assert forall|k: PieceType, c: bool, t: int| 0 <= t < 64 implies (
                #[trigger] after.stands(k, c, t)) == ((middle.stands(k, c, t) && t != h && t != f)
                    || (k == PieceType::Rook && c == black && t == f)) by {
                    assert(middle.stands(k, c, t) == ((self.stands(k, c, t) && t != e && t != g)
                        || (k == PieceType::King && c == black && t == g)));
                    if t == f && self.stands(k, c, t) {
                        assert(self.occupied(f));
                    }
                    if t == g && self.stands(k, c, t) {
                        assert(self.occupied(g));
                    }
                }
            }
            assert(middle.stands(PieceType::Rook, black, h));
            assert(!middle.stands(PieceType::King, black, f)) by {
                if self.stands(PieceType::King, black, f) {
                    assert(self.occupied(f));
                }
            }
            assert(!middle.stands(PieceType::King, !black, f)) by {
                if self.stands(PieceType::King, !black, f) {
                    assert(self.occupied(f));
                }
            }
            middle.lemma_moved_keeps_form(
                &after,
                PieceType::Rook,
                PieceType::Rook,
                black,
                h,
                f,
            );
            after.lemma_kept_follows(self);
        }
    }

    /// What comes of a pawn that has arrived follows from the position from
    /// which it set out.
    pub proof fn lemma_arrivals_follow(&self, from: int, to: int)
        requires
            self.well_formed(),
            0 <= from < 64,
            0 <= to < 64,
            self.stands(PieceType::Pawn, !self.white_to_move(), from),
            !self.side_stands(!self.white_to_move(), to),
            !self.stands(PieceType::King, self.white_to_move(), to),
        ensures
            all_follow(
                self,
                self.after_step(PieceType::Pawn, from, to).arrivals(!self.white_to_move(), to),
            ),
    {
        let black = !self.white_to_move();
        let arrived = self.after_step(PieceType::Pawn, from, to);
        self.lemma_step_keeps_form(PieceType::Pawn, from, to);
        arrived.lemma_kept_follows(self);
        self.lemma_promotion_follows(PieceType::Queen, from, to);
        self.lemma_promotion_follows(PieceType::Rook, from, to);
        self.lemma_promotion_follows(PieceType::Bishop, from, to);
        self.lemma_promotion_follows(PieceType::Knight, from, to);
        let q = arrived.promoted(PieceType::Queen, black, to).kept();
        let r = arrived.promoted(PieceType::Rook, black, to).kept();
        let b = arrived.promoted(PieceType::Bishop, black, to).kept();
        let n = arrived.promoted(PieceType::Knight, black, to).kept();
        lemma_all_follow_join(self, q, r);
        lemma_all_follow_join(self, q + r, b);
        lemma_all_follow_join(self, q + r + b, n);
    }

    /// The successor by a promotion follows from the position from which the
    /// pawn set out.
    pub proof fn lemma_promotion_follows(&self, kind: PieceType, from: int, to: int)
        requires
            self.well_formed(),
            0 <= from < 64,
            0 <= to < 64,
            kind != PieceType::King,
            self.stands(PieceType::Pawn, !self.white_to_move(), from),
            !self.side_stands(!self.white_to_move(), to),
            !self.stands(PieceType::King, self.white_to_move(), to),
        ensures
            all_follow(
                self,
                self.after_step(PieceType::Pawn, from, to).promoted(
                    kind,
                    !self.white_to_move(),
                    to,
                ).kept(),
            ),
    {
        let black = !self.white_to_move();
        let arrived = self.after_step(PieceType::Pawn, from, to);
        self.lemma_step_keeps_form(PieceType::Pawn, from, to);
        let after = arrived.promoted(kind, black, to);
        arrived.lemma_promoted(kind, black, to);
        assert(self.moved_to(&after, kind, black, from, to)) by {
            assert forall|k: PieceType, c: bool, t: int| 0 <= t < 64 implies (
            #[trigger] after.stands(k, c, t)) == ((self.stands(k, c, t) && t != from && t != to)
                || (k == kind && c == black && t == to)) by {
                assert(after.stands(k, c, t) == ((arrived.stands(k, c, t) && t != to) || (k
                    == kind && c == black && t == to)));
                assert(arrived.stands(k, c, t) == ((self.stands(k, c, t) && t != from && t != to)
                    || (k == PieceType::Pawn && c == black && t == to)));
            }
        }
        self.lemma_moved_keeps_form(&after, PieceType::Pawn, kind, black, from, to);
        assert(after.metadata == arrived.metadata);
        assert(after.rights_within(self)) by {
            assert forall|c: bool, s: CastleSide| #[trigger]
                after.may_castle(c, s) implies self.may_castle(c, s) by {
                assert(arrived.may_castle(c, s));
            }
        }
        after.lemma_kept_follows(self);
    }

    /// The legal successors by a single step of a pawn follow from the
    /// position.
    pub proof fn lemma_pawn_push_follows(&self, from: int)
        requires
            self.well_formed(),
            0 <= from < 64,
            self.stands(PieceType::Pawn, !self.white_to_move(), from),
        ensures
            all_follow(self, self.pawn_push(from)),
    {
        reveal(Board::pawn_push);
        let to = from + 8 * forward(!self.white_to_move());
        if 0 <= to < 64 && !self.occupied(to) {
            self.lemma_arrivals_follow(from, to);
        }
    }

    /// The legal successor by a double step of a pawn follows from the
    /// position.
    pub proof fn lemma_pawn_double_follows(&self, from: int)
        requires
            self.well_formed(),
            0 <= from < 64,
            self.stands(PieceType::Pawn, !self.white_to_move(), from),
        ensures
            all_follow(self, self.pawn_double(from)),
    {
        reveal(Board::pawn_double);
        let black = !self.white_to_move();
        let mid = from + 8 * forward(black);
        let to = from + 16 * forward(black);
        if crate::base::pawns::on_start_rank(black, from) && !self.occupied(mid) && !self.occupied(
            to,
        ) {
            let arrived = self.after_step(PieceType::Pawn, from, to);
            self.lemma_step_keeps_form(PieceType::Pawn, from, to);
            self.lemma_after_step(PieceType::Pawn, from, to);
            let file = file_of(from) as u8;
            let after = arrived.with_en_passant(Some(file));
            arrived.lemma_with_en_passant(Some(file));
            arrived.lemma_same_pieces_form(&after);
            assert(after.rights_within(self)) by {
                assert forall|c: bool, s: CastleSide| #[trigger]
                    after.may_castle(c, s) implies self.may_castle(c, s) by {
                    assert(arrived.may_castle(c, s));
                }
            }
            after.lemma_kept_follows(self);
        }
    }

    /// The legal successors by a capture of a pawn follow from the
    /// position.
    pub proof fn lemma_pawn_capture_follows(&self, from: int, dx: int)
        requires
            self.well_formed(),
            0 <= from < 64,
            self.stands(PieceType::Pawn, !self.white_to_move(), from),
        ensures
            all_follow(self, self.pawn_capture(from, dx)),
    {
        reveal(Board::pawn_capture);
        let black = !self.white_to_move();
        let x = file_of(from) + dx;
        let y = rank_of(from) + forward(black);
        let to = square_of(x, y);
        if in_board(x, y) && self.side_stands(!black, to) && !self.stands(
            PieceType::King,
            !black,
            to,
        ) {
            assert(self.single(to));
            self.lemma_arrivals_follow(from, to);
        }
    }

    /// The legal successor by a capture in passing follows from the
    /// position.
    pub proof fn lemma_pawn_passing_follows(&self, from: int)
        requires
            self.well_formed(),
            0 <= from < 64,
            self.stands(PieceType::Pawn, !self.white_to_move(), from),
        ensures
            all_follow(self, self.pawn_passing(from)),
    {
        reveal(Board::pawn_passing);
        let black = !self.white_to_move();
        if self.may_pass(from) {
            let victim = square_of(self.en_passant_bits(), rank_of(from));
            let to = square_of(self.en_passant_bits(), rank_of(from) + forward(black));
            self.lemma_metadata_fields();
            let cleared = self.without_piece(victim);
            self.lemma_without_piece(victim);
            assert(self.single(victim));
            assert(self.cleared_of(&cleared, victim));
            self.lemma_cleared_keeps_form(&cleared, victim);
            assert(cleared.metadata == self.metadata);
            assert(cleared.well_formed());
            assert(cleared.stands(PieceType::Pawn, black, from));
            assert(!cleared.side_stands(black, to)) by {
                if cleared.side_stands(black, to) {
                    assert(self.side_stands(black, to));
                    assert(self.occupied(to));
                }
            }
            assert(!cleared.stands(PieceType::King, !black, to)) by {
                if self.stands(PieceType::King, !black, to) {
                    assert(self.occupied(to));
                }
            }
            cleared.lemma_step_keeps_form(PieceType::Pawn, from, to);
            let after = cleared.after_step(PieceType::Pawn, from, to);
            assert(after.rights_within(self)) by {
                assert forall|c: bool, s: CastleSide| #[trigger]
                    after.may_castle(c, s) implies self.may_castle(c, s) by {
                    assert(cleared.may_castle(c, s));
                }
            }
            after.lemma_kept_follows(self);
        }
    }

    /// The legal successors by a move of the pawns follow from the
    /// position.
    pub proof fn lemma_pawn_moves_follow(&self, n: nat)
        requires
            self.well_formed(),
            n <= 64,
        ensures
            all_follow(self, self.pawn_moves_from(n)),
        decreases n,
    {
        if n > 0 {
            self.lemma_pawn_moves_follow((n - 1) as nat);
            let rest = self.pawn_moves_from((n - 1) as nat);
            let from = n - 1;
            if self.stands(PieceType::Pawn, !self.white_to_move(), from) {
                self.lemma_pawn_push_follows(from);
                self.lemma_pawn_double_follows(from);
                self.lemma_pawn_capture_follows(from, -1);
                self.lemma_pawn_capture_follows(from, 1);
                self.lemma_pawn_passing_follows(from);
                let a = self.pawn_push(from);
                let b = self.pawn_double(from);
                let c = self.pawn_capture(from, -1);
                let d = self.pawn_capture(from, 1);
                let e = self.pawn_passing(from);
                lemma_all_follow_join(self, a, b);
                lemma_all_follow_join(self, a + b, c);
                lemma_all_follow_join(self, a + b + c, d);
                lemma_all_follow_join(self, a + b + c + d, e);
                lemma_all_follow_join(self, rest, self.pawn_moves_at(from));
            }
        }
    }

    /// Every legal successor of a well-formed position is well formed: no
    /// two pieces stand on one square, each side has exactly one king, and
    /// the en-passant file means nothing unless a pawn has just made a double
    /// step. The side that has moved has not left its king attacked. The
    /// successor has no castling right that the position had not, and the
    /// other side is to move in it.
    pub proof fn lemma_successors_follow(&self)
        requires
            self.well_formed(),
        ensures
            all_follow(self, self.successors()),
    {
        self.lemma_steps_from_follow(PieceType::Rook, 64);
        self.lemma_steps_from_follow(PieceType::Knight, 64);
        self.lemma_steps_from_follow(PieceType::Bishop, 64);
        self.lemma_steps_from_follow(PieceType::Queen, 64);
        self.lemma_pawn_moves_follow(64);
        self.lemma_steps_from_follow(PieceType::King, 64);
        self.lemma_castles_follow(CastleSide::King);
        self.lemma_castles_follow(CastleSide::Queen);
        let r = self.steps_from(PieceType::Rook, 64);
        let n = self.steps_from(PieceType::Knight, 64);
        let b = self.steps_from(PieceType::Bishop, 64);
        let q = self.steps_from(PieceType::Queen, 64);
        let p = self.pawn_moves_from(64);
        let k = self.steps_from(PieceType::King, 64);
        let ck = self.castles(CastleSide::King);
        let cq = self.castles(CastleSide::Queen);
        lemma_all_follow_join(self, r, n);
        lemma_all_follow_join(self, r + n, b);
        lemma_all_follow_join(self, r + n + b, q);
        lemma_all_follow_join(self, r + n + b + q, p);
        lemma_all_follow_join(self, k, ck);
        lemma_all_follow_join(self, k + ck, cq);
        lemma_all_follow_join(self, r + n + b + q + p, k + ck + cq);
    }

    /// No legal successor leaves the side that has moved in check.
    pub proof fn lemma_successors_are_legal(&self, i: int)
        requires
            0 <= i < self.successors().len(),
        ensures
            self.successors()[i].legal(),
    {
        self.lemma_successors_all_legal();
    }

    /// What is kept of a position is legal.
    pub proof fn lemma_kept_legal(&self)
        ensures
            all_legal(self.kept()),
    {
        self.scored().lemma_same_position(self);
    }

    /// What comes of a pawn that has arrived is legal.
    pub proof fn lemma_arrivals_legal(&self, black: bool, to: int)
        ensures
            all_legal(self.arrivals(black, to)),
    {
        self.lemma_kept_legal();
        let q = self.promoted(PieceType::Queen, black, to);
        let r = self.promoted(PieceType::Rook, black, to);
        let b = self.promoted(PieceType::Bishop, black, to);
        let n = self.promoted(PieceType::Knight, black, to);
        q.lemma_kept_legal();
        r.lemma_kept_legal();
        b.lemma_kept_legal();
        n.lemma_kept_legal();
        lemma_all_legal_join(q.kept(), r.kept());
        lemma_all_legal_join(q.kept() + r.kept(), b.kept());
        lemma_all_legal_join(q.kept() + r.kept() + b.kept(), n.kept());
    }

    /// The successors by a step of one piece are legal.
    pub proof fn lemma_steps_to_legal(&self, kind: PieceType, from: int, n: nat)
        ensures
            all_legal(self.steps_to(kind, from, n)),
        decreases n,
    {
        if n > 0 {
            self.lemma_steps_to_legal(kind, from, (n - 1) as nat);
            self.after_step(kind, from, n - 1).lemma_kept_legal();
            lemma_all_legal_join(
                self.steps_to(kind, from, (n - 1) as nat),
                self.after_step(kind, from, n - 1).kept(),
            );
        }
    }

    /// The successors by a step of the pieces of one kind are legal.
    pub proof fn lemma_steps_from_legal(&self, kind: PieceType, n: nat)
        ensures
            all_legal(self.steps_from(kind, n)),
        decreases n,
    {
        if n > 0 {
            self.lemma_steps_from_legal(kind, (n - 1) as nat);
            self.lemma_steps_to_legal(kind, n - 1, 64);
            lemma_all_legal_join(
                self.steps_from(kind, (n - 1) as nat),
                self.steps_to(kind, n - 1, 64),
            );
        }
    }

    /// The successors by a move of one pawn are legal.
    pub proof fn lemma_pawn_moves_at_legal(&self, from: int)
        ensures
            all_legal(self.pawn_moves_at(from)),
    {
        reveal(Board::pawn_push);
        reveal(Board::pawn_double);
        reveal(Board::pawn_capture);
        reveal(Board::pawn_passing);
        let black = !self.white_to_move();
        let a = self.pawn_push(from);
        let b = self.pawn_double(from);
        let c = self.pawn_capture(from, -1);
        let d = self.pawn_capture(from, 1);
        let e = self.pawn_passing(from);
        self.after_step(PieceType::Pawn, from, from + 8 * forward(black)).lemma_arrivals_legal(
            black,
            from + 8 * forward(black),
        );
        self.after_step(PieceType::Pawn, from, from + 16 * forward(black)).with_en_passant(
            Some(file_of(from) as u8),
        ).lemma_kept_legal();
        let y = rank_of(from) + forward(black);
        self.after_step(
            PieceType::Pawn,
            from,
            square_of(file_of(from) - 1, y),
        ).lemma_arrivals_legal(black, square_of(file_of(from) - 1, y));
        self.after_step(
            PieceType::Pawn,
            from,
            square_of(file_of(from) + 1, y),
        ).lemma_arrivals_legal(black, square_of(file_of(from) + 1, y));
        self.without_piece(square_of(self.en_passant_bits(), rank_of(from))).after_step(
            PieceType::Pawn,
            from,
            square_of(self.en_passant_bits(), rank_of(from) + forward(black)),
        ).lemma_kept_legal();
        lemma_all_legal_join(a, b);
        lemma_all_legal_join(a + b, c);
        lemma_all_legal_join(a + b + c, d);
        lemma_all_legal_join(a + b + c + d, e);
    }

    /// The successors by a move of the pawns are legal.
    pub proof fn lemma_pawn_moves_legal(&self, n: nat)
        ensures
            all_legal(self.pawn_moves_from(n)),
        decreases n,
    {
        if n > 0 {
            self.lemma_pawn_moves_legal((n - 1) as nat);
            self.lemma_pawn_moves_at_legal(n - 1);
            lemma_all_legal_join(self.pawn_moves_from((n - 1) as nat), self.pawn_moves_at(n - 1));
        }
    }

    /// No legal successor leaves the side that has moved in check, whatever
    /// the position.
    pub proof fn lemma_successors_all_legal(&self)
        ensures
            all_legal(self.successors()),
    {
        self.lemma_steps_from_legal(PieceType::Rook, 64);
        self.lemma_steps_from_legal(PieceType::Knight, 64);
        self.lemma_steps_from_legal(PieceType::Bishop, 64);
        self.lemma_steps_from_legal(PieceType::Queen, 64);
        self.lemma_pawn_moves_legal(64);
        self.lemma_steps_from_legal(PieceType::King, 64);
        self.after_castle(CastleSide::King).lemma_kept_legal();
        self.after_castle(CastleSide::Queen).lemma_kept_legal();
        let r = self.steps_from(PieceType::Rook, 64);
        let n = self.steps_from(PieceType::Knight, 64);
        let b = self.steps_from(PieceType::Bishop, 64);
        let q = self.steps_from(PieceType::Queen, 64);
        let p = self.pawn_moves_from(64);
        let k = self.steps_from(PieceType::King, 64);
        let ck = self.castles(CastleSide::King);
        let cq = self.castles(CastleSide::Queen);
        lemma_all_legal_join(r, n);
        lemma_all_legal_join(r + n, b);
        lemma_all_legal_join(r + n + b, q);
        lemma_all_legal_join(r + n + b + q, p);
        lemma_all_legal_join(k, ck);
        lemma_all_legal_join(k + ck, cq);
        lemma_all_legal_join(r + n + b + q + p, k + ck + cq);
    }
}

} // verus!
