//! The lists of successors by steps hold what the rules allow and nothing
//! else.

use crate::base::defs::Board;
use crate::base::defs::PieceType;
use vstd::prelude::*;

verus! {

impl Board {
    /// Whether `next` is the legal successor by the step of the piece of the
    /// given kind from `from` to `to`.
    pub open spec fn is_step(&self, kind: PieceType, from: int, to: int, next: Board) -> bool {
        0 <= to < 64 && self.may_step(kind, from, to) && self.after_step(kind, from, to).legal()
            && next == self.after_step(kind, from, to).scored()
    }

    /// The successors by a step of one piece to a square below `n` are the
    /// positions after the steps that the piece may make there and that are
    /// legal.
    pub proof fn lemma_steps_to_contains(&self, kind: PieceType, from: int, n: nat, next: Board)
        requires
            n <= 64,
        ensures
            self.steps_to(kind, from, n).contains(next) == exists|to: int|
                to < n && #[trigger] self.is_step(kind, from, to, next),
        decreases n,
    {
        if n > 0 {
            self.lemma_steps_to_contains(kind, from, (n - 1) as nat, next);
            let rest = self.steps_to(kind, from, (n - 1) as nat);
            let here = self.after_step(kind, from, n - 1).kept();
            let all = self.steps_to(kind, from, n);
            if self.may_step(kind, from, n - 1) {
                assert(all == rest + here);
                if all.contains(next) {
                    let i = choose|i: int| 0 <= i < all.len() && all[i] == next;
                    if i < rest.len() {
                        assert(rest[i] == next);
                        assert(rest.contains(next));
                        let to = choose|to: int|
                            to < n - 1 && #[trigger] self.is_step(kind, from, to, next);
                        assert(self.is_step(kind, from, to, next));
                    } else {
                        assert(here[i - rest.len()] == next);
                        assert(self.is_step(kind, from, n - 1, next));
                    }
                }
                if exists|to: int| to < n && #[trigger] self.is_step(kind, from, to, next) {
                    let to = choose|to: int|
                        to < n && #[trigger] self.is_step(kind, from, to, next);
                    if to < n - 1 {
                        assert(rest.contains(next));
                        let i = choose|i: int| 0 <= i < rest.len() && rest[i] == next;
                        assert(all[i] == next);
                    } else {
                        assert(here[0] == next);
                        assert(all[rest.len() as int] == next);
                    }
                }
            } else {
                if exists|to: int| to < n && #[trigger] self.is_step(kind, from, to, next) {
                    let to = choose|to: int|
                        to < n && #[trigger] self.is_step(kind, from, to, next);
                    assert(to < n - 1);
                }
            }
        } else {
            assert(self.steps_to(kind, from, 0).len() == 0);
        }
    }

    /// The successors by a step of the pieces of one kind are the positions
    /// after the steps that such a piece of the side to move may make and
    /// that are legal: every one of them is in the list, and nothing else
    /// is.
    pub proof fn lemma_steps_from_contains(&self, kind: PieceType, n: nat, next: Board)
        ensures
            self.steps_from(kind, n).contains(next) == exists|from: int, to: int|
                0 <= from < n && self.stands(kind, !self.white_to_move(), from)
                    && #[trigger] self.is_step(kind, from, to, next),
        decreases n,
    {
        if n > 0 {
            self.lemma_steps_from_contains(kind, (n - 1) as nat, next);
            let rest = self.steps_from(kind, (n - 1) as nat);
            let here = self.steps_to(kind, n - 1, 64);
            let all = self.steps_from(kind, n);
            self.lemma_steps_to_contains(kind, n - 1, 64, next);
            if self.stands(kind, !self.white_to_move(), n - 1) {
                assert(all == rest + here);
                if all.contains(next) {
                    let i = choose|i: int| 0 <= i < all.len() && all[i] == next;
                    if i < rest.len() {
                        assert(rest[i] == next);
                        assert(rest.contains(next));
                        let (from, to) = choose|from: int, to: int|
                            0 <= from < n - 1 && self.stands(kind, !self.white_to_move(), from)
                                && #[trigger] self.is_step(kind, from, to, next);
                        assert(self.is_step(kind, from, to, next));
                    } else {
                        assert(here[i - rest.len()] == next);
                        assert(here.contains(next));
                        let to = choose|to: int|
                            to < 64 && #[trigger] self.is_step(kind, n - 1, to, next);
                        assert(self.is_step(kind, n - 1, to, next));
                    }
                }
                if exists|from: int, to: int|
                    0 <= from < n && self.stands(kind, !self.white_to_move(), from)
                        && #[trigger] self.is_step(kind, from, to, next) {
                    let (from, to) = choose|from: int, to: int|
                        0 <= from < n && self.stands(kind, !self.white_to_move(), from)
                            && #[trigger] self.is_step(kind, from, to, next);
                    if from < n - 1 {
                        assert(rest.contains(next));
                        let i = choose|i: int| 0 <= i < rest.len() && rest[i] == next;
                        assert(all[i] == next);
                    } else {
                        assert(self.is_step(kind, n - 1, to, next));
                        assert(here.contains(next));
                        let i = choose|i: int| 0 <= i < here.len() && here[i] == next;
                        assert(all[rest.len() + i] == next);
                    }
                }
            } else {
                if exists|from: int, to: int|
                    0 <= from < n && self.stands(kind, !self.white_to_move(), from)
                        && #[trigger] self.is_step(kind, from, to, next) {
                    let (from, to) = choose|from: int, to: int|
                        0 <= from < n && self.stands(kind, !self.white_to_move(), from)
                            && #[trigger] self.is_step(kind, from, to, next);
                    assert(from < n - 1);
                }
            }
        } else {
            assert(self.steps_from(kind, 0).len() == 0);
        }
    }
}

} // verus!
