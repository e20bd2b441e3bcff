//! All legal successors of a position, best first for the side to move.

use crate::base::arrange::arranged;
use crate::base::arrange::landing;
use crate::base::defs::Board;
use crate::base::defs::CastleSide;
use crate::base::defs::GameState;
use crate::base::defs::LegalMoveVec;
use crate::base::defs::PieceType;
use vstd::prelude::*;
use vstd::seq_lib::to_multiset_build;
use vstd::seq_lib::to_multiset_insert;

verus! {

/// Whether `a` may stand in front of `b` in a list sorted for the given
/// side: white wants the highest evaluation first, black the lowest.
pub open spec fn goes_first(a: Board, b: Board, is_black: bool) -> bool {
    if is_black {
        a.eval <= b.eval
    } else {
        a.eval >= b.eval
    }
}

/// Whether a list is sorted for the given side.
pub open spec fn best_first(s: Seq<Board>, is_black: bool) -> bool {
    forall|i: int, j: int| 0 <= i < j < s.len() ==> goes_first(s[i], s[j], is_black)
}

/// The order in which the successors are sorted for the given side.
pub open spec fn eval_order(is_black: bool) -> spec_fn(Board, Board) -> bool {
    |a: Board, b: Board| goes_first(a, b, is_black)
}

/// The first place at or behind `k` at which a position stands that the
/// move with the given tag has led to, or the length of the list where
/// there is none.
pub open spec fn tag_place(list: Seq<Board>, tag: u32, k: nat) -> nat
    decreases list.len() - k,
{
    if k >= list.len() || list[k as int].latest_move == tag {
        k
    } else {
        tag_place(list, tag, k + 1)
    }
}

/// A tag that stands at a place of the list is found at that place or
/// before it.
pub proof fn lemma_tag_found(list: Seq<Board>, tag: u32, k: nat, j: int)
    requires
        k <= j < list.len(),
        list[j].latest_move == tag,
    ensures
        tag_place(list, tag, k) <= j,
    decreases j - k,
{
    if list[k as int].latest_move != tag {
        lemma_tag_found(list, tag, k + 1, j);
    }
}

/// The place of a tag lies at or behind the place from which it is looked
/// for and within the list or at its end, and a place within the list holds
/// a position with that tag.
pub proof fn lemma_tag_place(list: Seq<Board>, tag: u32, k: nat)
    requires
        k <= list.len(),
    ensures
        k <= tag_place(list, tag, k) <= list.len(),
        tag_place(list, tag, k) < list.len() ==> list[tag_place(list, tag, k) as int].latest_move
            == tag,
    decreases list.len() - k,
{
    if k < list.len() && list[k as int].latest_move != tag {
        lemma_tag_place(list, tag, k + 1);
    }
}

/// The first position of the list that the move with the given tag has led
/// to, if there is one.
pub open spec fn move_by_tag(list: Seq<Board>, tag: u32) -> Option<Board> {
    let place = tag_place(list, tag, 0);
    if place < list.len() {
        Some(list[place as int])
    } else {
        None
    }
}

fn may_precede(a: &Board, b: &Board, is_black: bool) -> (r: bool)
    ensures
        r == goes_first(*a, *b, is_black),
{
    if is_black {
        a.eval <= b.eval
    } else {
        a.eval >= b.eval
    }
}

impl Board {
    /// The legal successors of the position in the order in which they are
    /// produced: moves of rooks, knights, bishops, queens, pawns and the
    /// king.
    pub open spec fn successors(&self) -> Seq<Board> {
        self.steps_from(PieceType::Rook, 64) + self.steps_from(PieceType::Knight, 64)
            + self.steps_from(PieceType::Bishop, 64) + self.steps_from(PieceType::Queen, 64)
            + self.pawn_moves_from(64) + (self.steps_from(PieceType::King, 64) + self.castles(
            CastleSide::King,
        ) + self.castles(CastleSide::Queen))
    }

    /// Sorts a list by the cached evaluation, best first for the side named
    /// by `is_black`. Nothing is added and nothing is lost, and positions
    /// with the same evaluation stay in the order in which they came.
    pub fn sort_legal_moves(&self, legal_moves: &mut LegalMoveVec, is_black: bool)
        ensures
            final(legal_moves)@ == arranged(
                old(legal_moves)@,
                eval_order(is_black),
                old(legal_moves)@.len(),
            ),
            best_first(final(legal_moves)@, is_black),
            final(legal_moves)@.to_multiset() == old(legal_moves)@.to_multiset(),
    {
        let mut out: Vec<Board> = Vec::new();
        let mut i: usize = 0;
        let n = legal_moves.data.len();
        assert(legal_moves@.take(0) =~= Seq::<Board>::empty());
        while i < n
            invariant
                i <= n,
                n == legal_moves@.len(),
                out@.len() == i,
                out@ == arranged(legal_moves@, eval_order(is_black), i as nat),
                best_first(out@, is_black),
                out@.to_multiset() == legal_moves@.take(i as int).to_multiset(),
            decreases n - i,
        {
            let x = legal_moves.data[i];
            let mut p: usize = 0;
            let mut searching = true;
            while searching && p < out.len()
                invariant
                    p <= out@.len(),
                    forall|k: int| 0 <= k < p ==> goes_first(#[trigger] out@[k], x, is_black),
                    !searching ==> p < out@.len() && !goes_first(out@[p as int], x, is_black),
                    landing(out@, x, eval_order(is_black), 0) == landing(
                        out@,
                        x,
                        eval_order(is_black),
                        p as nat,
                    ),
                decreases out@.len() - p + (if searching {
                    1int
                } else {
                    0int
                }),
            {
                if may_precede(&out[p], &x, is_black) {
                    p = p + 1;
                } else {
                    searching = false;
                }
            }
            let ghost before = out@;
            out.insert(p, x);
            proof {
                to_multiset_insert(before, p as int, x);
                to_multiset_build(legal_moves@.take(i as int), x);
                assert(legal_moves@.take(i + 1) =~= legal_moves@.take(i as int).push(x));
                assert forall|a: int, b: int| 0 <= a < b < out@.len() implies goes_first(
                    out@[a],
                    out@[b],
                    is_black,
                ) by {
                    if a < p && b > p {
                        assert(out@[a] == before[a]);
                        assert(out@[b] == before[b - 1]);
                    } else if a < p && b == p {
                        assert(out@[a] == before[a]);
                    } else if a == p {
                        assert(out@[b] == before[b - 1]);
                        assert(goes_first(before[p as int], before[b - 1], is_black) || b - 1 == p);
                    } else if b < p {
                        assert(out@[a] == before[a]);
                        assert(out@[b] == before[b]);
                    } else {
                        assert(out@[a] == before[a - 1]);
                        assert(out@[b] == before[b - 1]);
                    }
                }
            }
            i = i + 1;
        }
        assert(legal_moves@.take(n as int) =~= legal_moves@);
        legal_moves.data = out;
    }

    /// All legal successors of the position in the order in which they are
    /// produced.
    pub fn generate_all_moves(&self) -> (r: LegalMoveVec)
        ensures
            r@ == self.successors(),
    {
        let mut combined = LegalMoveVec::new();
        combined.extend(self.generate_rook_moves());
        combined.extend(self.generate_knight_moves());
        combined.extend(self.generate_bishop_moves());
        combined.extend(self.generate_queen_moves());
        combined.extend(self.generate_pawn_moves());
        combined.extend(self.generate_king_moves());
        assert(combined@ =~= self.successors());
        combined
    }

    /// All legal successors of the position, best first for the side to
    /// move by their cached evaluation. The list is empty exactly when the
    /// side to move is mated or stalemated.
    pub fn get_legal_moves(&self) -> (r: LegalMoveVec)
        ensures
            r@ == arranged(
                self.successors(),
                eval_order(!self.white_to_move()),
                self.successors().len(),
            ),
            r@.to_multiset() == self.successors().to_multiset(),
            r@.len() == self.successors().len(),
            best_first(r@, !self.white_to_move()),
    {
        let is_black = !self.read_bookkeeping().white_to_move;
        let mut combined = self.generate_all_moves();
        self.sort_legal_moves(&mut combined, is_black);
        proof {
            combined@.to_multiset_ensures();
            self.successors().to_multiset_ensures();
        }
        combined
    }

    /// The successor by the move with the given tag, where that move is
    /// legal, and nothing where it is not.
    pub fn apply(&self, tag: u32) -> (r: Option<Board>)
        ensures
            r == move_by_tag(self.successors(), tag),
            match r {
                Some(b) => self.successors().contains(b) && b.latest_move == tag,
                None => forall|i: int|
                    0 <= i < self.successors().len() ==> (
                    #[trigger] self.successors()[i]).latest_move != tag,
            },
    {
        let moves = self.generate_all_moves();
        let mut i: usize = 0;
        while i < moves.data.len()
            invariant
                i <= moves@.len(),
                moves@ == self.successors(),
                forall|j: int| 0 <= j < i ==> (#[trigger] moves@[j]).latest_move != tag,
                tag_place(moves@, tag, 0) == tag_place(moves@, tag, i as nat),
            decreases moves@.len() - i,
        {
            if moves.data[i].latest_move == tag {
                return Some(moves.data[i]);
            }
            i = i + 1;
        }
        None
    }

    /// Whether the side to move can play, is mated or is stalemated.
    pub fn game_state(&self) -> (r: GameState)
        ensures
            r == (if self.successors().len() > 0 {
                GameState::Playable
            } else if self.checked() {
                GameState::Checkmate
            } else {
                GameState::Stalemate
            }),
    {
        let moves = self.generate_all_moves();
        if moves.len() > 0 {
            GameState::Playable
        } else if self.in_check() {
            GameState::Checkmate
        } else {
            GameState::Stalemate
        }
    }
}

} // verus!
