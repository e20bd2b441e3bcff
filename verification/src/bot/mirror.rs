//! The evaluator sees a position and its mirror image, with colours changed
//! and the board turned upside down, as the same thing from the two sides.

use crate::base::attacks::beside;
use crate::base::attacks::file_of;
use crate::base::attacks::rank_of;
use crate::base::bits::on;
use crate::base::defs::Board;
use crate::base::defs::PieceType;
use crate::bot::evaluate::lowest_from;
use crate::bot::evaluate::manhattan;
use crate::bot::evaluate::sum_upto;
use vstd::prelude::*;

verus! {

/// The square on the same file whose rank has the same distance from the
/// other edge of the board.
pub open spec fn flipped(sq: int) -> int {
    8 * (7 - sq / 8) + sq % 8
}

/// The sum over the eight squares of a rank.
pub open spec fn rank_sum(f: spec_fn(int) -> int, r: int) -> int {
    f(8 * r) + f(8 * r + 1) + f(8 * r + 2) + f(8 * r + 3) + f(8 * r + 4) + f(8 * r + 5) + f(
        8 * r + 6,
    ) + f(8 * r + 7)
}

/// The sum over the squares of the board goes up by the sum over a rank
/// when that rank is added.
pub proof fn lemma_sum_rank(f: spec_fn(int) -> int, r: int)
    requires
        0 <= r < 8,
    ensures
        sum_upto(f, (8 * r + 8) as nat) == sum_upto(f, (8 * r) as nat) + rank_sum(f, r),
{
    let b = 8 * r;
    assert(sum_upto(f, (b + 1) as nat) == sum_upto(f, b as nat) + f(b));
    assert(sum_upto(f, (b + 2) as nat) == sum_upto(f, (b + 1) as nat) + f(b + 1));
    assert(sum_upto(f, (b + 3) as nat) == sum_upto(f, (b + 2) as nat) + f(b + 2));
    assert(sum_upto(f, (b + 4) as nat) == sum_upto(f, (b + 3) as nat) + f(b + 3));
    assert(sum_upto(f, (b + 5) as nat) == sum_upto(f, (b + 4) as nat) + f(b + 4));
    assert(sum_upto(f, (b + 6) as nat) == sum_upto(f, (b + 5) as nat) + f(b + 5));
    assert(sum_upto(f, (b + 7) as nat) == sum_upto(f, (b + 6) as nat) + f(b + 6));
    assert(sum_upto(f, (b + 8) as nat) == sum_upto(f, (b + 7) as nat) + f(b + 7));
}

/// The sum over the board is the sum of the sums over its ranks.
pub proof fn lemma_sum_by_ranks(f: spec_fn(int) -> int)
    ensures
        sum_upto(f, 64) == rank_sum(f, 0) + rank_sum(f, 1) + rank_sum(f, 2) + rank_sum(f, 3)
            + rank_sum(f, 4) + rank_sum(f, 5) + rank_sum(f, 6) + rank_sum(f, 7),
{
    lemma_sum_rank(f, 0);
    lemma_sum_rank(f, 1);
    lemma_sum_rank(f, 2);
    lemma_sum_rank(f, 3);
    lemma_sum_rank(f, 4);
    lemma_sum_rank(f, 5);
    lemma_sum_rank(f, 6);
    lemma_sum_rank(f, 7);
    assert(sum_upto(f, 0) == 0);
}

/// The flipped square by rank and file.
pub proof fn lemma_flipped_at(r: int, c: int)
    requires
        0 <= r < 8,
        0 <= c < 8,
    ensures
        flipped(8 * r + c) == 8 * (7 - r) + c,
        0 <= 8 * r + c < 64,
{
    assert((8 * r + c) / 8 == r);
    assert((8 * r + c) % 8 == c);
}

/// Turning the board upside down turns the sum over a rank into the sum
/// over the rank that lies as far from the other edge.
pub proof fn lemma_rank_flipped(f: spec_fn(int) -> int, g: spec_fn(int) -> int, r: int)
    requires
        0 <= r < 8,
        forall|sq: int| 0 <= sq < 64 ==> #[trigger] g(sq) == f(flipped(sq)),
    ensures
        rank_sum(g, r) == rank_sum(f, 7 - r),
{
    let b = 8 * r;
    let m = 8 * (7 - r);
    lemma_flipped_at(r, 0);
    lemma_flipped_at(r, 1);
    lemma_flipped_at(r, 2);
    lemma_flipped_at(r, 3);
    lemma_flipped_at(r, 4);
    lemma_flipped_at(r, 5);
    lemma_flipped_at(r, 6);
    lemma_flipped_at(r, 7);
    assert(g(b) == f(m));
    assert(g(b + 1) == f(m + 1));
    assert(g(b + 2) == f(m + 2));
    assert(g(b + 3) == f(m + 3));
    assert(g(b + 4) == f(m + 4));
    assert(g(b + 5) == f(m + 5));
    assert(g(b + 6) == f(m + 6));
    assert(g(b + 7) == f(m + 7));
}

/// Turning the board upside down changes no sum over its squares.
pub proof fn lemma_sum_flipped(f: spec_fn(int) -> int, g: spec_fn(int) -> int)
    requires
        forall|sq: int| 0 <= sq < 64 ==> #[trigger] g(sq) == f(flipped(sq)),
    ensures
        sum_upto(g, 64) == sum_upto(f, 64),
{
    lemma_sum_by_ranks(f);
    lemma_sum_by_ranks(g);
    lemma_rank_flipped(f, g, 0);
    lemma_rank_flipped(f, g, 1);
    lemma_rank_flipped(f, g, 2);
    lemma_rank_flipped(f, g, 3);
    lemma_rank_flipped(f, g, 4);
    lemma_rank_flipped(f, g, 5);
    lemma_rank_flipped(f, g, 6);
    lemma_rank_flipped(f, g, 7);
}

/// The sum of the negatives is the negative of the sum.
pub proof fn lemma_sum_negated(f: spec_fn(int) -> int, g: spec_fn(int) -> int, n: nat)
    requires
        forall|sq: int| 0 <= sq < n ==> #[trigger] g(sq) == -f(sq),
    ensures
        sum_upto(g, n) == -sum_upto(f, n),
    decreases n,
{
    if n > 0 {
        lemma_sum_negated(f, g, (n - 1) as nat);
    }
}

/// Two functions that agree on every square have the same sum.
pub proof fn lemma_sum_same(f: spec_fn(int) -> int, g: spec_fn(int) -> int, n: nat)
    requires
        forall|sq: int| 0 <= sq < n ==> #[trigger] g(sq) == f(sq),
    ensures
        sum_upto(g, n) == sum_upto(f, n),
    decreases n,
{
    if n > 0 {
        lemma_sum_same(f, g, (n - 1) as nat);
    }
}

/// Turning the board upside down twice changes nothing; it keeps the file
/// of a square and turns its rank round.
pub proof fn lemma_flipped(sq: int)
    requires
        0 <= sq < 64,
    ensures
        0 <= flipped(sq) < 64,
        flipped(flipped(sq)) == sq,
        file_of(flipped(sq)) == file_of(sq),
        rank_of(flipped(sq)) == 7 - rank_of(sq),
{
    lemma_flipped_at(sq / 8, sq % 8);
    lemma_flipped_at(7 - sq / 8, sq % 8);
}

/// The lowest square of a set with one square is that square.
pub proof fn lemma_lowest_of_one(w: u64, only: int, k: nat)
    requires
        0 <= only < 64,
        k <= only,
        forall|t: int| 0 <= t < 64 ==> (#[trigger] on(w, t)) == (t == only),
    ensures
        lowest_from(w, k) == only,
    decreases only - k,
{
    if k < only {
        assert(!on(w, k as int));
        lemma_lowest_of_one(w, only, k + 1);
    } else {
        assert(on(w, only));
    }
}

impl Board {
    /// Whether this position is the mirror image of `other`: what stands on
    /// a square here stands there in the other colour on the square that
    /// lies as far from the other edge of the board, and the half-move clocks
    /// agree.
    pub open spec fn mirrors(&self, other: &Board) -> bool {
        (forall|k: PieceType, c: bool, sq: int|
            0 <= sq < 64 ==> (#[trigger] self.stands(k, c, sq)) == other.stands(
                k,
                !c,
                flipped(sq),
            )) && self.half_moves() == other.half_moves()
    }

    /// The mirror image of the mirror image is the position itself.
    pub proof fn lemma_mirrors_back(&self, other: &Board)
        requires
            self.mirrors(other),
        ensures
            other.mirrors(self),
    {
        assert forall|k: PieceType, c: bool, sq: int| 0 <= sq < 64 implies (
        #[trigger] other.stands(k, c, sq)) == self.stands(k, !c, flipped(sq)) by {
            lemma_flipped(sq);
            assert(self.stands(k, !c, flipped(sq)) == other.stands(
                k,
                !!c,
                flipped(flipped(sq)),
            ));
        }
    }

    /// A position has as many pieces of a kind and colour as its mirror
    /// image has of that kind in the other colour.
    pub proof fn lemma_mirror_count(&self, other: &Board, kind: PieceType, black: bool)
        requires
            self.mirrors(other),
        ensures
            self.count(kind, black) == other.count(kind, !black),
    {
        let f = other.indicator(kind, !black);
        let g = self.indicator(kind, black);
        assert forall|sq: int| 0 <= sq < 64 implies #[trigger] g(sq) == f(flipped(sq)) by {
            assert(self.stands(kind, black, sq) == other.stands(kind, !black, flipped(sq)));
        }
        lemma_sum_flipped(f, g);
    }

    /// A position has the material of its mirror image with the colours
    /// changed.
    pub proof fn lemma_mirror_material(&self, other: &Board, black: bool)
        requires
            self.mirrors(other),
        ensures
            self.side_count(black) == other.side_count(!black),
            self.heavy_material(black) == other.heavy_material(!black),
            self.material(black) == other.material(!black),
            self.cannot_mate(black) == other.cannot_mate(!black),
    {
        self.lemma_mirror_count(other, PieceType::King, black);
        self.lemma_mirror_count(other, PieceType::Queen, black);
        self.lemma_mirror_count(other, PieceType::Rook, black);
        self.lemma_mirror_count(other, PieceType::Bishop, black);
        self.lemma_mirror_count(other, PieceType::Knight, black);
        self.lemma_mirror_count(other, PieceType::Pawn, black);
    }

    /// A pawn has a pawn beside it exactly when its image has.
    pub proof fn lemma_mirror_connected(&self, other: &Board, black: bool, sq: int)
        requires
            self.mirrors(other),
            0 <= sq < 64,
        ensures
            self.connected(black, sq) == other.connected(!black, flipped(sq)),
    {
        self.lemma_mirrors_back(other);
        lemma_flipped(sq);
        if self.connected(black, sq) {
            let t = choose|t: int|
                0 <= t < 64 && self.stands(PieceType::Pawn, black, t) && beside(sq, t);
            lemma_flipped(t);
            assert(other.stands(PieceType::Pawn, !black, flipped(t)));
            assert(beside(flipped(sq), flipped(t)));
        }
        if other.connected(!black, flipped(sq)) {
            let t = choose|t: int|
                0 <= t < 64 && other.stands(PieceType::Pawn, !black, t) && beside(flipped(sq), t);
            lemma_flipped(t);
            assert(self.stands(PieceType::Pawn, !!black, flipped(t)));
            assert(beside(sq, flipped(t)));
        }
    }

    /// A pawn is passed exactly when its image is.
    pub proof fn lemma_mirror_passed(&self, other: &Board, black: bool, sq: int)
        requires
            self.mirrors(other),
            0 <= sq < 64,
        ensures
            self.passed(black, sq) == other.passed(!black, flipped(sq)),
    {
        self.lemma_mirrors_back(other);
        lemma_flipped(sq);
        let turned = !black;
        if self.passed(black, sq) {
            assert forall|t: int|
                0 <= t < 64 && other.stands(PieceType::Pawn, black, t) implies !(
            #[trigger] Self::in_front(turned, flipped(sq), t)) by {
                lemma_flipped(t);
                assert(self.stands(PieceType::Pawn, !black, flipped(t)));
                assert(!Self::in_front(black, sq, flipped(t)));
            }
            assert(other.passed(turned, flipped(sq)));
        }
        if other.passed(!black, flipped(sq)) {
            assert forall|t: int|
                0 <= t < 64 && self.stands(PieceType::Pawn, !black, t) implies !(
            #[trigger] Self::in_front(black, sq, t)) by {
                lemma_flipped(t);
                assert(other.stands(PieceType::Pawn, black, flipped(t)));
                assert(!Self::in_front(turned, flipped(sq), flipped(t)));
            }
        }
    }

    /// What the pieces of a colour on a square count for is what the pieces
    /// of the other colour count for on the image of the square in the mirror
    /// image.
    pub proof fn lemma_mirror_part(&self, other: &Board, black: bool, end: bool, sq: int)
        requires
            self.mirrors(other),
            0 <= sq < 64,
        ensures
            self.part(black, end, sq) == other.part(!black, end, flipped(sq)),
    {
        lemma_flipped(sq);
        self.lemma_mirror_connected(other, black, sq);
        self.lemma_mirror_passed(other, black, sq);
        assert(Self::advance(black, sq) == Self::advance(!black, flipped(sq)));
        assert(self.pawn_bonus(black, sq) == other.pawn_bonus(!black, flipped(sq)));
        assert(self.piece_part(PieceType::King, black, end, sq) == other.piece_part(
            PieceType::King,
            !black,
            end,
            flipped(sq),
        ));
        assert(self.piece_part(PieceType::Queen, black, end, sq) == other.piece_part(
            PieceType::Queen,
            !black,
            end,
            flipped(sq),
        ));
        assert(self.piece_part(PieceType::Rook, black, end, sq) == other.piece_part(
            PieceType::Rook,
            !black,
            end,
            flipped(sq),
        ));
        assert(self.piece_part(PieceType::Bishop, black, end, sq) == other.piece_part(
            PieceType::Bishop,
            !black,
            end,
            flipped(sq),
        ));
        assert(self.piece_part(PieceType::Knight, black, end, sq) == other.piece_part(
            PieceType::Knight,
            !black,
            end,
            flipped(sq),
        ));
        assert(self.piece_part(PieceType::Pawn, black, end, sq) == other.piece_part(
            PieceType::Pawn,
            !black,
            end,
            flipped(sq),
        ));
    }

    /// Material and placement of a position are those of its mirror image
    /// with the sign changed.
    pub proof fn lemma_mirror_placement(&self, other: &Board, end: bool)
        requires
            self.mirrors(other),
        ensures
            self.placement(end) == -other.placement(end),
    {
        let f = other.cell(end);
        let g = self.cell(end);
        let h = |sq: int| -f(sq);
        assert forall|sq: int| 0 <= sq < 64 implies #[trigger] g(sq) == h(flipped(sq)) by {
            self.lemma_mirror_part(other, false, end, sq);
            self.lemma_mirror_part(other, true, end, sq);
        }
        lemma_sum_flipped(h, g);
        lemma_sum_negated(f, h, 64);
    }

    /// The king of a side that has one stands on the square that is found
    /// for it.
    pub proof fn lemma_king_square(&self, black: bool, sq: int)
        requires
            self.king_on(black, sq),
        ensures
            self.king_square(black) == sq,
    {
        let w = self.pieces(PieceType::King, black);
        assert forall|t: int| 0 <= t < 64 implies (#[trigger] on(w, t)) == (t == sq) by {
            assert(self.stands(PieceType::King, black, t) == (t == sq));
        }
        lemma_lowest_of_one(w, sq, 0);
    }

    /// The evaluator gives the mirror image of a position the score of the
    /// position with the sign changed, where each side has exactly one king.
    pub proof fn lemma_mirror_eval(&self, other: &Board)
        requires
            self.mirrors(other),
            other.one_king(false),
            other.one_king(true),
        ensures
            self.static_eval() == -other.static_eval(),
    {
        self.lemma_mirror_material(other, false);
        self.lemma_mirror_material(other, true);
        let end = other.endgame();
        assert(self.endgame() == end);
        assert(self.insufficient_material() == other.insufficient_material());
        self.lemma_mirror_placement(other, end);
        let white = choose|sq: int| other.king_on(false, sq);
        let dark = choose|sq: int| other.king_on(true, sq);
        other.lemma_king_square(false, white);
        other.lemma_king_square(true, dark);
        lemma_flipped(white);
        lemma_flipped(dark);
        assert(self.king_on(true, flipped(white))) by {
            assert forall|t: int| 0 <= t < 64 implies (#[trigger] self.stands(
                PieceType::King,
                true,
                t,
            )) == (t == flipped(white)) by {
                lemma_flipped(t);
                assert(other.stands(PieceType::King, false, flipped(t)) == (flipped(t) == white));
            }
        }
        assert(self.king_on(false, flipped(dark))) by {
            assert forall|t: int| 0 <= t < 64 implies (#[trigger] self.stands(
                PieceType::King,
                false,
                t,
            )) == (t == flipped(dark)) by {
                lemma_flipped(t);
                assert(other.stands(PieceType::King, true, flipped(t)) == (flipped(t) == dark));
            }
        }
        self.lemma_king_square(true, flipped(white));
        self.lemma_king_square(false, flipped(dark));
        assert(manhattan(flipped(dark), flipped(white)) == manhattan(white, dark));
        assert(self.king_proximity() == -other.king_proximity());
    }

    /// The evaluator looks at what stands where and at the bookkeeping, and
    /// at nothing else.
    pub proof fn lemma_same_eval(&self, other: &Board)
        requires
            self.same_position(other),
        ensures
            self.static_eval() == other.static_eval(),
    {
        assert forall|kind: PieceType, black: bool| #[trigger]
            self.count(kind, black) == other.count(kind, black) by {
            let f = other.indicator(kind, black);
            let g = self.indicator(kind, black);
            assert forall|sq: int| 0 <= sq < 64 implies #[trigger] g(sq) == f(sq) by {
                assert(self.stands(kind, black, sq) == other.stands(kind, black, sq));
            }
            lemma_sum_same(f, g, 64);
        }
        assert(self.count(PieceType::King, false) == other.count(PieceType::King, false));
        assert(self.count(PieceType::Queen, false) == other.count(PieceType::Queen, false));
        assert(self.count(PieceType::Rook, false) == other.count(PieceType::Rook, false));
        assert(self.count(PieceType::Bishop, false) == other.count(PieceType::Bishop, false));
        assert(self.count(PieceType::Knight, false) == other.count(PieceType::Knight, false));
        assert(self.count(PieceType::Pawn, false) == other.count(PieceType::Pawn, false));
        assert(self.count(PieceType::King, true) == other.count(PieceType::King, true));
        assert(self.count(PieceType::Queen, true) == other.count(PieceType::Queen, true));
        assert(self.count(PieceType::Rook, true) == other.count(PieceType::Rook, true));
        assert(self.count(PieceType::Bishop, true) == other.count(PieceType::Bishop, true));
        assert(self.count(PieceType::Knight, true) == other.count(PieceType::Knight, true));
        assert(self.count(PieceType::Pawn, true) == other.count(PieceType::Pawn, true));
        let end = other.endgame();
        assert(self.endgame() == end);
        let f = other.cell(end);
        let g = self.cell(end);
        assert forall|sq: int| 0 <= sq < 64 implies #[trigger] g(sq) == f(sq) by {
            self.lemma_same_part(other, false, end, sq);
            self.lemma_same_part(other, true, end, sq);
        }
        lemma_sum_same(f, g, 64);
        assert(self.king_square(false) == other.king_square(false));
        assert(self.king_square(true) == other.king_square(true));
    }

    /// What the pieces of a colour on a square count for depends on what
    /// stands where, and on nothing else.
    pub proof fn lemma_same_part(&self, other: &Board, black: bool, end: bool, sq: int)
        requires
            self.same_pieces(other),
            0 <= sq < 64,
        ensures
            self.part(black, end, sq) == other.part(black, end, sq),
    {
        assert(self.connected(black, sq) == other.connected(black, sq)) by {
            if self.connected(black, sq) {
                let t = choose|t: int|
                    0 <= t < 64 && self.stands(PieceType::Pawn, black, t) && beside(sq, t);
                assert(other.stands(PieceType::Pawn, black, t));
            }
            if other.connected(black, sq) {
                let t = choose|t: int|
                    0 <= t < 64 && other.stands(PieceType::Pawn, black, t) && beside(sq, t);
                assert(self.stands(PieceType::Pawn, black, t));
            }
        }
        assert(self.passed(black, sq) == other.passed(black, sq)) by {
            if self.passed(black, sq) {
                assert forall|t: int|
                    0 <= t < 64 && other.stands(PieceType::Pawn, !black, t) implies !(
                #[trigger] Self::in_front(black, sq, t)) by {
                    assert(self.stands(PieceType::Pawn, !black, t));
                }
            }
            if other.passed(black, sq) {
                assert forall|t: int|
                    0 <= t < 64 && self.stands(PieceType::Pawn, !black, t) implies !(
                #[trigger] Self::in_front(black, sq, t)) by {
                    assert(other.stands(PieceType::Pawn, !black, t));
                }
            }
        }
        assert(self.pawn_bonus(black, sq) == other.pawn_bonus(black, sq));
    }
}

} // verus!
