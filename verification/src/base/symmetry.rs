//! A piece attacks a square exactly when a piece of its kind on that square
//! would bear on it. The test for check looks from the king outwards; this
//! is why it finds what attacks the king.

use crate::base::attacks::bears_on;
use crate::base::attacks::bishop_reach;
use crate::base::attacks::file_of;
use crate::base::attacks::king_step;
use crate::base::attacks::knight_step;
use crate::base::attacks::pawn_attack_step;
use crate::base::attacks::queen_reach;
use crate::base::attacks::rank_of;
use crate::base::attacks::ray_hits;
use crate::base::attacks::rook_reach;
use crate::base::attacks::slides;
use crate::base::bits::in_board;
use crate::base::bits::on;
use crate::base::bits::square_of;
use crate::base::defs::Board;
use crate::base::defs::PieceType;
use vstd::prelude::*;

verus! {

/// Whether `(ex, ey)` is reached from `(x, y)` in exactly `k` steps of
/// `(dx, dy)` on the board, with no square of `occ` in between.
pub open spec fn walks(occ: u64, x: int, y: int, dx: int, dy: int, ex: int, ey: int, k: nat) -> bool
    decreases k,
{
    let nx = x + dx;
    let ny = y + dy;
    k > 0 && in_board(nx, ny) && (if k == 1 {
        nx == ex && ny == ey
    } else {
        !on(occ, square_of(nx, ny)) && walks(occ, nx, ny, dx, dy, ex, ey, (k - 1) as nat)
    })
}

/// A square that is met on a ray is reached by a walk of at most as many
/// steps as the ray has.
pub proof fn lemma_ray_walks(occ: u64, x: int, y: int, dx: int, dy: int, t: int, fuel: nat)
    requires
        0 <= t < 64,
        ray_hits(occ, x, y, dx, dy, t, fuel),
    ensures
        exists|k: nat| 1 <= k <= fuel && walks(occ, x, y, dx, dy, file_of(t), rank_of(t), k),
    decreases fuel,
{
    let nx = x + dx;
    let ny = y + dy;
    if t == square_of(nx, ny) {
        assert(walks(occ, x, y, dx, dy, file_of(t), rank_of(t), 1));
    } else {
        lemma_ray_walks(occ, nx, ny, dx, dy, t, (fuel - 1) as nat);
        let k = choose|k: nat|
            1 <= k <= fuel - 1 && walks(occ, nx, ny, dx, dy, file_of(t), rank_of(t), k);
        assert(walks(occ, x, y, dx, dy, file_of(t), rank_of(t), k + 1));
    }
}

/// A square that is reached by a walk is met on every ray that is long
/// enough.
pub proof fn lemma_walk_hits(
    occ: u64,
    x: int,
    y: int,
    dx: int,
    dy: int,
    t: int,
    k: nat,
    fuel: nat,
)
    requires
        0 <= t < 64,
        k <= fuel,
        walks(occ, x, y, dx, dy, file_of(t), rank_of(t), k),
    ensures
        ray_hits(occ, x, y, dx, dy, t, fuel),
    decreases k,
{
    if k > 1 {
        lemma_walk_hits(occ, x + dx, y + dy, dx, dy, t, (k - 1) as nat, (fuel - 1) as nat);
    }
}

/// A walk goes on by one step behind a square that is empty.
pub proof fn lemma_walk_on(occ: u64, x: int, y: int, dx: int, dy: int, ex: int, ey: int, k: nat)
    requires
        walks(occ, x, y, dx, dy, ex, ey, k),
        in_board(ex + dx, ey + dy),
        !on(occ, square_of(ex, ey)),
    ensures
        walks(occ, x, y, dx, dy, ex + dx, ey + dy, k + 1),
    decreases k,
{
    if k > 1 {
        lemma_walk_on(occ, x + dx, y + dy, dx, dy, ex, ey, (k - 1) as nat);
    } else {
        assert(walks(occ, x + dx, y + dy, dx, dy, ex + dx, ey + dy, 1));
    }
}

/// A walk can be walked back.
pub proof fn lemma_walk_back(occ: u64, x: int, y: int, dx: int, dy: int, ex: int, ey: int, k: nat)
    requires
        in_board(x, y),
        walks(occ, x, y, dx, dy, ex, ey, k),
    ensures
        walks(occ, ex, ey, -dx, -dy, x, y, k),
    decreases k,
{
    if k > 1 {
        let nx = x + dx;
        let ny = y + dy;
        lemma_walk_back(occ, nx, ny, dx, dy, ex, ey, (k - 1) as nat);
        lemma_walk_on(occ, ex, ey, -dx, -dy, nx, ny, (k - 1) as nat);
    }
}

/// One direction of the lemma below.
pub proof fn lemma_slides_back(occ: u64, a: int, dx: int, dy: int, b: int)
    requires
        0 <= a < 64,
        0 <= b < 64,
        slides(occ, a, dx, dy, b),
    ensures
        slides(occ, b, -dx, -dy, a),
{
    lemma_ray_walks(occ, file_of(a), rank_of(a), dx, dy, b, 7);
    let k = choose|k: nat|
        1 <= k <= 7 && walks(occ, file_of(a), rank_of(a), dx, dy, file_of(b), rank_of(b), k);
    lemma_walk_back(occ, file_of(a), rank_of(a), dx, dy, file_of(b), rank_of(b), k);
    lemma_walk_hits(occ, file_of(b), rank_of(b), -dx, -dy, a, k, 7);
}

/// A piece that moves along a line bears on a square exactly when a piece
/// on that square that moves the other way along the line bears on it.
pub proof fn lemma_slides_symmetric(occ: u64, a: int, dx: int, dy: int, b: int)
    requires
        0 <= a < 64,
        0 <= b < 64,
    ensures
        slides(occ, a, dx, dy, b) == slides(occ, b, -dx, -dy, a),
{
    if slides(occ, a, dx, dy, b) {
        lemma_slides_back(occ, a, dx, dy, b);
    }
    if slides(occ, b, -dx, -dy, a) {
        lemma_slides_back(occ, b, -dx, -dy, a);
    }
}

/// Two bishops, two rooks or two queens bear on each other or neither does
/// on the other.
pub proof fn lemma_reach_symmetric(occ: u64, a: int, b: int)
    requires
        0 <= a < 64,
        0 <= b < 64,
    ensures
        bishop_reach(occ, a, b) == bishop_reach(occ, b, a),
        rook_reach(occ, a, b) == rook_reach(occ, b, a),
        queen_reach(occ, a, b) == queen_reach(occ, b, a),
{
    lemma_slides_symmetric(occ, a, 1, 1, b);
    lemma_slides_symmetric(occ, a, 1, -1, b);
    lemma_slides_symmetric(occ, a, -1, 1, b);
    lemma_slides_symmetric(occ, a, -1, -1, b);
    lemma_slides_symmetric(occ, a, 1, 0, b);
    lemma_slides_symmetric(occ, a, -1, 0, b);
    lemma_slides_symmetric(occ, a, 0, 1, b);
    lemma_slides_symmetric(occ, a, 0, -1, b);
}

impl Board {
    /// Whether a piece of the given colour on `from` bears on `sq`.
    pub open spec fn strikes(&self, by_black: bool, from: int, sq: int) -> bool {
        let occ = self.all_map();
        ||| self.stands(PieceType::Bishop, by_black, from) && bears_on(
            PieceType::Bishop,
            by_black,
            occ,
            from,
            sq,
        )
        ||| self.stands(PieceType::Queen, by_black, from) && bears_on(
            PieceType::Queen,
            by_black,
            occ,
            from,
            sq,
        )
        ||| self.stands(PieceType::Knight, by_black, from) && bears_on(
            PieceType::Knight,
            by_black,
            occ,
            from,
            sq,
        )
        ||| self.stands(PieceType::Rook, by_black, from) && bears_on(
            PieceType::Rook,
            by_black,
            occ,
            from,
            sq,
        )
        ||| self.stands(PieceType::King, by_black, from) && bears_on(
            PieceType::King,
            by_black,
            occ,
            from,
            sq,
        )
        ||| self.stands(PieceType::Pawn, by_black, from) && bears_on(
            PieceType::Pawn,
            by_black,
            occ,
            from,
            sq,
        )
    }

    /// The test that looks from a square outwards finds a piece exactly when
    /// that piece bears on the square.
    pub proof fn lemma_attack_is_strike(&self, by_black: bool, sq: int, from: int)
        requires
            0 <= sq < 64,
            0 <= from < 64,
        ensures
            self.attacked_from(by_black, sq, from) == self.strikes(by_black, from, sq),
    {
        lemma_reach_symmetric(self.all_map(), sq, from);
        assert(knight_step(sq, from) == knight_step(from, sq));
        assert(king_step(sq, from) == king_step(from, sq));
        assert(pawn_attack_step(!by_black, sq, from) == pawn_attack_step(by_black, from, sq));
    }

    /// A square is attacked by a side exactly when one of the pieces of that
    /// side bears on it.
    pub proof fn lemma_attacked_by_strike(&self, by_black: bool, sq: int)
        requires
            0 <= sq < 64,
        ensures
            self.attacked_by(by_black, sq) == exists|from: int|
                0 <= from < 64 && #[trigger] self.strikes(by_black, from, sq),
    {
        if self.attacked_by(by_black, sq) {
            let from = choose|from: int| 0 <= from < 64 && self.attacked_from(by_black, sq, from);
            self.lemma_attack_is_strike(by_black, sq, from);
            assert(self.strikes(by_black, from, sq));
        }
        if exists|from: int| 0 <= from < 64 && #[trigger] self.strikes(by_black, from, sq) {
            let from = choose|from: int| 0 <= from < 64 && #[trigger] self.strikes(
                by_black,
                from,
                sq,
            );
            self.lemma_attack_is_strike(by_black, sq, from);
            assert(self.attacked_from(by_black, sq, from));
        }
    }

    /// Whether black is to move.
    pub open spec fn black_to_move(&self) -> bool {
        !self.white_to_move()
    }

    /// A position is legal exactly when no piece of the side to move bears
    /// on a king of the side that has moved.
    pub proof fn lemma_legal_is_unstruck(&self)
        ensures
            self.legal() == forall|from: int, sq: int|
                0 <= from < 64 && 0 <= sq < 64 && self.stands(
                    PieceType::King,
                    self.white_to_move(),
                    sq,
                ) ==> !#[trigger] self.strikes(self.black_to_move(), from, sq),
    {
        let by = self.black_to_move();
        let kings = self.pieces(PieceType::King, self.white_to_move());
        if !self.legal() {
            let sq = choose|sq: int| 0 <= sq < 64 && on(kings, sq) && self.attacked_by(by, sq);
            let from = choose|from: int| 0 <= from < 64 && self.attacked_from(by, sq, from);
            self.lemma_attack_is_strike(by, sq, from);
            assert(self.strikes(by, from, sq));
        }
        if exists|from: int, sq: int|
            0 <= from < 64 && 0 <= sq < 64 && self.stands(
                PieceType::King,
                self.white_to_move(),
                sq,
            ) && #[trigger] self.strikes(by, from, sq) {
            let (from, sq) = choose|from: int, sq: int|
                0 <= from < 64 && 0 <= sq < 64 && self.stands(
                    PieceType::King,
                    self.white_to_move(),
                    sq,
                ) && #[trigger] self.strikes(by, from, sq);
            self.lemma_attack_is_strike(by, sq, from);
            assert(self.attacked_from(by, sq, from));
            assert(self.attacked_by(by, sq));
            assert(on(kings, sq));
        }
    }
}

} // verus!
