//! Attack sets: the squares that a piece standing on a given square bears on.

use crate::base::bits::bit_of;
use crate::base::bits::holds;
use crate::base::bits::in_board;
use crate::base::bits::lemma_on_algebra;
use crate::base::bits::on;
use crate::base::bits::square_of;
use crate::base::defs::PieceType;
use vstd::prelude::*;

verus! {

/// The file (0 for a, 7 for h) of a square.
pub open spec fn file_of(sq: int) -> int {
    sq % 8
}

/// The rank (0 for the first, 7 for the eighth) of a square.
pub open spec fn rank_of(sq: int) -> int {
    sq / 8
}

/// Whether a knight on `from` bears on `to`.
pub open spec fn knight_step(from: int, to: int) -> bool {
    let dx = file_of(to) - file_of(from);
    let dy = rank_of(to) - rank_of(from);
    ((dx == 1 || dx == -1) && (dy == 2 || dy == -2)) || ((dx == 2 || dx == -2) && (dy == 1 || dy
        == -1))
}

/// Whether a king on `from` bears on `to`.
pub open spec fn king_step(from: int, to: int) -> bool {
    let dx = file_of(to) - file_of(from);
    let dy = rank_of(to) - rank_of(from);
    -1 <= dx <= 1 && -1 <= dy <= 1 && (dx != 0 || dy != 0)
}

/// Whether a pawn of the given colour on `from` attacks `to`: one file to
/// either side, one rank ahead (up the board for white, down for black).
pub open spec fn pawn_attack_step(black: bool, from: int, to: int) -> bool {
    let dx = file_of(to) - file_of(from);
    let dy = rank_of(to) - rank_of(from);
    (dx == 1 || dx == -1) && dy == (if black {
        -1int
    } else {
        1int
    })
}

/// Whether `to` is met when walking from `(x, y)` in steps of `(dx, dy)`, at
/// most `fuel` steps, staying on the board and stopping behind the first
/// square of `occ`. The starting square itself is never met.
pub open spec fn ray_hits(occ: u64, x: int, y: int, dx: int, dy: int, to: int, fuel: nat) -> bool
    decreases fuel,
{
    let nx = x + dx;
    let ny = y + dy;
    fuel > 0 && in_board(nx, ny) && (to == square_of(nx, ny) || (!on(occ, square_of(nx, ny))
        && ray_hits(occ, nx, ny, dx, dy, to, (fuel - 1) as nat)))
}

/// Whether a piece on `from` that moves along the line `(dx, dy)` bears on
/// `to` when the squares of `occ` are occupied.
pub open spec fn slides(occ: u64, from: int, dx: int, dy: int, to: int) -> bool {
    ray_hits(occ, file_of(from), rank_of(from), dx, dy, to, 7)
}

/// Whether a bishop on `from` bears on `to` when the squares of `occ` are
/// occupied.
pub open spec fn bishop_reach(occ: u64, from: int, to: int) -> bool {
    slides(occ, from, 1, 1, to) || slides(occ, from, 1, -1, to) || slides(occ, from, -1, 1, to)
        || slides(occ, from, -1, -1, to)
}

/// Whether a rook on `from` bears on `to` when the squares of `occ` are
/// occupied.
pub open spec fn rook_reach(occ: u64, from: int, to: int) -> bool {
    slides(occ, from, 1, 0, to) || slides(occ, from, -1, 0, to) || slides(occ, from, 0, 1, to)
        || slides(occ, from, 0, -1, to)
}

/// Whether a queen on `from` bears on `to` when the squares of `occ` are
/// occupied.
pub open spec fn queen_reach(occ: u64, from: int, to: int) -> bool {
    bishop_reach(occ, from, to) || rook_reach(occ, from, to)
}

/// Whether a piece of the given kind and colour on `from` bears on `to`
/// when the squares of `occ` are occupied.
pub open spec fn bears_on(kind: PieceType, black: bool, occ: u64, from: int, to: int) -> bool {
    match kind {
        PieceType::King => king_step(from, to),
        PieceType::Queen => queen_reach(occ, from, to),
        PieceType::Rook => rook_reach(occ, from, to),
        PieceType::Bishop => bishop_reach(occ, from, to),
        PieceType::Knight => knight_step(from, to),
        PieceType::Pawn => pawn_attack_step(black, from, to),
    }
}

/// `acc` with the square `(x, y)` added, where that square is on the board.
fn with_square(acc: u64, x: i8, y: i8) -> (r: u64)
    requires
        -8 <= x <= 16,
        -8 <= y <= 16,
    ensures
        forall|t: int|
            0 <= t < 64 ==> #[trigger] on(r, t) == (on(acc, t) || (in_board(x as int, y as int)
                && t == square_of(x as int, y as int))),
{
    if x < 0 || x > 7 || y < 0 || y > 7 {
        acc
    } else {
        let sq: u8 = (x + 8 * y) as u8;
        let b = bit_of(sq);
        proof {
            lemma_on_algebra(acc, b);
        }
        acc | b
    }
}

/// The squares that a knight on `sq` bears on.
pub fn knight_attacks(sq: u8) -> (r: u64)
    requires
        sq < 64,
    ensures
        forall|t: int| 0 <= t < 64 ==> #[trigger] on(r, t) == knight_step(sq as int, t),
{
    let x: i8 = (sq % 8) as i8;
    let y: i8 = (sq / 8) as i8;
    let a0 = with_square(0u64, x + 1, y + 2);
    let a1 = with_square(a0, x + 1, y - 2);
    let a2 = with_square(a1, x - 1, y + 2);
    let a3 = with_square(a2, x - 1, y - 2);
    let a4 = with_square(a3, x + 2, y + 1);
    let a5 = with_square(a4, x + 2, y - 1);
    let a6 = with_square(a5, x - 2, y + 1);
    let a7 = with_square(a6, x - 2, y - 1);
    proof {
        lemma_on_algebra(0, 0);
        assert forall|t: int| 0 <= t < 64 implies #[trigger] on(a7, t) == knight_step(
            sq as int,
            t,
        ) by {
            assert(on(a7, t) == (on(a6, t) || (in_board(x - 2, y - 1) && t == square_of(
                x - 2,
                y - 1,
            ))));
            assert(on(a6, t) == (on(a5, t) || (in_board(x - 2, y + 1) && t == square_of(
                x - 2,
                y + 1,
            ))));
            assert(on(a5, t) == (on(a4, t) || (in_board(x + 2, y - 1) && t == square_of(
                x + 2,
                y - 1,
            ))));
            assert(on(a4, t) == (on(a3, t) || (in_board(x + 2, y + 1) && t == square_of(
                x + 2,
                y + 1,
            ))));
            assert(on(a3, t) == (on(a2, t) || (in_board(x - 1, y - 2) && t == square_of(
                x - 1,
                y - 2,
            ))));
            assert(on(a2, t) == (on(a1, t) || (in_board(x - 1, y + 2) && t == square_of(
                x - 1,
                y + 2,
            ))));
            assert(on(a1, t) == (on(a0, t) || (in_board(x + 1, y - 2) && t == square_of(
                x + 1,
                y - 2,
            ))));
            assert(on(a0, t) == (on(0u64, t) || (in_board(x + 1, y + 2) && t == square_of(
                x + 1,
                y + 2,
            ))));
            assert(!on(0u64, t));
        }
    }
    a7
}

/// The squares that a king on `sq` bears on.
pub fn king_attacks(sq: u8) -> (r: u64)
    requires
        sq < 64,
    ensures
        forall|t: int| 0 <= t < 64 ==> #[trigger] on(r, t) == king_step(sq as int, t),
{
    let x: i8 = (sq % 8) as i8;
    let y: i8 = (sq / 8) as i8;
    let a0 = with_square(0u64, x + 1, y + 1);
    let a1 = with_square(a0, x + 1, y);
    let a2 = with_square(a1, x + 1, y - 1);
    let a3 = with_square(a2, x, y + 1);
    let a4 = with_square(a3, x, y - 1);
    let a5 = with_square(a4, x - 1, y + 1);
    let a6 = with_square(a5, x - 1, y);
    let a7 = with_square(a6, x - 1, y - 1);
    proof {
        lemma_on_algebra(0, 0);
        assert forall|t: int| 0 <= t < 64 implies #[trigger] on(a7, t) == king_step(
            sq as int,
            t,
        ) by {
            assert(on(a7, t) == (on(a6, t) || (in_board(x - 1, y - 1) && t == square_of(
                x - 1,
                y - 1,
            ))));
            assert(on(a6, t) == (on(a5, t) || (in_board(x - 1, y as int) && t == square_of(
                x - 1,
                y as int,
            ))));
            assert(on(a5, t) == (on(a4, t) || (in_board(x - 1, y + 1) && t == square_of(
                x - 1,
                y + 1,
            ))));
            assert(on(a4, t) == (on(a3, t) || (in_board(x as int, y - 1) && t == square_of(
                x as int,
                y - 1,
            ))));
            assert(on(a3, t) == (on(a2, t) || (in_board(x as int, y + 1) && t == square_of(
                x as int,
                y + 1,
            ))));
            assert(on(a2, t) == (on(a1, t) || (in_board(x + 1, y - 1) && t == square_of(
                x + 1,
                y - 1,
            ))));
            assert(on(a1, t) == (on(a0, t) || (in_board(x + 1, y as int) && t == square_of(
                x + 1,
                y as int,
            ))));
            assert(on(a0, t) == (on(0u64, t) || (in_board(x + 1, y + 1) && t == square_of(
                x + 1,
                y + 1,
            ))));
            assert(!on(0u64, t));
        }
    }
    a7
}

/// The squares that a pawn of the given colour on `sq` attacks.
pub fn pawn_attacks(black: bool, sq: u8) -> (r: u64)
    requires
        sq < 64,
    ensures
        forall|t: int| 0 <= t < 64 ==> #[trigger] on(r, t) == pawn_attack_step(black, sq as int, t),
{
    let x: i8 = (sq % 8) as i8;
    let y: i8 = (sq / 8) as i8;
    let ny: i8 = if black {
        y - 1
    } else {
        y + 1
    };
    let a0 = with_square(0u64, x + 1, ny);
    let a1 = with_square(a0, x - 1, ny);
    proof {
        lemma_on_algebra(0, 0);
        assert forall|t: int| 0 <= t < 64 implies #[trigger] on(a1, t) == pawn_attack_step(
            black,
            sq as int,
            t,
        ) by {
            assert(on(a1, t) == (on(a0, t) || (in_board(x - 1, ny as int) && t == square_of(
                x - 1,
                ny as int,
            ))));
            assert(on(a0, t) == (on(0u64, t) || (in_board(x + 1, ny as int) && t == square_of(
                x + 1,
                ny as int,
            ))));
            assert(!on(0u64, t));
        }
    }
    a1
}

/// Whether `to` is on a file next to that of `from` and at most one rank
/// away from it.
pub open spec fn beside(from: int, to: int) -> bool {
    let dx = file_of(to) - file_of(from);
    let dy = rank_of(to) - rank_of(from);
    (dx == 1 || dx == -1) && -1 <= dy <= 1
}

/// The squares on the files next to that of `sq`, at most one rank away.
pub fn beside_squares(sq: u8) -> (r: u64)
    requires
        sq < 64,
    ensures
        forall|t: int| 0 <= t < 64 ==> (#[trigger] on(r, t)) == beside(sq as int, t),
{
    let x: i8 = (sq % 8) as i8;
    let y: i8 = (sq / 8) as i8;
    let a0 = with_square(0u64, x + 1, y + 1);
    let a1 = with_square(a0, x + 1, y);
    let a2 = with_square(a1, x + 1, y - 1);
    let a3 = with_square(a2, x - 1, y + 1);
    let a4 = with_square(a3, x - 1, y);
    let a5 = with_square(a4, x - 1, y - 1);
    proof {
        lemma_on_algebra(0, 0);
        assert forall|t: int| 0 <= t < 64 implies (#[trigger] on(a5, t)) == beside(
            sq as int,
            t,
        ) by {
            assert(on(a5, t) == (on(a4, t) || (in_board(x - 1, y - 1) && t == square_of(
                x - 1,
                y - 1,
            ))));
            assert(on(a4, t) == (on(a3, t) || (in_board(x - 1, y as int) && t == square_of(
                x - 1,
                y as int,
            ))));
            assert(on(a3, t) == (on(a2, t) || (in_board(x - 1, y + 1) && t == square_of(
                x - 1,
                y + 1,
            ))));
            assert(on(a2, t) == (on(a1, t) || (in_board(x + 1, y - 1) && t == square_of(
                x + 1,
                y - 1,
            ))));
            assert(on(a1, t) == (on(a0, t) || (in_board(x + 1, y as int) && t == square_of(
                x + 1,
                y as int,
            ))));
            assert(on(a0, t) == (on(0u64, t) || (in_board(x + 1, y + 1) && t == square_of(
                x + 1,
                y + 1,
            ))));
            assert(!on(0u64, t));
        }
    }
    a5
}

/// Whether a walk from `from` along `(dx, dy)` that has come to `(x, y)`
/// with `fuel` steps left has the square `t` right: the squares in `acc`,
/// with those that the rest of the walk meets while it is `open`, are the
/// squares that the whole walk meets.
pub open spec fn walk_agrees(
    acc: u64,
    open: bool,
    occ: u64,
    x: int,
    y: int,
    dx: int,
    dy: int,
    fuel: nat,
    from: int,
    t: int,
) -> bool {
    (on(acc, t) || (open && ray_hits(occ, x, y, dx, dy, t, fuel))) == slides(occ, from, dx, dy, t)
}

/// The squares met when walking from `sq` in steps of `(dx, dy)` up to and
/// including the first square of `occ`.
pub fn ray_attacks(occ: u64, sq: u8, dx: i8, dy: i8) -> (r: u64)
    requires
        sq < 64,
        -1 <= dx <= 1,
        -1 <= dy <= 1,
    ensures
        forall|t: int|
            0 <= t < 64 ==> (#[trigger] on(r, t)) == slides(
                occ,
                sq as int,
                dx as int,
                dy as int,
                t,
            ),
{
    let mut acc: u64 = 0;
    let mut x: i8 = (sq % 8) as i8;
    let mut y: i8 = (sq / 8) as i8;
    let mut fuel: u8 = 7;
    let mut open: bool = true;
    proof {
        lemma_on_algebra(0, 0);
        assert forall|t: int| 0 <= t < 64 implies #[trigger] walk_agrees(
            acc,
            open,
            occ,
            x as int,
            y as int,
            dx as int,
            dy as int,
            fuel as nat,
            sq as int,
            t,
        ) by {
            assert(!on(0u64, t));
        }
    }
    while open && fuel > 0
        invariant
            in_board(x as int, y as int),
            -1 <= dx <= 1,
            -1 <= dy <= 1,
            fuel <= 7,
            sq < 64,
            forall|t: int|
                0 <= t < 64 ==> #[trigger] walk_agrees(
                    acc,
                    open,
                    occ,
                    x as int,
                    y as int,
                    dx as int,
                    dy as int,
                    fuel as nat,
                    sq as int,
                    t,
                ),
        decreases fuel,
    {
        let nx: i8 = x + dx;
        let ny: i8 = y + dy;
        let ghost before = acc;
        let ghost ox = x as int;
        let ghost oy = y as int;
        let ghost left = fuel as nat;
        fuel = fuel - 1;
        if nx < 0 || nx > 7 || ny < 0 || ny > 7 {
            open = false;
            assert forall|t: int| 0 <= t < 64 implies #[trigger] walk_agrees(
                acc,
                open,
                occ,
                x as int,
                y as int,
                dx as int,
                dy as int,
                fuel as nat,
                sq as int,
                t,
            ) by {
                assert(walk_agrees(
                    before,
                    true,
                    occ,
                    ox,
                    oy,
                    dx as int,
                    dy as int,
                    left,
                    sq as int,
                    t,
                ));
                assert(!ray_hits(occ, ox, oy, dx as int, dy as int, t, left));
            }
        } else {
            let s: u8 = (nx + 8 * ny) as u8;
            let b = bit_of(s);
            proof {
                lemma_on_algebra(acc, b);
            }
            acc = acc | b;
            assert(forall|t: int|
                0 <= t < 64 ==> (#[trigger] on(acc, t)) == (on(before, t) || t == s));
            if holds(occ, s) {
                open = false;
                assert forall|t: int| 0 <= t < 64 implies #[trigger] walk_agrees(
                    acc,
                    open,
                    occ,
                    x as int,
                    y as int,
                    dx as int,
                    dy as int,
                    fuel as nat,
                    sq as int,
                    t,
                ) by {
                    assert(walk_agrees(
                        before,
                        true,
                        occ,
                        ox,
                        oy,
                        dx as int,
                        dy as int,
                        left,
                        sq as int,
                        t,
                    ));
                    assert(on(acc, t) == (on(before, t) || t == s));
                    assert(ray_hits(occ, ox, oy, dx as int, dy as int, t, left) == (t == s));
                }
            } else {
                x = nx;
                y = ny;
                assert forall|t: int| 0 <= t < 64 implies #[trigger] walk_agrees(
                    acc,
                    open,
                    occ,
                    x as int,
                    y as int,
                    dx as int,
                    dy as int,
                    fuel as nat,
                    sq as int,
                    t,
                ) by {
                    assert(walk_agrees(
                        before,
                        true,
                        occ,
                        ox,
                        oy,
                        dx as int,
                        dy as int,
                        left,
                        sq as int,
                        t,
                    ));
                    assert(on(acc, t) == (on(before, t) || t == s));
                    assert(ray_hits(occ, ox, oy, dx as int, dy as int, t, left) == (t == s
                        || ray_hits(
                        occ,
                        nx as int,
                        ny as int,
                        dx as int,
                        dy as int,
                        t,
                        (left - 1) as nat,
                    )));
                }
            }
        }
    }
    proof {
        assert forall|t: int| 0 <= t < 64 implies (#[trigger] on(acc, t)) == slides(
            occ,
            sq as int,
            dx as int,
            dy as int,
            t,
        ) by {
            assert(walk_agrees(
                acc,
                open,
                occ,
                x as int,
                y as int,
                dx as int,
                dy as int,
                fuel as nat,
                sq as int,
                t,
            ));
        }
    }
    acc
}

/// The squares that a bishop on `sq` bears on when the squares of `occ` are
/// occupied.
pub fn bishop_attacks(occ: u64, sq: u8) -> (r: u64)
    requires
        sq < 64,
    ensures
        forall|t: int| 0 <= t < 64 ==> #[trigger] on(r, t) == bishop_reach(occ, sq as int, t),
{
    let a = ray_attacks(occ, sq, 1, 1);
    let b = ray_attacks(occ, sq, 1, -1);
    let c = ray_attacks(occ, sq, -1, 1);
    let d = ray_attacks(occ, sq, -1, -1);
    proof {
        lemma_on_algebra(a, b);
        lemma_on_algebra(a | b, c);
        lemma_on_algebra(a | b | c, d);
    }
    a | b | c | d
}

/// The squares that a rook on `sq` bears on when the squares of `occ` are
/// occupied.
pub fn rook_attacks(occ: u64, sq: u8) -> (r: u64)
    requires
        sq < 64,
    ensures
        forall|t: int| 0 <= t < 64 ==> #[trigger] on(r, t) == rook_reach(occ, sq as int, t),
{
    let a = ray_attacks(occ, sq, 1, 0);
    let b = ray_attacks(occ, sq, -1, 0);
    let c = ray_attacks(occ, sq, 0, 1);
    let d = ray_attacks(occ, sq, 0, -1);
    proof {
        lemma_on_algebra(a, b);
        lemma_on_algebra(a | b, c);
        lemma_on_algebra(a | b | c, d);
    }
    a | b | c | d
}

} // verus!
