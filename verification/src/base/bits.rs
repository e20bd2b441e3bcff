//! Bitboard words. A 64-bit word holds one bit per square; square `0` is a1,
//! square `7` is h1, square `63` is h8, and square `sq` is stored at bit
//! `63 - sq`, so a1 is the most significant bit. A piece plane is a 128-bit
//! word whose low half holds the white pieces and whose high half holds the
//! black ones.

use vstd::prelude::*;
use vstd::std_specs::bits::axiom_u64_trailing_zeros;
use vstd::std_specs::bits::u64_trailing_zeros;

verus! {

/// The word that holds square `sq` and nothing else.
pub open spec fn square_bit(sq: int) -> u64 {
    1u64 << ((63 - sq) as u64)
}

/// Whether square `sq` is a member of the set of squares `bb`.
pub open spec fn on(bb: u64, sq: int) -> bool {
    bb & square_bit(sq) != 0
}

/// Whether `(x, y)` names a file and a rank of the board.
pub open spec fn in_board(x: int, y: int) -> bool {
    0 <= x < 8 && 0 <= y < 8
}

/// The square on file `x` and rank `y`.
pub open spec fn square_of(x: int, y: int) -> int {
    x + 8 * y
}

/// The white half of a piece plane.
pub open spec fn white_half(plane: u128) -> u64 {
    (plane & 0xFFFF_FFFF_FFFF_FFFFu128) as u64
}

/// The black half of a piece plane.
pub open spec fn black_half(plane: u128) -> u64 {
    (plane >> 64u128) as u64
}

/// The half of a piece plane that belongs to one colour.
pub open spec fn half_of(plane: u128, black: bool) -> u64 {
    if black {
        black_half(plane)
    } else {
        white_half(plane)
    }
}

/// The piece plane made of a white and a black half.
pub open spec fn join_halves(white: u64, black: u64) -> u128 {
    (white as u128) | ((black as u128) << 64u128)
}

proof fn lemma_mask_algebra(a: u64, b: u64, s: u64)
    by (bit_vector)
    requires
        s < 64,
    ensures
        ((a | b) & (1u64 << s) != 0) == ((a & (1u64 << s) != 0) || (b & (1u64 << s) != 0)),
        ((a & b) & (1u64 << s) != 0) == ((a & (1u64 << s) != 0) && (b & (1u64 << s) != 0)),
        ((!a) & (1u64 << s) != 0) == !(a & (1u64 << s) != 0),
        0u64 & (1u64 << s) == 0,
        0xFFFF_FFFF_FFFF_FFFFu64 & (1u64 << s) != 0,
{
}

proof fn lemma_mask_distinct(s: u64, t: u64)
    by (bit_vector)
    requires
        s < 64,
        t < 64,
    ensures
        ((1u64 << t) & (1u64 << s) != 0) == (s == t),
{
}

proof fn lemma_mask_differs(a: u64, b: u64, s: u64)
    by (bit_vector)
    requires
        s < 64,
        ((a ^ b) >> s) & 1u64 == 1u64,
    ensures
        (a & (1u64 << s) != 0) != (b & (1u64 << s) != 0),
{
}

proof fn lemma_xor_zero(a: u64, b: u64)
    by (bit_vector)
    ensures
        (a ^ b) == 0 ==> a == b,
{
}

proof fn lemma_halves(plane: u128, white: u64, black: u64)
    by (bit_vector)
    ensures
        (((white as u128) | ((black as u128) << 64u128)) & 0xFFFF_FFFF_FFFF_FFFFu128) as u64
            == white,
        (((white as u128) | ((black as u128) << 64u128)) >> 64u128) as u64 == black,
        (((plane & 0xFFFF_FFFF_FFFF_FFFFu128) as u64) as u128) | ((((plane >> 64u128) as u64)
            as u128) << 64u128) == plane,
        plane & 0xFFFF_FFFF_FFFF_FFFFu128 <= 0xFFFF_FFFF_FFFF_FFFFu128,
        plane >> 64u128 <= 0xFFFF_FFFF_FFFF_FFFFu128,
{
}

/// Union, intersection and complement of square sets act square by square.
pub proof fn lemma_on_algebra(a: u64, b: u64)
    ensures
        forall|sq: int| 0 <= sq < 64 ==> #[trigger] on(a | b, sq) == (on(a, sq) || on(b, sq)),
        forall|sq: int| 0 <= sq < 64 ==> #[trigger] on(a & b, sq) == (on(a, sq) && on(b, sq)),
        forall|sq: int| 0 <= sq < 64 ==> #[trigger] on(!a, sq) == !on(a, sq),
        forall|sq: int| 0 <= sq < 64 ==> !#[trigger] on(0u64, sq),
{
    assert forall|sq: int| 0 <= sq < 64 implies #[trigger] on(a | b, sq) == (on(a, sq) || on(
        b,
        sq,
    )) by {
        lemma_mask_algebra(a, b, (63 - sq) as u64);
    }
    assert forall|sq: int| 0 <= sq < 64 implies #[trigger] on(a & b, sq) == (on(a, sq) && on(
        b,
        sq,
    )) by {
        lemma_mask_algebra(a, b, (63 - sq) as u64);
    }
    assert forall|sq: int| 0 <= sq < 64 implies #[trigger] on(!a, sq) == !on(a, sq) by {
        lemma_mask_algebra(a, b, (63 - sq) as u64);
    }
    assert forall|sq: int| 0 <= sq < 64 implies !#[trigger] on(0u64, sq) by {
        lemma_mask_algebra(a, b, (63 - sq) as u64);
    }
}

/// A one-square word holds its own square and no other.
pub proof fn lemma_on_square_bit(t: int)
    requires
        0 <= t < 64,
    ensures
        forall|sq: int| 0 <= sq < 64 ==> #[trigger] on(square_bit(t), sq) == (sq == t),
{
    assert forall|sq: int| 0 <= sq < 64 implies #[trigger] on(square_bit(t), sq) == (sq == t) by {
        lemma_mask_distinct((63 - sq) as u64, (63 - t) as u64);
    }
}

/// Two words that hold the same squares are the same word.
pub proof fn lemma_on_extensional(a: u64, b: u64)
    requires
        forall|sq: int| 0 <= sq < 64 ==> on(a, sq) == on(b, sq),
    ensures
        a == b,
{
    let d = a ^ b;
    if d != 0 {
        axiom_u64_trailing_zeros(d);
        let s = u64_trailing_zeros(d) as u64;
        lemma_mask_differs(a, b, s);
        let sq = 63 - s;
        assert(on(a, sq) == on(b, sq));
        assert(square_bit(sq) == 1u64 << s);
    } else {
        lemma_xor_zero(a, b);
    }
}

/// A word is empty exactly when it holds no square.
pub proof fn lemma_nonzero_has_square(w: u64)
    ensures
        w != 0 <==> exists|sq: int| 0 <= sq < 64 && on(w, sq),
{
    lemma_on_algebra(w, 0);
    if w != 0 {
        if forall|sq: int| 0 <= sq < 64 ==> !on(w, sq) {
            lemma_on_extensional(w, 0);
        }
    }
}

proof fn lemma_empty_halves()
    by (bit_vector)
    ensures
        (0u128 & 0xFFFF_FFFF_FFFF_FFFFu128) as u64 == 0u64,
        (0u128 >> 64u128) as u64 == 0u64,
{
}

/// The empty plane holds no square of either colour.
pub proof fn lemma_empty_plane()
    ensures
        forall|black: bool, sq: int| 0 <= sq < 64 ==> !#[trigger] on(half_of(0u128, black), sq),
{
    lemma_empty_halves();
    lemma_on_algebra(0, 0);
}

/// Two planes that hold the same squares for both colours are the same
/// plane.
pub proof fn lemma_plane_extensional(a: u128, b: u128)
    requires
        forall|black: bool, sq: int|
            0 <= sq < 64 ==> on(half_of(a, black), sq) == on(half_of(b, black), sq),
    ensures
        a == b,
{
    assert forall|sq: int| 0 <= sq < 64 implies on(white_half(a), sq) == on(white_half(b), sq) by {
        assert(on(half_of(a, false), sq) == on(half_of(b, false), sq));
    }
    assert forall|sq: int| 0 <= sq < 64 implies on(black_half(a), sq) == on(black_half(b), sq) by {
        assert(on(half_of(a, true), sq) == on(half_of(b, true), sq));
    }
    lemma_on_extensional(white_half(a), white_half(b));
    lemma_on_extensional(black_half(a), black_half(b));
    lemma_join_halves(a, 0, 0);
    lemma_join_halves(b, 0, 0);
}

/// Splitting a plane into its halves and joining them again loses nothing.
pub proof fn lemma_join_halves(plane: u128, white: u64, black: u64)
    ensures
        white_half(join_halves(white, black)) == white,
        black_half(join_halves(white, black)) == black,
        join_halves(white_half(plane), black_half(plane)) == plane,
{
    lemma_halves(plane, white, black);
}

/// The word that holds square `sq` and nothing else.
pub fn bit_of(sq: u8) -> (r: u64)
    requires
        sq < 64,
    ensures
        r == square_bit(sq as int),
        forall|t: int| 0 <= t < 64 ==> #[trigger] on(r, t) == (t == sq),
{
    proof {
        lemma_on_square_bit(sq as int);
    }
    1u64 << (63 - sq)
}

/// Whether square `sq` is a member of `bb`.
pub fn holds(bb: u64, sq: u8) -> (r: bool)
    requires
        sq < 64,
    ensures
        r == on(bb, sq as int),
{
    bb & (1u64 << (63 - sq)) != 0
}

/// The half of a piece plane that belongs to one colour.
pub fn plane_half(plane: u128, black: bool) -> (r: u64)
    ensures
        r == half_of(plane, black),
{
    proof {
        lemma_halves(plane, 0, 0);
    }
    if black {
        (plane >> 64u128) as u64
    } else {
        (plane & 0xFFFF_FFFF_FFFF_FFFFu128) as u64
    }
}

/// The piece plane made of a white and a black half.
pub fn plane_join(white: u64, black: u64) -> (r: u128)
    ensures
        r == join_halves(white, black),
        white_half(r) == white,
        black_half(r) == black,
{
    proof {
        lemma_halves(0, white, black);
    }
    (white as u128) | ((black as u128) << 64u128)
}

} // verus!
