//! Fingerprints of a position. Both are made of the six piece planes and
//! the bookkeeping word; the move tag and the evaluation cache take no part.

use crate::base::defs::Board;
use std::collections::hash_map::DefaultHasher;
use std::hash::Hasher;
use vstd::prelude::*;
use vstd::std_specs::hash::DefaultHasherAdditionalSpecFns;

verus! {

/// `x` turned to the left by `n` bits.
pub open spec fn turned_left(x: u128, n: u128) -> u128 {
    (x << n) | (x >> ((128 - n) as u128))
}

/// The byte of `x` at place `i`, the least significant first.
pub open spec fn byte_at(x: u128, i: int) -> u8 {
    ((x >> ((8 * i) as u128)) & 0xFFu128) as u8
}

/// The first `n` bytes of `x`, the least significant first.
pub open spec fn low_bytes(x: u128, n: nat) -> Seq<u8> {
    Seq::new(n, |i: int| byte_at(x, i))
}

proof fn lemma_byte_fits(x: u128, s: u128)
    by (bit_vector)
    ensures
        (x >> s) & 0xFFu128 <= 0xFF,
{
}

/// `x` turned to the left by `n` bits.
fn turn_left(x: u128, n: u32) -> (r: u128)
    requires
        0 < n < 128,
    ensures
        r == turned_left(x, n as u128),
{
    (x << (n as u128)) | (x >> ((128 - n) as u128))
}

/// The first `n` bytes of `x`, the least significant first.
fn bytes_of(x: u128, n: usize) -> (r: Vec<u8>)
    requires
        n <= 16,
    ensures
        r@ == low_bytes(x, n as nat),
{
    let mut out: Vec<u8> = Vec::new();
    let mut i: usize = 0;
    while i < n
        invariant
            i <= n <= 16,
            out@ == low_bytes(x, i as nat),
        decreases n - i,
    {
        proof {
            lemma_byte_fits(x, (8 * i) as u128);
        }
        let b: u8 = ((x >> ((8 * i) as u128)) & 0xFFu128) as u8;
        out.push(b);
        assert(out@ =~= low_bytes(x, (i + 1) as nat));
        i = i + 1;
    }
    out
}

impl Board {
    /// What is fed to the hasher for the fingerprint: the sixteen bytes of
    /// each plane, rooks, knights, bishops, queens, kings, pawns, and the
    /// four bytes of the bookkeeping word.
    pub open spec fn hashed_bytes(&self) -> Seq<Seq<u8>> {
        seq![
            low_bytes(self.rooks, 16),
            low_bytes(self.knights, 16),
            low_bytes(self.bishops, 16),
            low_bytes(self.queens, 16),
            low_bytes(self.kings, 16),
            low_bytes(self.pawns, 16),
            low_bytes(self.metadata as u128, 4),
        ]
    }

    /// The planes and the low ten bits of the bookkeeping word, each turned
    /// by its own amount and folded together.
    pub open spec fn folded(&self) -> u128 {
        self.rooks ^ turned_left(self.knights, 7) ^ turned_left(self.bishops, 13) ^ turned_left(
            self.queens,
            19,
        ) ^ turned_left(self.kings, 23) ^ turned_left(self.pawns, 29) ^ turned_left(
            (self.metadata & 0b1111111111) as u128,
            31,
        )
    }

    /// A cheap 128-bit fingerprint of what stands where, who is to move, the
    /// castling rights and the en-passant file.
    pub fn static_hash(&self) -> (r: u128)
        ensures
            r == self.folded(),
    {
        let mut hash: u128 = self.rooks;
        hash = hash ^ turn_left(self.knights, 7);
        hash = hash ^ turn_left(self.bishops, 13);
        hash = hash ^ turn_left(self.queens, 19);
        hash = hash ^ turn_left(self.kings, 23);
        hash = hash ^ turn_left(self.pawns, 29);
        let meta = (self.metadata & 0b1111111111) as u128;
        hash = hash ^ turn_left(meta, 31);
        hash
    }

    /// The 64-bit fingerprint of the position.
    pub open spec fn hash_value(&self) -> u64 {
        DefaultHasher::spec_finish(self.hashed_bytes())
    }

    /// The 64-bit fingerprint of the position: the digest that the standard
    /// hasher gives for the planes and the bookkeeping word.
    pub fn hash(&self) -> (r: u64)
        ensures
            r == self.hash_value(),
    {
        let mut hasher = DefaultHasher::new();
        let rooks = bytes_of(self.rooks, 16);
        hasher.write(rooks.as_slice());
        let knights = bytes_of(self.knights, 16);
        hasher.write(knights.as_slice());
        let bishops = bytes_of(self.bishops, 16);
        hasher.write(bishops.as_slice());
        let queens = bytes_of(self.queens, 16);
        hasher.write(queens.as_slice());
        let kings = bytes_of(self.kings, 16);
        hasher.write(kings.as_slice());
        let pawns = bytes_of(self.pawns, 16);
        hasher.write(pawns.as_slice());
        let metadata = bytes_of(self.metadata as u128, 4);
        hasher.write(metadata.as_slice());
        assert(hasher@ =~= self.hashed_bytes());
        hasher.finish()
    }

    /// What is fed to the hasher for the key of the position: the planes and
    /// that part of the bookkeeping word that holds the castling rights, the
    /// en-passant file and the side to move. The move counters are left out,
    /// so that a position that comes again has the key that it had.
    pub open spec fn key_bytes(&self) -> Seq<Seq<u8>> {
        seq![
            low_bytes(self.rooks, 16),
            low_bytes(self.knights, 16),
            low_bytes(self.bishops, 16),
            low_bytes(self.queens, 16),
            low_bytes(self.kings, 16),
            low_bytes(self.pawns, 16),
            low_bytes((self.metadata % 512) as u128, 4),
        ]
    }

    /// The key of the position.
    pub open spec fn key_value(&self) -> u64 {
        DefaultHasher::spec_finish(self.key_bytes())
    }

    /// The key under which the position is counted for the draw by
    /// repetition and stored in the transposition table: a digest of what
    /// stands where, the castling rights, the en-passant file and the side
    /// to move.
    pub fn position_key(&self) -> (r: u64)
        ensures
            r == self.key_value(),
    {
        let mut hasher = DefaultHasher::new();
        let rooks = bytes_of(self.rooks, 16);
        hasher.write(rooks.as_slice());
        let knights = bytes_of(self.knights, 16);
        hasher.write(knights.as_slice());
        let bishops = bytes_of(self.bishops, 16);
        hasher.write(bishops.as_slice());
        let queens = bytes_of(self.queens, 16);
        hasher.write(queens.as_slice());
        let kings = bytes_of(self.kings, 16);
        hasher.write(kings.as_slice());
        let pawns = bytes_of(self.pawns, 16);
        hasher.write(pawns.as_slice());
        let metadata = bytes_of((self.metadata % 512) as u128, 4);
        hasher.write(metadata.as_slice());
        assert(hasher@ =~= self.key_bytes());
        hasher.finish()
    }
}

} // verus!
