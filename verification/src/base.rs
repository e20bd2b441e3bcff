//! Position representation and move generation.

pub mod arrange;
pub mod attacks;
pub mod bishops;
pub mod bits;
pub mod check;
pub mod complete;
pub mod defs;
pub mod effects;
pub mod fen;
pub mod fen_fields;
pub mod fen_read;
pub mod fen_round_trip;
pub mod fen_scan;
pub mod fen_write;
pub mod form;
pub mod global_map;
pub mod hashing;
pub mod invariants;
pub mod kings;
pub mod knights;
pub mod meta;
pub mod order;
pub mod pawns;
pub mod queens;
pub mod rooks;
pub mod steps;
pub mod symmetry;
pub mod uci;
pub mod utils;
