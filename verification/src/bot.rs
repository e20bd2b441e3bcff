//! Evaluation, move ordering and search.

pub mod board;
pub mod clock;
pub mod evaluate;
pub mod history;
pub mod lookup;
pub mod mirror;
pub mod search;
pub mod table;
pub mod tables;
pub mod terms;
pub mod types;
pub mod value;
