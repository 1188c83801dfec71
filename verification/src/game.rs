//! Game rules: scoring of hits and misses, and the record book.

pub mod score;
pub mod save;
