//! A verified Reversi rules engine, a verified genre-sharded song catalog and the
//! line-selection logic of a literal text search.

pub mod catalog;
pub mod grep;
pub mod reversi;
pub mod shelf;
pub mod song;
