//! Content-based video recommendation core.
//!
//! The pipeline tokenizes video titles and descriptions into stemmed terms,
//! builds a term-frequency matrix over a shared vocabulary, computes a
//! symmetric cosine-similarity matrix, turns it into weighted edges for a
//! graph store, and scores unwatched candidates against a user's watched
//! set.  Similarity weights are carried as exact integers in millionths
//! (fixed point), so every arithmetic step has a precise contract.

pub mod edges;
pub mod errors;
pub mod models;
pub mod rank;
pub mod repo;
pub mod score;
pub mod similarity;
pub mod text;
pub mod vectorize;
