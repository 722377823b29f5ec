//! Similarity ranking of perceptual-hash fingerprints.
//!
//! A fingerprint is a fixed-length string of binary digits. Two fingerprints of
//! the same length are scored by the number of positions at which they agree,
//! and a store of fingerprints is ranked against a query by that score.

pub mod bitset;
pub mod fingerprint;
pub mod score;
pub mod rank;
pub mod store;
pub mod select;
pub mod query;
pub mod batch;
pub mod get_matches;
pub mod snapshot;
pub mod packed;
