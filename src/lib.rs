//! Ergonomic analysis of source text against keyboard layouts: finding the
//! costly character placements of each token, and tallying them over a corpus.
pub mod layout;
pub mod pattern;
pub mod text;
pub mod engine;
pub mod project;
