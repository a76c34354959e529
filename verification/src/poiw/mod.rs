//! The PoIW pipeline: per-identity grouping, one bucket of scores, and the
//! command line around it.

pub mod classifier;
pub mod cli;
pub mod commitment;
pub mod indexer;
pub mod score;
pub mod tosctld;
