//! is scored and paid how much, which rows become units, which blocks are
//! held, what is committed and reported.

pub mod committing;
pub mod ingestion;
pub mod operations;
pub mod organic;
pub mod payouts;
pub mod plain;
pub mod reporting;
pub mod scoring;
pub mod sources;
pub mod walking;
