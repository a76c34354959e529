//! Deterministic scoring, payout and commitment of settled intelligent work.
//!
//! All monetary amounts are integer nanotos (1 TOS = 1_000_000_000 nanotos).
//! All multipliers are integer basis points or integer percent. No floating
//! point appears anywhere in the pipeline.

pub mod aipow;
pub mod bytes;
pub mod classifier;
pub mod crypto;
pub mod decoding;
pub mod hex;
pub mod keyed;
pub mod laws;
pub mod listing;
pub mod merkle;
pub mod merkle_laws;
pub mod order;
pub mod payout;
pub mod poiw;
pub mod score;
pub mod selection;
pub mod source;
pub mod sums;
pub mod tally;
pub mod text;
pub mod types;
pub mod vocabulary;
