//! The AIPoW pipeline: control-domain grouping, separate organic and
//! challenge buckets, signed commitments and chain ingestion over RPC.

pub mod classifier;
pub mod commitment;
pub mod indexer;
pub mod jsonrpc;
pub mod rpc;
pub mod score;
pub mod tick_laws;
pub mod walker_laws;
