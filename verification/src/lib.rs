//! Ingestion, batching and storage pipeline for a stream of finalized
//! blockchain transactions.
//!
//! Raw feed notifications are normalized into canonical records, filtered by a
//! retention policy, buffered, and flushed in atomic batches into a
//! dual-indexed ordered key-value store that supports point lookup by
//! transaction identifier and range scans by block height.

pub mod config;
pub mod ingest;
pub mod keys;
pub mod lex;
pub mod storage;
pub mod transaction_processor;
