//! Resumable per-disk content hashing with a crash-safe hash store,
//! a progress aggregator and a cross-disk merge of the stored records.

pub mod disk;
pub mod error;
pub mod filter;
pub mod merge;
pub mod options;
pub mod pattern;
pub mod progress;
pub mod store;
pub mod target;
pub mod text;
pub mod worker;
