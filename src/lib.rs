//! An embedded, ordered key-value storage engine with key/value separation.
//!
//! Writes go to a write-ahead log and a memtable; values of at least a threshold size
//! are stored in a value log and referenced by pointer. Memtables are flushed to sorted
//! tables, which compaction merges. The library decides and encodes; the caller performs
//! the file operations that it asks for.
pub mod api;
pub mod bytes;
pub mod cache;
pub mod codec;
pub mod compactor;
pub mod config;
pub mod engine;
pub mod error;
pub mod gc;
pub mod index;
pub mod laws;
pub mod memtable;
pub mod metrics;
pub mod run;
pub mod sst;
pub mod storage;
pub mod telemetry;
pub mod vlog;
pub mod wal;
pub mod wal_record;

pub use api::{AuraEngine, Engine, Snapshot};
pub use engine::{EngineBuilder, Options};
pub use error::{Error, Result};
pub use storage::{Batch, Entry, Key, Range, Value, ValuePointer};
