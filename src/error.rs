use vstd::prelude::*;

verus! {

/// Errors reported by the storage engine.
#[derive(Debug, Clone, PartialEq, Eq)]
pub enum Error {
    /// The underlying storage failed.
    Io(String),
    /// A frame could not be encoded or decoded.
    Serialization(String),
    /// A key that had to be present was absent.
    KeyNotFound(String),
    /// A value pointer was inconsistent or its target was missing.
    InvalidValuePointer(String),
    /// A write-ahead log file is damaged.
    WalCorruption(String),
    /// A sorted table file is damaged.
    SstCorruption(String),
    /// A value log segment is damaged.
    ValueLogCorruption(String),
    /// A compaction failed; it is retried at the next trigger.
    Compaction(String),
    /// The cache misbehaved; the operation falls back to the safe path.
    Cache(String),
    /// The configuration is invalid.
    Config(String),
    /// The learned index misbehaved; lookups fall back to binary search.
    LearnedIndex(String),
    /// The compaction policy agent misbehaved.
    RlAgent(String),
    /// An allocation failed.
    Memory(String),
    /// A queue was full or a shutdown is in progress.
    Concurrency(String),
    /// Any other failure.
    Unknown(String),
}

/// Result type of the engine's operations.
pub type Result<T> = core::result::Result<T, Error>;

impl Error {
    /// The error's kind and message as one line of text.
    pub fn message(&self) -> (r: String) {
        match self {
            Error::Io(m) => m.clone(),
            Error::Serialization(m) => m.clone(),
            Error::KeyNotFound(m) => m.clone(),
            Error::InvalidValuePointer(m) => m.clone(),
            Error::WalCorruption(m) => m.clone(),
            Error::SstCorruption(m) => m.clone(),
            Error::ValueLogCorruption(m) => m.clone(),
            Error::Compaction(m) => m.clone(),
            Error::Cache(m) => m.clone(),
            Error::Config(m) => m.clone(),
            Error::LearnedIndex(m) => m.clone(),
            Error::RlAgent(m) => m.clone(),
            Error::Memory(m) => m.clone(),
            Error::Concurrency(m) => m.clone(),
            Error::Unknown(m) => m.clone(),
        }
    }
}

} // verus!
