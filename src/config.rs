//! Engine configuration. Paths are plain strings; fractions are kept in thousandths.
use vstd::prelude::*;

verus! {

/// When the write-ahead log is forced to disk.
#[derive(Debug, Clone, Copy, PartialEq, Eq, Structural)]
pub enum WalSyncPolicy {
    /// After every record.
    EveryWrite,
    /// After every N records.
    EveryNWrites(u64),
    /// At most every N milliseconds, on a timer kept by the caller.
    EveryNMs(u64),
    /// Only when the caller asks.
    Manual,
}

/// Write-ahead log settings.
#[derive(Debug, Clone)]
pub struct WalConfig {
    /// Directory of the log files.
    pub wal_path: String,
    /// Size at which a file is sealed and a new one opened.
    pub max_file_size: u64,
    /// Whether records go through a background writer.
    pub async_writes: bool,
    /// When records are forced to disk.
    pub sync_policy: WalSyncPolicy,
    /// Write buffer size in bytes.
    pub buffer_size: usize,
}

impl Default for WalConfig {
    fn default() -> (r: WalConfig)
        ensures
            r.max_file_size == 64 * 1024 * 1024,
            r.async_writes,
            r.sync_policy == WalSyncPolicy::EveryWrite,
            r.buffer_size == 64 * 1024,
    {
        WalConfig {
            wal_path: String::from_str("./auradb_data/wal"),
            max_file_size: 64 * 1024 * 1024,
            async_writes: true,
            sync_policy: WalSyncPolicy::EveryWrite,
            buffer_size: 64 * 1024,
        }
    }
}

impl WalConfig {
    /// A copy of the settings.
    pub fn duplicate(&self) -> (r: WalConfig)
        ensures
            r.max_file_size == self.max_file_size,
            r.async_writes == self.async_writes,
            r.sync_policy == self.sync_policy,
            r.buffer_size == self.buffer_size,
    {
        WalConfig {
            wal_path: self.wal_path.clone(),
            max_file_size: self.max_file_size,
            async_writes: self.async_writes,
            sync_policy: self.sync_policy,
            buffer_size: self.buffer_size,
        }
    }
}

/// Compression applied to value log segments.
#[derive(Debug, Clone, Copy, PartialEq, Eq, Structural)]
pub enum CompressionAlgorithm {
    Uncompressed,
    Lz4,
    Zstd,
    Snappy,
}

/// The byte that stands for an algorithm in file headers.
pub open spec fn compression_code(c: CompressionAlgorithm) -> u8 {
    match c {
        CompressionAlgorithm::Uncompressed => 0,
        CompressionAlgorithm::Lz4 => 1,
        CompressionAlgorithm::Zstd => 2,
        CompressionAlgorithm::Snappy => 3,
    }
}

impl CompressionAlgorithm {
    /// The byte that stands for the algorithm in file headers.
    pub fn code(&self) -> (r: u8)
        ensures
            r == compression_code(*self),
    {
        match self {
            CompressionAlgorithm::Uncompressed => 0,
            CompressionAlgorithm::Lz4 => 1,
            CompressionAlgorithm::Zstd => 2,
            CompressionAlgorithm::Snappy => 3,
        }
    }

    /// The algorithm that a header byte stands for.
    pub fn from_code(code: u8) -> (r: Option<CompressionAlgorithm>)
        ensures
            r is Some <==> code <= 3,
            r is Some ==> compression_code(r.unwrap()) == code,
    {
        if code == 0 {
            Some(CompressionAlgorithm::Uncompressed)
        } else if code == 1 {
            Some(CompressionAlgorithm::Lz4)
        } else if code == 2 {
            Some(CompressionAlgorithm::Zstd)
        } else if code == 3 {
            Some(CompressionAlgorithm::Snappy)
        } else {
            None
        }
    }
}

/// Value log settings.
#[derive(Debug, Clone)]
pub struct ValueLogConfig {
    /// Directory of the segments.
    pub vlog_path: String,
    /// Size at which a segment is sealed.
    pub max_segment_size: u64,
    /// Values of at least this many bytes are stored in the value log.
    pub separation_threshold: usize,
    /// Number of parallel write queues.
    pub write_queues: usize,
    /// Cache size in bytes.
    pub cache_size: usize,
    /// Whether values are compressed.
    pub compress_values: bool,
    /// The algorithm new segments declare.
    pub compression_algorithm: CompressionAlgorithm,
}

impl Default for ValueLogConfig {
    fn default() -> (r: ValueLogConfig)
        ensures
            r.max_segment_size == 256 * 1024 * 1024,
            r.separation_threshold == 1024,
            r.write_queues == 4,
            r.cache_size == 64 * 1024 * 1024,
            r.compress_values,
            r.compression_algorithm == CompressionAlgorithm::Lz4,
    {
        ValueLogConfig {
            vlog_path: String::from_str("./auradb_data/vlog"),
            max_segment_size: 256 * 1024 * 1024,
            separation_threshold: 1024,
            write_queues: 4,
            cache_size: 64 * 1024 * 1024,
            compress_values: true,
            compression_algorithm: CompressionAlgorithm::Lz4,
        }
    }
}

impl ValueLogConfig {
    /// A copy of the settings.
    pub fn duplicate(&self) -> (r: ValueLogConfig)
        ensures
            r.max_segment_size == self.max_segment_size,
            r.separation_threshold == self.separation_threshold,
            r.write_queues == self.write_queues,
            r.cache_size == self.cache_size,
            r.compress_values == self.compress_values,
            r.compression_algorithm == self.compression_algorithm,
    {
        ValueLogConfig {
            vlog_path: self.vlog_path.clone(),
            max_segment_size: self.max_segment_size,
            separation_threshold: self.separation_threshold,
            write_queues: self.write_queues,
            cache_size: self.cache_size,
            compress_values: self.compress_values,
            compression_algorithm: self.compression_algorithm,
        }
    }
}

/// Which ordered structure backs a memtable.
#[derive(Debug, Clone, Copy, PartialEq, Eq, Structural)]
pub enum MemtableImpl {
    SkipList,
    Art,
    BTree,
}

/// Memtable settings.
#[derive(Debug, Clone)]
pub struct MemtableConfig {
    /// Size in bytes at which the memtable is full.
    pub max_size: usize,
    /// Backing structure.
    pub implementation: MemtableImpl,
    /// Number of memtables.
    pub count: usize,
    /// Fraction of `max_size`, in thousandths, at which a flush is due.
    pub flush_threshold_permille: u32,
}

impl Default for MemtableConfig {
    fn default() -> (r: MemtableConfig)
        ensures
            r.max_size == 64 * 1024 * 1024,
            r.implementation == MemtableImpl::SkipList,
            r.count == 2,
            r.flush_threshold_permille == 800,
    {
        MemtableConfig {
            max_size: 64 * 1024 * 1024,
            implementation: MemtableImpl::SkipList,
            count: 2,
            flush_threshold_permille: 800,
        }
    }
}

/// Sorted table settings.
#[derive(Debug, Clone)]
pub struct SstConfig {
    /// Directory of the tables.
    pub sst_path: String,
    /// Target file size in bytes.
    pub target_file_size: u64,
    /// Data block size in bytes.
    pub block_size: usize,
    /// Whether tables carry bloom filters.
    pub use_bloom_filters: bool,
    /// Bloom filter bits per key.
    pub bloom_bits_per_key: u32,
    /// Whether tables carry ribbon filters.
    pub use_ribbon_filters: bool,
    /// Block compression.
    pub compression: CompressionAlgorithm,
}

impl Default for SstConfig {
    fn default() -> (r: SstConfig)
        ensures
            r.target_file_size == 64 * 1024 * 1024,
            r.block_size == 64 * 1024,
            r.use_bloom_filters,
            r.bloom_bits_per_key == 10,
            !r.use_ribbon_filters,
            r.compression == CompressionAlgorithm::Lz4,
    {
        SstConfig {
            sst_path: String::from_str("./auradb_data/sst"),
            target_file_size: 64 * 1024 * 1024,
            block_size: 64 * 1024,
            use_bloom_filters: true,
            bloom_bits_per_key: 10,
            use_ribbon_filters: false,
            compression: CompressionAlgorithm::Lz4,
        }
    }
}

/// How sorted tables are merged across levels.
#[derive(Debug, Clone, Copy, PartialEq, Eq, Structural)]
pub enum CompactionStrategy {
    Leveled,
    Tiered,
    Flexible,
}

/// Thresholds at which a compaction is due.
#[derive(Debug, Clone, Copy, PartialEq, Eq, Structural)]
pub struct CompactionTriggers {
    /// Level 0 file count.
    pub level0_files: usize,
    /// Ratio of a level's size to the one above it.
    pub level_size_ratio: u64,
    /// Estimated write amplification, in thousandths.
    pub write_amplification_permille: u64,
}

impl Default for CompactionTriggers {
    fn default() -> (r: CompactionTriggers)
        ensures
            r == (CompactionTriggers { level0_files: 4, level_size_ratio: 10, write_amplification_permille: 5000 }),
    {
        CompactionTriggers { level0_files: 4, level_size_ratio: 10, write_amplification_permille: 5000 }
    }
}

/// Compaction settings.
#[derive(Debug, Clone, Copy, PartialEq, Eq, Structural)]
pub struct CompactionConfig {
    pub strategy: CompactionStrategy,
    /// Most background threads.
    pub max_threads: usize,
    /// I/O budget in MB/s, if limited.
    pub io_rate_limit: Option<u64>,
    /// Whether an external observer picks the policy.
    pub use_rl_agent: bool,
    pub triggers: CompactionTriggers,
}

impl Default for CompactionConfig {
    fn default() -> (r: CompactionConfig)
        ensures
            r.strategy == CompactionStrategy::Leveled,
            r.max_threads == 4,
            r.io_rate_limit == Some(100u64),
            r.use_rl_agent,
            r.triggers.level0_files == 4,
    {
        CompactionConfig {
            strategy: CompactionStrategy::Leveled,
            max_threads: 4,
            io_rate_limit: Some(100),
            use_rl_agent: true,
            triggers: CompactionTriggers::default(),
        }
    }
}

/// Cache eviction policy.
#[derive(Debug, Clone, Copy, PartialEq, Eq, Structural)]
pub enum EvictionPolicy {
    Lru,
    Arc,
    TinyLfu,
}

/// Cache settings.
#[derive(Debug, Clone, Copy, PartialEq, Eq, Structural)]
pub struct CacheConfig {
    pub block_cache_size: usize,
    pub vlog_cache_size: usize,
    pub eviction_policy: EvictionPolicy,
    pub unified_cache: bool,
}

impl Default for CacheConfig {
    fn default() -> (r: CacheConfig)
        ensures
            r.block_cache_size == 256 * 1024 * 1024,
            r.vlog_cache_size == 64 * 1024 * 1024,
            r.eviction_policy == EvictionPolicy::Arc,
            r.unified_cache,
    {
        CacheConfig {
            block_cache_size: 256 * 1024 * 1024,
            vlog_cache_size: 64 * 1024 * 1024,
            eviction_policy: EvictionPolicy::Arc,
            unified_cache: true,
        }
    }
}

/// Learned index model family.
#[derive(Debug, Clone, Copy, PartialEq, Eq, Structural)]
pub enum ModelType {
    PiecewiseLinear,
    Rmi,
    TinyNn,
}

/// Lookup path used when the learned index misses.
#[derive(Debug, Clone, Copy, PartialEq, Eq, Structural)]
pub enum FallbackMethod {
    BinarySearch,
    FencePointers,
    BloomScan,
}

/// Learned index settings.
#[derive(Debug, Clone, Copy, PartialEq, Eq, Structural)]
pub struct LearnedIndexConfig {
    pub enabled: bool,
    pub model_type: ModelType,
    /// Retrain every this many operations.
    pub training_frequency: usize,
    pub online_tuning: bool,
    pub fallback_method: FallbackMethod,
}

impl Default for LearnedIndexConfig {
    fn default() -> (r: LearnedIndexConfig)
        ensures
            r == (LearnedIndexConfig {
                enabled: true,
                model_type: ModelType::PiecewiseLinear,
                training_frequency: 10000,
                online_tuning: true,
                fallback_method: FallbackMethod::BinarySearch,
            }),
    {
        LearnedIndexConfig {
            enabled: true,
            model_type: ModelType::PiecewiseLinear,
            training_frequency: 10000,
            online_tuning: true,
            fallback_method: FallbackMethod::BinarySearch,
        }
    }
}

/// Settings of the external compaction policy agent. Rates are in thousandths.
#[derive(Debug, Clone)]
pub struct RlAgentConfig {
    pub enabled: bool,
    pub learning_rate_permille: u32,
    pub exploration_rate_permille: u32,
    pub state_update_frequency: usize,
    pub offline_training: bool,
    pub training_data_path: Option<String>,
}

impl Default for RlAgentConfig {
    fn default() -> (r: RlAgentConfig)
        ensures
            r.enabled,
            r.learning_rate_permille == 10,
            r.exploration_rate_permille == 100,
            r.state_update_frequency == 1000,
            !r.offline_training,
            r.training_data_path.is_none(),
    {
        RlAgentConfig {
            enabled: true,
            learning_rate_permille: 10,
            exploration_rate_permille: 100,
            state_update_frequency: 1000,
            offline_training: false,
            training_data_path: None,
        }
    }
}

/// Relies on `num_cpus::get`: the number of logical CPUs available to this process,
/// which its documentation says is always at least one.
#[verifier::external_body]
fn available_cpus() -> (r: usize)
    ensures
        r >= 1,
{
    num_cpus::get()
}

/// Performance tuning.
#[derive(Debug, Clone, Copy, PartialEq, Eq, Structural)]
pub struct PerformanceConfig {
    pub worker_threads: usize,
    pub io_buffer_size: usize,
    pub direct_io: bool,
    pub memory_mapped: bool,
    pub numa_aware: bool,
}

impl Default for PerformanceConfig {
    /// One worker thread per available CPU.
    fn default() -> (r: PerformanceConfig)
        ensures
            r.io_buffer_size == 1024 * 1024,
            r.worker_threads >= 1,
            !r.direct_io,
            r.memory_mapped,
            !r.numa_aware,
    {
        PerformanceConfig {
            worker_threads: available_cpus(),
            io_buffer_size: 1024 * 1024,
            direct_io: false,
            memory_mapped: true,
            numa_aware: false,
        }
    }
}

/// The whole engine configuration.
#[derive(Debug, Clone)]
pub struct Config {
    pub db_path: String,
    pub wal: WalConfig,
    pub value_log: ValueLogConfig,
    pub memtable: MemtableConfig,
    pub sst: SstConfig,
    pub compaction: CompactionConfig,
    pub cache: CacheConfig,
    pub learned_index: LearnedIndexConfig,
    pub rl_agent: RlAgentConfig,
    pub performance: PerformanceConfig,
}

/// Which check a configuration fails first, if any.
pub open spec fn config_problem(c: Config) -> Option<int> {
    if c.wal.max_file_size == 0 {
        Some(0)
    } else if c.value_log.max_segment_size == 0 {
        Some(1)
    } else if c.memtable.max_size == 0 {
        Some(2)
    } else if c.sst.target_file_size == 0 {
        Some(3)
    } else if c.cache.block_cache_size == 0 {
        Some(4)
    } else {
        None
    }
}

impl Default for Config {
    fn default() -> (r: Config)
        ensures
            r.wal.max_file_size == 64 * 1024 * 1024,
            r.value_log.separation_threshold == 1024,
            r.value_log.max_segment_size == 256 * 1024 * 1024,
            r.memtable.max_size == 64 * 1024 * 1024,
            r.sst.target_file_size == 64 * 1024 * 1024,
            r.cache.block_cache_size == 256 * 1024 * 1024,
    {
        Config {
            db_path: String::from_str("./auradb_data"),
            wal: WalConfig::default(),
            value_log: ValueLogConfig::default(),
            memtable: MemtableConfig::default(),
            sst: SstConfig::default(),
            compaction: CompactionConfig::default(),
            cache: CacheConfig::default(),
            learned_index: LearnedIndexConfig::default(),
            rl_agent: RlAgentConfig::default(),
            performance: PerformanceConfig::default(),
        }
    }
}

impl Config {
    /// The default configuration.
    pub fn new() -> (r: Config)
        ensures
            config_problem(r) is None,
            r.value_log.separation_threshold == 1024,
            r.wal.max_file_size == 64 * 1024 * 1024,
    {
        Config::default()
    }

    pub fn with_db_path(self, path: String) -> (r: Config)
        ensures
            r == (Config { db_path: path, ..self }),
    {
        Config { db_path: path, ..self }
    }

    pub fn with_wal(self, wal: WalConfig) -> (r: Config)
        ensures
            r == (Config { wal, ..self }),
    {
        Config { wal, ..self }
    }

    pub fn with_value_log(self, value_log: ValueLogConfig) -> (r: Config)
        ensures
            r == (Config { value_log, ..self }),
    {
        Config { value_log, ..self }
    }

    pub fn with_memtable(self, memtable: MemtableConfig) -> (r: Config)
        ensures
            r == (Config { memtable, ..self }),
    {
        Config { memtable, ..self }
    }

    pub fn with_sst(self, sst: SstConfig) -> (r: Config)
        ensures
            r == (Config { sst, ..self }),
    {
        Config { sst, ..self }
    }

    pub fn with_compaction(self, compaction: CompactionConfig) -> (r: Config)
        ensures
            r == (Config { compaction, ..self }),
    {
        Config { compaction, ..self }
    }

    pub fn with_cache(self, cache: CacheConfig) -> (r: Config)
        ensures
            r == (Config { cache, ..self }),
    {
        Config { cache, ..self }
    }

    pub fn with_learned_index(self, learned_index: LearnedIndexConfig) -> (r: Config)
        ensures
            r == (Config { learned_index, ..self }),
    {
        Config { learned_index, ..self }
    }

    pub fn with_rl_agent(self, rl_agent: RlAgentConfig) -> (r: Config)
        ensures
            r == (Config { rl_agent, ..self }),
    {
        Config { rl_agent, ..self }
    }

    pub fn with_performance(self, performance: PerformanceConfig) -> (r: Config)
        ensures
            r == (Config { performance, ..self }),
    {
        Config { performance, ..self }
    }

    /// Checks that every size that must be positive is.
    pub fn validate(&self) -> (r: Result<(), String>)
        ensures
            r is Ok <==> config_problem(*self) is None,
    {
        if self.wal.max_file_size == 0 {
            return Err(String::from_str("WAL max file size must be greater than 0"));
        }
        if self.value_log.max_segment_size == 0 {
            return Err(String::from_str("Value log max segment size must be greater than 0"));
        }
        if self.memtable.max_size == 0 {
            return Err(String::from_str("Memtable max size must be greater than 0"));
        }
        if self.sst.target_file_size == 0 {
            return Err(String::from_str("SST target file size must be greater than 0"));
        }
        if self.cache.block_cache_size == 0 {
            return Err(String::from_str("Block cache size must be greater than 0"));
        }
        Ok(())
    }
}

} // verus!
