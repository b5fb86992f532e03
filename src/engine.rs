//! Engine status, health checks and builders.
use vstd::prelude::*;
use crate::api::AuraEngine;
use crate::config::{
    CacheConfig, CompactionConfig, Config, LearnedIndexConfig, MemtableConfig, PerformanceConfig, RlAgentConfig,
    SstConfig, ValueLogConfig, WalConfig, config_problem,
};
use crate::error::Error;
use crate::storage::now_millis;

verus! {

/// Where the engine is in its lifetime.
#[derive(Debug, Clone, PartialEq, Eq)]
pub enum EngineStatus {
    Starting,
    Running,
    ReadOnly,
    ShuttingDown,
    Error(String),
}

/// The result of a health check.
#[derive(Debug, Clone)]
pub struct HealthCheck {
    pub healthy: bool,
    pub message: String,
    /// Milliseconds since the epoch when the check ran.
    pub timestamp: u64,
}

impl HealthCheck {
    /// A check result stamped with the current time.
    pub fn new(healthy: bool, message: String) -> (r: HealthCheck)
        ensures
            r.healthy == healthy,
            r.message == message,
    {
        HealthCheck { healthy, message, timestamp: now_millis() }
    }

    /// A passing check.
    pub fn healthy(message: String) -> (r: HealthCheck)
        ensures
            r.healthy,
            r.message == message,
    {
        HealthCheck::new(true, message)
    }

    /// A failing check.
    pub fn unhealthy(message: String) -> (r: HealthCheck)
        ensures
            !r.healthy,
            r.message == message,
    {
        HealthCheck::new(false, message)
    }
}

impl AuraEngine {
    /// Healthy while the engine accepts writes.
    pub fn health_check(&self) -> (r: HealthCheck)
        ensures
            r.healthy == !self.is_closed(),
    {
        if self.closed() {
            HealthCheck::unhealthy(String::from_str("Engine is closed"))
        } else {
            HealthCheck::healthy(String::from_str("Engine is healthy"))
        }
    }
}

/// Builds an engine from a configuration assembled piece by piece.
#[derive(Debug)]
pub struct AdvancedEngineBuilder {
    config: Config,
}

impl AdvancedEngineBuilder {
    pub closed spec fn spec_config(&self) -> Config {
        self.config
    }

    /// A builder holding the default configuration.
    pub fn new() -> (r: AdvancedEngineBuilder)
        ensures
            config_problem(r.spec_config()) is None,
    {
        AdvancedEngineBuilder { config: Config::new() }
    }

    pub fn with_db_path(self, path: String) -> (r: AdvancedEngineBuilder)
        ensures
            r.spec_config() == (Config { db_path: path, ..self.spec_config() }),
    {
        AdvancedEngineBuilder { config: Config { db_path: path, ..self.config } }
    }

    pub fn with_wal_config(self, wal: WalConfig) -> (r: AdvancedEngineBuilder)
        ensures
            r.spec_config() == (Config { wal, ..self.spec_config() }),
    {
        AdvancedEngineBuilder { config: Config { wal, ..self.config } }
    }

    pub fn with_vlog_config(self, value_log: ValueLogConfig) -> (r: AdvancedEngineBuilder)
        ensures
            r.spec_config() == (Config { value_log, ..self.spec_config() }),
    {
        AdvancedEngineBuilder { config: Config { value_log, ..self.config } }
    }

    pub fn with_memtable_config(self, memtable: MemtableConfig) -> (r: AdvancedEngineBuilder)
        ensures
            r.spec_config() == (Config { memtable, ..self.spec_config() }),
    {
        AdvancedEngineBuilder { config: Config { memtable, ..self.config } }
    }

    pub fn with_sst_config(self, sst: SstConfig) -> (r: AdvancedEngineBuilder)
        ensures
            r.spec_config() == (Config { sst, ..self.spec_config() }),
    {
        AdvancedEngineBuilder { config: Config { sst, ..self.config } }
    }

    pub fn with_compaction_config(self, compaction: CompactionConfig) -> (r: AdvancedEngineBuilder)
        ensures
            r.spec_config() == (Config { compaction, ..self.spec_config() }),
    {
        AdvancedEngineBuilder { config: Config { compaction, ..self.config } }
    }

    pub fn with_cache_config(self, cache: CacheConfig) -> (r: AdvancedEngineBuilder)
        ensures
            r.spec_config() == (Config { cache, ..self.spec_config() }),
    {
        AdvancedEngineBuilder { config: Config { cache, ..self.config } }
    }

    pub fn with_learned_index_config(self, learned_index: LearnedIndexConfig) -> (r: AdvancedEngineBuilder)
        ensures
            r.spec_config() == (Config { learned_index, ..self.spec_config() }),
    {
        AdvancedEngineBuilder { config: Config { learned_index, ..self.config } }
    }

    pub fn with_rl_agent_config(self, rl_agent: RlAgentConfig) -> (r: AdvancedEngineBuilder)
        ensures
            r.spec_config() == (Config { rl_agent, ..self.spec_config() }),
    {
        AdvancedEngineBuilder { config: Config { rl_agent, ..self.config } }
    }

    pub fn with_performance_config(self, performance: PerformanceConfig) -> (r: AdvancedEngineBuilder)
        ensures
            r.spec_config() == (Config { performance, ..self.spec_config() }),
    {
        AdvancedEngineBuilder { config: Config { performance, ..self.config } }
    }

    /// An engine with the assembled configuration, if it is valid.
    pub fn build(self) -> (r: Result<AuraEngine, Error>)
        ensures
            r is Ok <==> config_problem(self.spec_config()) is None,
            r is Ok ==> r.unwrap().well_formed() && r.unwrap()@ == Map::<Seq<u8>, Seq<u8>>::empty(),
            r is Err ==> r.unwrap_err() is Config,
    {
        match self.config.validate() {
            Ok(()) => Ok(AuraEngine::new(self.config)),
            Err(m) => Err(Error::Config(m)),
        }
    }
}

/// Builds an engine with the default configuration and a database path.
#[derive(Debug)]
pub struct EngineBuilder {
    config: Config,
}

impl EngineBuilder {
    pub closed spec fn spec_config(&self) -> Config {
        self.config
    }

    /// A builder holding the default configuration.
    pub fn new() -> (r: EngineBuilder)
        ensures
            config_problem(r.spec_config()) is None,
    {
        EngineBuilder { config: Config::new() }
    }

    /// Sets the database path.
    pub fn path(self, path: String) -> (r: EngineBuilder)
        ensures
            r.spec_config() == (Config { db_path: path, ..self.spec_config() }),
    {
        EngineBuilder { config: Config { db_path: path, ..self.config } }
    }

    /// An engine with the configuration, if it is valid.
    pub fn build(self) -> (r: Result<AuraEngine, Error>)
        ensures
            r is Ok <==> config_problem(self.spec_config()) is None,
            r is Ok ==> r.unwrap().well_formed() && r.unwrap()@ == Map::<Seq<u8>, Seq<u8>>::empty(),
    {
        match self.config.validate() {
            Ok(()) => Ok(AuraEngine::new(self.config)),
            Err(m) => Err(Error::Config(m)),
        }
    }
}

/// An engine with the default configuration at `db_path`.
pub fn create_engine(db_path: String) -> (r: Result<AuraEngine, Error>)
    ensures
        r is Ok,
        r.unwrap().well_formed(),
        r.unwrap()@ == Map::<Seq<u8>, Seq<u8>>::empty(),
{
    EngineBuilder::new().path(db_path).build()
}

/// An engine with `config`, if it is valid.
pub fn create_engine_with_config(config: Config) -> (r: Result<AuraEngine, Error>)
    ensures
        r is Ok <==> config_problem(config) is None,
{
    match config.validate() {
        Ok(()) => Ok(AuraEngine::new(config)),
        Err(m) => Err(Error::Config(m)),
    }
}

/// Options for opening a database.
#[derive(Debug, Clone)]
pub struct Options {
    pub path: String,
    pub create_if_missing: bool,
    pub error_if_exists: bool,
}

impl Default for Options {
    fn default() -> (r: Options)
        ensures
            r.create_if_missing,
            !r.error_if_exists,
    {
        Options { path: String::from_str("./auradb_data"), create_if_missing: true, error_if_exists: false }
    }
}

} // verus!
