//! Runtime-wide configuration shared by every agent.

use vstd::prelude::*;

use crate::types::RuntimeMode;

verus! {

/// Global runtime configuration.
#[derive(Debug)]
pub struct GlobalConfig {
    pub runtime_mode: RuntimeMode,
    pub max_concurrent_tasks: usize,
    pub task_timeout_secs: u64,
    pub enable_logging: bool,
    pub log_level: String,
}

impl core::default::Default for GlobalConfig {
    /// The conventional defaults.
    fn default() -> (r: GlobalConfig)
        ensures
            r.runtime_mode == RuntimeMode::MultiAgent,
            r.max_concurrent_tasks == 10,
            r.task_timeout_secs == 300,
            r.enable_logging,
            r.log_level@ == "info"@,
    {
        GlobalConfig {
            runtime_mode: RuntimeMode::MultiAgent,
            max_concurrent_tasks: 10,
            task_timeout_secs: 300,
            enable_logging: true,
            log_level: "info".to_owned(),
        }
    }
}

/// Bounds of the two-tier shared memory pool.
#[derive(Debug, Clone, Copy, PartialEq, Eq, Structural)]
pub struct MemoryPoolConfig {
    pub max_global_entries: usize,
    pub max_agent_entries: usize,
    pub enable_ttl: bool,
    pub cleanup_interval_secs: u64,
}

impl core::default::Default for MemoryPoolConfig {
    /// The conventional defaults.
    fn default() -> (r: MemoryPoolConfig)
        ensures
            r.max_global_entries == 10000,
            r.max_agent_entries == 1000,
            r.enable_ttl,
            r.cleanup_interval_secs == 60,
    {
        MemoryPoolConfig {
            max_global_entries: 10000,
            max_agent_entries: 1000,
            enable_ttl: true,
            cleanup_interval_secs: 60,
        }
    }
}

/// Counts over the memory pool.
#[derive(Debug, Clone, Copy, PartialEq, Eq, Structural)]
pub struct MemoryPoolStats {
    pub global_entries: usize,
    pub agent_entries: usize,
    pub agent_pools: usize,
    pub max_global_entries: usize,
    pub max_agent_entries: usize,
}

} // verus!
