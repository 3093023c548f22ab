//! Startup configuration, immutable once built.

use vstd::prelude::*;

verus! {

/// The proxy cannot start without at least one upstream.
#[derive(Clone, Copy, PartialEq, Eq, Structural, Debug)]
pub enum ConfigError {
    NoUpstreams,
}

/// Everything the proxy is told at startup.
pub struct Config {
    /// Address to listen on.
    pub bind: String,
    /// Upstream addresses, at least one; duplicates allowed.
    pub upstreams: Vec<String>,
    /// Seconds between health-check ticks. Zero means probe back to back,
    /// not never.
    pub health_check_interval_secs: u64,
    /// Path probed on each upstream.
    pub health_check_path: String,
    /// Per-client requests per minute; zero disables limiting.
    pub max_requests_per_minute: u64,
}

impl Config {
    /// Validate and build: fails exactly when no upstream was given.
    pub fn new(
        bind: String,
        upstreams: Vec<String>,
        health_check_interval_secs: u64,
        health_check_path: String,
        max_requests_per_minute: u64,
    ) -> (r: Result<Config, ConfigError>)
        ensures
            match r {
                Ok(c) => {
                    &&& upstreams@.len() >= 1
                    &&& c.bind == bind
                    &&& c.upstreams == upstreams
                    &&& c.health_check_interval_secs == health_check_interval_secs
                    &&& c.health_check_path == health_check_path
                    &&& c.max_requests_per_minute == max_requests_per_minute
                },
                Err(e) => upstreams@.len() == 0 && e == ConfigError::NoUpstreams,
            },
    {
        if upstreams.len() == 0 {
            Err(ConfigError::NoUpstreams)
        } else {
            Ok(
                Config {
                    bind,
                    upstreams,
                    health_check_interval_secs,
                    health_check_path,
                    max_requests_per_minute,
                },
            )
        }
    }
}

} // verus!
