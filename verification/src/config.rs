//! The cache's configuration.

use vstd::prelude::*;

verus! {

/// The settings of the cache proper.
pub struct CacheConfig {
    ttl: u64,
}

/// The configuration a cache is built from.
pub struct Config {
    cache: CacheConfig,
}

impl Config {
    /// The number of seconds an entry stays readable after it was last
    /// written.
    pub closed spec fn ttl_spec(&self) -> u64 {
        self.cache.ttl
    }

    /// A configuration whose entries live for `ttl` seconds.
    pub fn new(ttl: u64) -> (config: Config)
        ensures
            config.ttl_spec() == ttl,
    {
        Config { cache: CacheConfig { ttl } }
    }

    /// The time-to-live in seconds.
    #[verifier::when_used_as_spec(ttl_spec)]
    pub fn ttl(&self) -> (ttl: u64)
        ensures
            ttl == self.ttl_spec(),
    {
        self.cache.ttl
    }
}

} // verus!
