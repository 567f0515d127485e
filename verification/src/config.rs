//! Configuration of a cache instance: byte budget, payload encoding,
//! eviction strategy and the shape of the sharded directory layout.

use vstd::prelude::*;

pub use crate::encoding::DataEncoding;

verus! {

/// General configuration of the cache functionality.
///
/// A configuration is supplied once, at construction, and is immutable for
/// the lifetime of the cache instance.
#[derive(Clone, Debug)]
pub struct CacheConfig {
    /// Maximum size of the cache in bytes.
    pub max_bytes: u64,
    /// Encoding format of the data files.
    pub encoding: DataEncoding,
    /// Strategy of the cache used.
    pub strategy: CacheStrategy,
    /// Number of subdirectories per level. (There are two levels.)
    pub subdirs_per_level: u32,
}

impl CacheConfig {
    /// A configuration is usable only when the sharded layout has at least
    /// one subdirectory per level; `subdirs_per_level == 0` would make the
    /// id-to-path mapping divide by zero and is rejected at construction.
    pub open spec fn valid(&self) -> bool {
        self.subdirs_per_level >= 1
    }
}

#[derive(Clone, Debug)]
pub enum CacheStrategy {
    /// Least recently used.
    ///
    /// Delete the value that was least recently used when needed.
    /// This is a good trade off keeping active values around and
    /// deleting old ones to make room for new ones.
    LRU,
}

impl Default for CacheStrategy {
    fn default() -> (r: Self)
        ensures
            r is LRU,
    {
        CacheStrategy::LRU
    }
}

} // verus!
