//! An LRU cache of shared, dirty-tracked entries in front of a pluggable
//! backing store.
use vstd::prelude::*;

pub mod cache;
pub mod dumb;
pub mod error;
pub mod item;
pub mod recency;
pub mod source;

pub use cache::{remove_from_store, unload_dirty_value, write_back_to, Cache, Fetch, WriteBack};
pub use dumb::DumbCacheSource;
pub use item::CacheItem;
pub use source::CacheSource;
pub use writium::error::Error;

verus! {

} // verus!
