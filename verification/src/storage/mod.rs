//! The storage engine: segments, their indexes, the write cache, and the
//! per-partition log built from them.

pub mod index;
pub mod log_storage;
pub mod names;
pub mod segment;
pub mod tiered;
pub mod write_cache;
