//! Backends that keep everything in memory.

pub mod cache;
pub mod checkpoint;
pub mod event;

pub use crate::mem::cache::MemCacheBackend;
pub use crate::mem::checkpoint::MemCheckpointBackend;
pub use crate::mem::event::MemEventBackend;
