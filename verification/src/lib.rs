//! Engines behind an interactive disk-usage dashboard: a deterministic
//! classification cascade that scores every filesystem entry, and a cache +
//! coordinator protocol that resolves directory sizes computed off the
//! interactive loop, with deduplication of in-flight work and ancestor
//! invalidation on deletion.

pub mod cache;
pub mod classify;
pub mod coordinator;
pub mod dirsize;
pub mod human_size;
pub mod icon;
pub mod listing;
pub mod nav;
pub mod text;
