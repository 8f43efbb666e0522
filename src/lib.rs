//! Asset resource manager: a cache of shared resource records, keyed by path or by
//! a stable UUID, with a registry that maps UUIDs to relative paths, loaders chosen
//! by extension, built-in resources, eviction after a grace period, and reloading.

pub mod path;
pub mod state;
pub mod loader;
pub mod registry;
pub mod builtin;
pub mod manager;
pub mod editor;
