//! An in-process key-value store with optional per-key expiry, a line-based
//! command language, and a pluggable persistence gateway.
pub mod command;
pub mod error;
pub mod executor;
pub mod laws;
pub mod model;
pub mod persistence;
pub mod store;
pub mod text;
