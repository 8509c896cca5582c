//! The persistence gateway: a capability that saves and loads the whole key
//! space as one unit.
use vstd::prelude::*;
use crate::error::FerrisError;

verus! {

/// One key as it is written to durable storage: its value and, when it
/// expires, the expiry as whole seconds since the Unix epoch.
#[derive(Debug, Clone, PartialEq, Eq)]
pub struct PersistedEntry {
    pub key: String,
    pub value: String,
    pub ttl: Option<u64>,
}

/// Durable storage for the full key space. The store calls `save` after
/// every mutation and `load` once, when it is created.
pub trait Persistence {
    fn save(&self, data: &Vec<PersistedEntry>) -> Result<(), FerrisError>;

    fn load(&self) -> Result<Vec<PersistedEntry>, FerrisError>;
}

} // verus!
