//! Errors surfaced by the supervisor's registry and subscription paths.
//!
//! Per-event classification failures have their own type,
//! [`crate::object::ClassifyError`]; they are absorbed by the classifier
//! and never surface here.

use vstd::prelude::*;

use crate::ids::ChainId;

verus! {

/// Why a registry or subscription operation failed.
#[derive(Debug)]
pub enum Error {
    /// The registry is empty after a subscription rebuild; the supervisor
    /// keeps running with no subscriptions.
    NoChainsAvailable,
    /// No configured chain carries the requested id.
    ChainConfigNotFound(ChainId),
    /// The chain runtime failed to start.
    SpawnFailed(ChainId),
}

impl Clone for Error {
    fn clone(&self) -> (r: Self)
        ensures
            r == *self,
    {
        match self {
            Error::NoChainsAvailable => Error::NoChainsAvailable,
            Error::ChainConfigNotFound(id) => Error::ChainConfigNotFound(id.clone()),
            Error::SpawnFailed(id) => Error::SpawnFailed(id.clone()),
        }
    }
}

} // verus!
