//! Control core of an inter-blockchain relayer.
//!
//! The supervisor watches event batches emitted by a set of chains,
//! classifies each event into the cross-chain relationship (an [`object::Object`])
//! it pertains to, and dispatches the events to per-relationship workers.
//! Chain runtimes, channels and the polling loop live outside this crate;
//! here the supervisor is a verified state machine over plain data.

pub mod classify;
pub mod cmd;
pub mod config;
pub mod dump_state;
pub mod errors;
pub mod events;
pub mod handle;
pub mod ids;
pub mod laws;
pub mod link;
pub mod object;
pub mod order;
pub mod registry;
pub mod spawn;
pub mod supervisor;
pub mod worker;
