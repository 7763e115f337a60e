//! Core of a one-directional local-to-remote file synchroniser.
//!
//! The library holds the change-detection-to-transfer pipeline as verified
//! state machines over plain values: sync-pair bookkeeping, provider
//! registry, event debouncing/coalescing, path resolution, and the transfer
//! dispatcher with its retry policy. The surrounding process (filesystem
//! notification delivery, persistence, network transfers) performs the
//! actions these state machines decide on and feeds the outcomes back in.

pub mod dispatcher;
pub mod engine;
pub mod events;
pub mod models;
pub mod provider;
pub mod registry;
pub mod resolver;
pub mod store;
pub mod text;

use vstd::prelude::*;

verus! {

} // verus!
