//! Reconciliation engine for a single managed virtual machine.
//!
//! The library holds the deterministic core of the updater: canonical JSON
//! hashing, manifest building, the allowed-environment whitelist, envelope
//! encryption of secrets, the drift-detection decision table, and the retry
//! policy of the VM lifecycle client. Network transport, file storage and the
//! command-line front end live outside the library and hand it plain values.

pub mod envelope;
pub mod hashing;
pub mod json;
pub mod manifest;
pub mod configcmd;
pub mod order;
pub mod platform;
pub mod reconcile;

use vstd::prelude::*;

verus! {

} // verus!
