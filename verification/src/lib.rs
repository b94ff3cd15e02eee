//! State-reconciliation engine of a directory synchronisation client.
//!
//! The crate keeps the baseline of a synchronised directory (which files are
//! tracked, with which content digest and at which version), classifies every
//! file of a fresh scan against that baseline, builds the change summary that
//! is sent to the remote store, and merges the remote's answer back into the
//! baseline.  All of it works on plain values; reading files and talking to
//! the network is left to the caller.

pub mod text;
pub mod entry;
pub mod mapping;
pub mod snapshot;
pub mod scan;
pub mod reconcile;
pub mod hasher;
pub mod error;
pub mod request;
pub mod response;
pub mod store;
pub mod round;
