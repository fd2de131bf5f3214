//! Analysis of two-path Bitcoin spending policies.
//!
//! A wallet descriptor is accepted only when it encodes exactly two spending
//! branches: a primary one, a set of keys that can spend immediately, and a
//! recovery one, a set of keys that can spend once a relative timelock has
//! matured. This crate infers that structure from a descriptor's lifted
//! semantic policy, validates the keys against the wallet's signing model,
//! and counts partial-signature progress against each branch.

pub mod error;
pub mod keys;
pub mod lift;
pub mod messages;
pub mod paths;
pub mod policy;
pub mod semantic;
pub mod timelock;
