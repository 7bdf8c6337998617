//! A blocking bridge over a federated payment client.
//!
//! The crate owns the lifecycle of a single shared client handle (the
//! registry), derives a stable status for every payment record, and
//! encodes and decodes the invoice strings the bridge hands out.  The
//! federation protocol itself, e-cash issuance and persistent storage
//! are outside collaborators: the host wires them up and feeds their
//! outcomes into the verified decision functions defined here.
#![allow(unused_imports)]

pub mod codec;
pub mod errors;
pub mod facade;
pub mod hashkey;
pub mod ledger;
pub mod registry;
