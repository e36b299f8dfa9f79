//! A registry of uniquely owned tokens grouped into named sets, with a
//! peer-to-peer swap marketplace that exchanges bundles of tokens between
//! two accounts under single-token approvals.
//!
//! The host that drives this library supplies caller identity, durable
//! storage and event delivery; every entry point here takes the invoking
//! account as an explicit argument and returns the event record it would
//! emit, so the whole decision logic is verified.

pub mod index;
pub mod registry;
pub mod types;
