//! Peer-topology maintenance and message ingestion for a ledger node.

pub mod peer;
pub mod registry;
pub mod query;
pub mod message;
pub mod processor;
