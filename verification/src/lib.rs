//! Client-side gateway library for a Byzantine-fault-tolerant object
//! blockchain: the transaction data model and its cryptographic envelope,
//! quorum certificate aggregation, the local object store with its locking
//! discipline, and the execute/commit pipeline with response shaping.

pub mod api;
pub mod base_types;
pub mod codec;
pub mod committee;
pub mod crypto;
pub mod effects;
pub mod envelope;
pub mod error;
pub mod gateway;
pub mod messages;
pub mod modules;
pub mod object;
pub mod store;
