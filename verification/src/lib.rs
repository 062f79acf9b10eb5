//! Verified core of a Maelstrom node: envelope types, outgoing message
//! numbering, the initialization handshake, and the gossip-based reliable
//! broadcast protocol with its acknowledgment ledger and retry rounds.
//!
//! Everything here is free of I/O. A host program feeds decoded envelopes in
//! and writes the returned envelopes out.

pub mod broadcast;
pub mod cluster;
pub mod ledger;
pub mod message;
pub mod node;
pub mod retry;
pub mod runtime;
pub mod serializer;
pub mod wire;
