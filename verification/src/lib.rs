//! Agreement core of a Byzantine-fault-tolerant replica: the message model,
//! the quorum-certificate ledger, the per-sequence three-phase state machine
//! and the replica coordinator that drives them.

pub mod crypto;
pub mod error;
pub mod message;
pub mod ports;
pub mod quorum;
pub mod sequence;
pub mod replica;
pub mod service;
