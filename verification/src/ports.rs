//! The two capabilities that the coordinator needs from its surroundings:
//! a network to send through and a signer to sign and verify with.

use crate::message::ConsensusMessage;
use vstd::prelude::*;

verus! {

/// A send that the network could not carry out.
#[derive(Debug, PartialEq, Eq)]
pub struct NetworkError {
    /// What the transport said went wrong.
    pub reason: String,
}

impl Clone for NetworkError {
    fn clone(&self) -> (copy: Self)
        ensures
            copy.reason@ == self.reason@,
    {
        NetworkError { reason: self.reason.clone() }
    }
}

/// Delivery of messages to the other replicas.
pub trait NetworkPort {
    /// Sends `message` to every other replica.
    fn broadcast(&self, message: ConsensusMessage) -> Result<(), NetworkError>;

    /// Sends `message` to the replica `target_id`.
    fn send_to(&self, target_id: u64, message: ConsensusMessage) -> Result<(), NetworkError>;
}

/// Signatures over byte strings.
pub trait CryptoPort {
    /// Signs `data` as this replica.
    fn sign(&self, data: &[u8]) -> Vec<u8>;

    /// Whether `signature` is the signature of `sender_id` over `data`.
    fn verify(&self, sender_id: u64, data: &[u8], signature: &[u8]) -> bool;
}

} // verus!
