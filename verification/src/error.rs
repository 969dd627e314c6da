//! The ways in which the coordinator turns a message or a proposal down.

use vstd::prelude::*;

verus! {

/// Why a message or a proposal had no effect, or not its full effect.
#[derive(Debug, Clone, Copy, PartialEq, Eq, Hash, Structural)]
pub enum ConsensusError {
    /// The message belongs to a view that this replica has left.
    StaleView,
    /// The message belongs to a view that this replica has not reached.
    FutureView,
    /// The signature does not fit the message and its sender.
    InvalidSignature,
    /// A proposal came from a replica that is not the primary of the view.
    WrongPrimary,
    /// The sender had already voted for another digest in this phase.
    Equivocation,
    /// This replica was asked to propose in a view of which it is not the
    /// primary.
    NotPrimary,
    /// A vote or a proposal of this replica could not be sent.
    NetworkError,
}

impl ConsensusError {
    /// Whether the error is evidence of a fault of the sender, to be handed
    /// to whoever acts on such evidence.
    pub open spec fn spec_fault_reportable(self) -> bool {
        self == ConsensusError::InvalidSignature || self == ConsensusError::WrongPrimary || self
            == ConsensusError::Equivocation
    }

    /// Whether the error is evidence of a fault of the sender.
    pub fn fault_reportable(&self) -> (reportable: bool)
        ensures
            reportable == self.spec_fault_reportable(),
    {
        match self {
            ConsensusError::InvalidSignature => true,
            ConsensusError::WrongPrimary => true,
            ConsensusError::Equivocation => true,
            _ => false,
        }
    }
}

} // verus!
