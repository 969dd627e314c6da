//! The replica coordinator: the single entry point for inbound messages and
//! for proposals, which has signatures verified, lets the replica's state
//! take the message in, and signs and sends the votes that fall due.

use crate::error::ConsensusError;
use crate::message::ConsensusMessage;
use crate::ports::{CryptoPort, NetworkError, NetworkPort};
use crate::replica::{ContextView, ReplicaConfig, ReplicaContext};
use vstd::prelude::*;

verus! {

/// What the coordinator answers: the answer of the replica's state, unless
/// that was a success and a vote that fell due could not be sent.
pub open spec fn reported(status: Result<(), ConsensusError>, send_failed: bool) -> Result<
    (),
    ConsensusError,
> {
    match status {
        Ok(_) => if send_failed {
            Err(ConsensusError::NetworkError)
        } else {
            Ok(())
        },
        Err(e) => Err(e),
    }
}

/// The counter of failed sends after one more send, which failed or not.
pub open spec fn counted(failures: u64, send_failed: bool) -> u64 {
    if send_failed && failures < u64::MAX {
        (failures + 1) as u64
    } else {
        failures
    }
}

/// Whether handling the message `m` in state `before` can end in state
/// `after` with the answer `answer`, the signer having found the signature
/// valid or not as `signature_valid` says and a send having failed or not as
/// `send_failed` says. Sends happen only where votes fell due.
pub open spec fn handled(
    before: ContextView,
    m: crate::message::MessageView,
    signature_valid: bool,
    send_failed: bool,
    after: ContextView,
    answer: Result<(), ConsensusError>,
) -> bool {
    &&& after == before.step(m, signature_valid)
    &&& answer == reported(before.step_status(m, signature_valid), send_failed)
    &&& send_failed ==> before.step_votes(m, signature_valid).len() > 0
}

/// The answer to a message, given the answer of the replica's state and
/// whether a send failed.
pub fn report(status: Result<(), ConsensusError>, send_failed: bool) -> (answer: Result<
    (),
    ConsensusError,
>)
    ensures
        answer == reported(status, send_failed),
{
    match status {
        Ok(()) => if send_failed {
            Err(ConsensusError::NetworkError)
        } else {
            Ok(())
        },
        Err(e) => Err(e),
    }
}

/// Whether the network reported that a send failed.
pub fn send_failed(outcome: &Result<(), NetworkError>) -> (failed: bool)
    ensures
        failed == (outcome is Err),
{
    match outcome {
        Ok(_) => false,
        Err(_) => true,
    }
}

/// The counter of failed sends after one more send, which failed or not. The
/// counter stops at the largest number.
pub fn count_send(failures: u64, send_failed: bool) -> (count: u64)
    ensures
        count == counted(failures, send_failed),
{
    if send_failed && failures < u64::MAX {
        failures + 1
    } else {
        failures
    }
}

/// One replica of the cluster: its state, the network it sends through and
/// the signer it signs and verifies with.
pub struct ByzantineConsensusService<N, C> where N: NetworkPort, C: CryptoPort {
    context: ReplicaContext,
    network: N,
    crypto: C,
    send_failures: u64,
}

impl<N, C> View for ByzantineConsensusService<N, C> where N: NetworkPort, C: CryptoPort {
    type V = ContextView;

    closed spec fn view(&self) -> ContextView {
        self.context@
    }
}

impl<N, C> ByzantineConsensusService<N, C> where N: NetworkPort, C: CryptoPort {
    /// The service's invariant: that of the replica's state.
    pub closed spec fn wf(&self) -> bool {
        self.context.wf()
    }

    /// Number of sends that failed so far; it stops at the largest number.
    pub closed spec fn spec_send_failures(&self) -> u64 {
        self.send_failures
    }

    /// A replica set up with `config`, unless the cluster is empty.
    pub fn new(config: ReplicaConfig, network: N, crypto: C) -> (service: Option<Self>)
        ensures
            service is Some <==> config.spec_usable(),
            service matches Some(s) ==> s.wf() && s@ == ContextView::initial(config)
                && s.spec_send_failures() == 0 && s.spec_network() == network && s.spec_crypto()
                == crypto,
    {
        match ReplicaContext::new(config) {
            Some(context) => Some(
                ByzantineConsensusService { context, network, crypto, send_failures: 0 },
            ),
            None => None,
        }
    }

    /// The replica's state.
    pub fn context(&self) -> (context: &ReplicaContext)
        requires
            self.wf(),
        ensures
            context.wf(),
            context@ == self@,
    {
        &self.context
    }

    /// The network that the replica sends through.
    pub closed spec fn spec_network(&self) -> N {
        self.network
    }

    /// The signer that the replica signs and verifies with.
    pub closed spec fn spec_crypto(&self) -> C {
        self.crypto
    }

    /// The network that the replica sends through.
    pub fn network(&self) -> (network: &N)
        ensures
            *network == self.spec_network(),
    {
        &self.network
    }

    /// The signer that the replica signs and verifies with.
    pub fn crypto(&self) -> (crypto: &C)
        ensures
            *crypto == self.spec_crypto(),
    {
        &self.crypto
    }

    /// Number of sends that failed so far.
    pub fn send_failures(&self) -> (n: u64)
        ensures
            n == self.spec_send_failures(),
    {
        self.send_failures
    }

    /// Signs `draft` as this replica, sends it to all, and tells whether the
    /// send failed. A failed send is counted.
    ///
    /// The signer is handed the bytes that [`ConsensusMessage::signing_payload`]
    /// gives for `draft`, the network the message that
    /// [`ConsensusMessage::signed`] makes of `draft` and the signer's answer.
    /// Whether the send fails is the network's to say: [`send_failed`] and
    /// [`count_send`] say what follows from its answer.
    fn sign_and_broadcast(&mut self, draft: &ConsensusMessage) -> (send_failed: bool)
        ensures
            final(self).context == old(self).context,
            final(self).network == old(self).network,
            final(self).crypto == old(self).crypto,
            final(self).send_failures == counted(old(self).send_failures, send_failed),
    {
        let payload = draft.signing_payload();
        let signature = self.crypto.sign(payload.as_slice());
        let message = draft.signed(signature);
        let outcome = self.network.broadcast(message);
        let failed = send_failed(&outcome);
        self.send_failures = count_send(self.send_failures, failed);
        failed
    }

    /// Handles one inbound message.
    ///
    /// The signer is asked about the signature only where the message
    /// belongs to the replica's view. The replica's state then takes the
    /// message in as [`ReplicaContext::process`] says, and every vote that
    /// falls due is signed and broadcast. A send that fails is counted and
    /// answered with `NetworkError`; what the message did to the state
    /// stands all the same.
    pub fn handle_message(&mut self, message: ConsensusMessage) -> (answer: Result<
        (),
        ConsensusError,
    >)
        requires
            old(self).wf(),
        ensures
            final(self).wf(),
            exists|signature_valid: bool, send_failed: bool|
                handled(old(self)@, message@, signature_valid, send_failed, final(self)@, answer),
            answer != Err::<(), ConsensusError>(ConsensusError::NetworkError)
                ==> final(self).spec_send_failures() == old(self).spec_send_failures(),
            final(self).spec_send_failures() >= old(self).spec_send_failures(),
            final(self).spec_network() == old(self).spec_network(),
            final(self).spec_crypto() == old(self).spec_crypto(),
    {
        let signature_valid = match self.context.check_view(message.view_id()) {
            Ok(()) => {
                let payload = message.signing_payload();
                self.crypto.verify(
                    message.sender_id(),
                    payload.as_slice(),
                    message.signature().as_slice(),
                )
            },
            Err(_) => false,
        };
        let ghost before = self@;
        let out = self.context.process(message, signature_valid);
        let ghost after = self@;
        let mut send_failed = false;
        let mut i: usize = 0;
        while i < out.votes.len()
            invariant
                i <= out.votes.len(),
                self.wf(),
                self@ == after,
                !send_failed ==> self.send_failures == old(self).send_failures,
                self.send_failures >= old(self).send_failures,
                self.network == old(self).network,
                self.crypto == old(self).crypto,
                send_failed ==> out.votes.len() > 0,
            decreases out.votes.len() - i,
        {
            if self.sign_and_broadcast(&out.votes[i]) {
                send_failed = true;
            }
            i += 1;
        }
        let answer = report(out.status, send_failed);
        proof {
            assert(crate::replica::message_views(out.votes@).len() == out.votes@.len());
            assert(handled(before, message@, signature_valid, send_failed, after, answer));
        }
        answer
    }

    /// Proposes `value_digest` for `sequence_number`: signs the proposal and
    /// broadcasts it. Only the primary of the replica's view may propose.
    /// The replica's state does not change: the proposal counts once it
    /// comes in as a message.
    pub fn propose(&mut self, sequence_number: u64, value_digest: String) -> (answer: Result<
        (),
        ConsensusError,
    >)
        requires
            old(self).wf(),
        ensures
            final(self).wf(),
            final(self)@ == old(self)@,
            final(self).spec_network() == old(self).spec_network(),
            final(self).spec_crypto() == old(self).spec_crypto(),
            old(self)@.node_id != old(self)@.primary() ==> answer == Err::<(), ConsensusError>(
                ConsensusError::NotPrimary,
            ) && final(self).spec_send_failures() == old(self).spec_send_failures(),
            old(self)@.node_id == old(self)@.primary() ==> exists|send_failed: bool|
                #![trigger reported(Ok(()), send_failed)]
                answer == reported(Ok(()), send_failed) && final(self).spec_send_failures()
                    == counted(old(self).spec_send_failures(), send_failed),
    {
        match self.context.proposal(sequence_number, value_digest) {
            Err(e) => Err(e),
            Ok(draft) => {
                let send_failed = self.sign_and_broadcast(&draft);
                let answer = report(Ok(()), send_failed);
                assert(answer == reported(Ok(()), send_failed));
                answer
            },
        }
    }

    /// Moves the replica on to `new_view` and hands back the pending
    /// messages of that view, oldest first; they are to be handled like
    /// messages that arrive now.
    pub fn enter_view(&mut self, new_view: u64) -> (released: Vec<ConsensusMessage>)
        requires
            old(self).wf(),
        ensures
            final(self).wf(),
            final(self)@ == old(self)@.advance(new_view),
            crate::replica::message_views(released@) == old(self)@.released(new_view),
            final(self).spec_send_failures() == old(self).spec_send_failures(),
    {
        self.context.advance_view(new_view)
    }

    /// Hands on the decisions taken since the last call: sequence number and
    /// digest, in the order in which they were taken, each of them once.
    pub fn take_delivered(&mut self) -> (decisions: Vec<(u64, String)>)
        requires
            old(self).wf(),
        ensures
            final(self).wf(),
            crate::replica::decision_views(decisions@) == old(self)@.delivered,
            final(self)@ == (ContextView { delivered: Seq::empty(), ..old(self)@ }),
            final(self).spec_send_failures() == old(self).spec_send_failures(),
    {
        self.context.take_delivered()
    }
}

} // verus!
