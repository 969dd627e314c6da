use byzantine_paxos::error::ConsensusError;
use byzantine_paxos::message::{ConsensusMessage, MessageType};
use byzantine_paxos::ports::{CryptoPort, NetworkError, NetworkPort};
use byzantine_paxos::replica::ReplicaConfig;
use byzantine_paxos::sequence::Stage;
use byzantine_paxos::service::{count_send, report, send_failed, ByzantineConsensusService};
use std::cell::{Cell, RefCell};

struct RecordingNetwork {
    sent: RefCell<Vec<ConsensusMessage>>,
    failing: Cell<bool>,
}

impl RecordingNetwork {
    fn new() -> Self {
        RecordingNetwork { sent: RefCell::new(Vec::new()), failing: Cell::new(false) }
    }

    fn sent(&self) -> Vec<ConsensusMessage> {
        self.sent.borrow().clone()
    }
}

impl NetworkPort for RecordingNetwork {
    fn broadcast(&self, message: ConsensusMessage) -> Result<(), NetworkError> {
        if self.failing.get() {
            return Err(NetworkError { reason: "link down".to_string() });
        }
        self.sent.borrow_mut().push(message);
        Ok(())
    }

    fn send_to(&self, _target_id: u64, message: ConsensusMessage) -> Result<(), NetworkError> {
        self.broadcast(message)
    }
}

/// Signs with the length of the payload and the signer's identity.
struct ToyCrypto {
    node_id: u64,
    asked: Cell<u64>,
}

impl ToyCrypto {
    fn new(node_id: u64) -> Self {
        ToyCrypto { node_id, asked: Cell::new(0) }
    }

    fn signature_of(sender_id: u64, data: &[u8]) -> Vec<u8> {
        vec![sender_id as u8, data.len() as u8, 0xAA]
    }
}

impl CryptoPort for ToyCrypto {
    fn sign(&self, data: &[u8]) -> Vec<u8> {
        ToyCrypto::signature_of(self.node_id, data)
    }

    fn verify(&self, sender_id: u64, data: &[u8], signature: &[u8]) -> bool {
        self.asked.set(self.asked.get() + 1);
        signature == ToyCrypto::signature_of(sender_id, data).as_slice()
    }
}

type Service = ByzantineConsensusService<RecordingNetwork, ToyCrypto>;

fn service(node_id: u64, cluster_size: u64, view: u64) -> Service {
    ByzantineConsensusService::new(
        ReplicaConfig::new(node_id, cluster_size).with_initial_view(view),
        RecordingNetwork::new(),
        ToyCrypto::new(node_id),
    )
    .unwrap()
}

fn signed(view: u64, seq: u64, phase: MessageType, digest: &str, sender: u64) -> ConsensusMessage {
    let draft = ConsensusMessage::new(view, seq, phase, digest.to_string(), sender, vec![]);
    let signature = ToyCrypto::signature_of(sender, &draft.signing_payload());
    draft.signed(signature)
}

fn stage(service: &Service, view: u64, seq: u64) -> Stage {
    service.context().sequence_state(view, seq).unwrap().stage().clone()
}

#[test]
fn empty_cluster_gives_no_service() {
    let made = ByzantineConsensusService::new(
        ReplicaConfig::new(0, 0),
        RecordingNetwork::new(),
        ToyCrypto::new(0),
    );
    assert!(made.is_none());
}

#[test]
fn end_to_end_scenario() {
    let mut node = service(1, 4, 0);

    assert_eq!(node.handle_message(signed(0, 100, MessageType::PrePrepare, "H1", 0)), Ok(()));
    assert_eq!(stage(&node, 0, 100), Stage::PrePrepared("H1".to_string()));
    let sent = node.network().sent();
    assert_eq!(sent.len(), 1);
    assert_eq!(sent[0], signed(0, 100, MessageType::Prepare, "H1", 1));

    assert_eq!(node.handle_message(signed(0, 100, MessageType::Prepare, "H1", 1)), Ok(()));
    assert_eq!(node.handle_message(signed(0, 100, MessageType::Prepare, "H1", 2)), Ok(()));
    assert_eq!(stage(&node, 0, 100), Stage::PrePrepared("H1".to_string()));
    assert_eq!(node.network().sent().len(), 1);
    assert_eq!(node.handle_message(signed(0, 100, MessageType::Prepare, "H1", 3)), Ok(()));
    assert_eq!(stage(&node, 0, 100), Stage::Prepared("H1".to_string()));
    let sent = node.network().sent();
    assert_eq!(sent.len(), 2);
    assert_eq!(sent[1], signed(0, 100, MessageType::Commit, "H1", 1));

    assert_eq!(node.handle_message(signed(0, 100, MessageType::Commit, "H1", 1)), Ok(()));
    assert_eq!(node.handle_message(signed(0, 100, MessageType::Commit, "H1", 2)), Ok(()));
    assert_eq!(stage(&node, 0, 100), Stage::Prepared("H1".to_string()));
    assert!(node.context().delivered().is_empty());
    assert_eq!(node.handle_message(signed(0, 100, MessageType::Commit, "H1", 3)), Ok(()));
    assert_eq!(stage(&node, 0, 100), Stage::Committed("H1".to_string()));
    assert_eq!(node.context().delivered(), &vec![(100u64, "H1".to_string())]);

    assert_eq!(node.handle_message(signed(0, 100, MessageType::Commit, "H1", 3)), Ok(()));
    assert_eq!(node.handle_message(signed(0, 100, MessageType::Commit, "H1", 0)), Ok(()));
    assert_eq!(node.take_delivered(), vec![(100u64, "H1".to_string())]);
    assert!(node.take_delivered().is_empty());
    assert_eq!(node.network().sent().len(), 2);
    assert_eq!(node.send_failures(), 0);
}

#[test]
fn primary_enforcement() {
    let mut node = service(1, 4, 0);
    assert_eq!(
        node.handle_message(signed(0, 100, MessageType::PrePrepare, "H1", 2)),
        Err(ConsensusError::WrongPrimary)
    );
    assert_eq!(stage(&node, 0, 100), Stage::Idle);
    assert!(node.network().sent().is_empty());
    assert_eq!(node.handle_message(signed(0, 100, MessageType::PrePrepare, "H1", 0)), Ok(()));
    assert_eq!(stage(&node, 0, 100), Stage::PrePrepared("H1".to_string()));
}

#[test]
fn bad_signature_is_dropped() {
    let mut node = service(1, 4, 0);
    let forged =
        ConsensusMessage::new(0, 100, MessageType::PrePrepare, "H1".to_string(), 0, vec![0, 0, 0]);
    assert_eq!(node.handle_message(forged), Err(ConsensusError::InvalidSignature));
    assert!(node.context().sequence_state(0, 100).is_none());
    assert!(node.network().sent().is_empty());
}

#[test]
fn signature_of_another_sender_does_not_pass() {
    let mut node = service(1, 4, 0);
    let stolen = signed(0, 100, MessageType::Prepare, "H1", 2);
    let replayed = ConsensusMessage::new(
        0,
        100,
        MessageType::Prepare,
        "H1".to_string(),
        3,
        stolen.signature().clone(),
    );
    assert_eq!(node.handle_message(replayed), Err(ConsensusError::InvalidSignature));
}

#[test]
fn stale_message_is_rejected_without_asking_the_signer() {
    let mut node = service(1, 4, 1);
    assert_eq!(node.handle_message(signed(1, 7, MessageType::PrePrepare, "H", 1)), Ok(()));
    let asked = node.crypto().asked.get();
    assert_eq!(
        node.handle_message(signed(0, 7, MessageType::PrePrepare, "G", 0)),
        Err(ConsensusError::StaleView)
    );
    assert_eq!(node.crypto().asked.get(), asked);
    assert_eq!(stage(&node, 1, 7), Stage::PrePrepared("H".to_string()));
    assert!(node.context().sequence_state(0, 7).is_none());
    assert_eq!(node.context().stale_dropped(), 1);
}

#[test]
fn future_message_waits_for_its_view() {
    let mut node = service(1, 4, 0);
    assert_eq!(node.handle_message(signed(1, 7, MessageType::PrePrepare, "H", 1)), Ok(()));
    assert!(node.context().sequence_state(1, 7).is_none());
    assert_eq!(node.context().pending().len(), 1);
    let released = node.enter_view(1);
    assert_eq!(released, vec![signed(1, 7, MessageType::PrePrepare, "H", 1)]);
    for message in released {
        assert_eq!(node.handle_message(message), Ok(()));
    }
    assert_eq!(stage(&node, 1, 7), Stage::PrePrepared("H".to_string()));
    assert_eq!(node.network().sent(), vec![signed(1, 7, MessageType::Prepare, "H", 1)]);
}

#[test]
fn equivocation_is_reported_and_has_no_effect() {
    let mut node = service(1, 4, 0);
    assert_eq!(node.handle_message(signed(0, 10, MessageType::Prepare, "A", 2)), Ok(()));
    assert_eq!(
        node.handle_message(signed(0, 10, MessageType::Prepare, "B", 2)),
        Err(ConsensusError::Equivocation)
    );
    assert!(node.context().is_suspect(2));
    let state = node.context().sequence_state(0, 10).unwrap();
    assert_eq!(state.certificate(MessageType::Prepare).matching_count(&"A".to_string()), 1);
    assert_eq!(state.certificate(MessageType::Prepare).matching_count(&"B".to_string()), 0);
}

#[test]
fn failed_send_is_reported_and_the_transition_stands() {
    let mut node = service(1, 4, 0);
    node.network().failing.set(true);
    assert_eq!(
        node.handle_message(signed(0, 100, MessageType::PrePrepare, "H1", 0)),
        Err(ConsensusError::NetworkError)
    );
    assert_eq!(stage(&node, 0, 100), Stage::PrePrepared("H1".to_string()));
    assert_eq!(node.send_failures(), 1);
    node.network().failing.set(false);
    assert_eq!(node.handle_message(signed(0, 100, MessageType::PrePrepare, "H1", 0)), Ok(()));
    assert!(node.network().sent().is_empty());
}

#[test]
fn propose_is_for_the_primary_only() {
    let mut backup = service(1, 4, 0);
    assert_eq!(backup.propose(5, "V".to_string()), Err(ConsensusError::NotPrimary));
    assert!(backup.network().sent().is_empty());

    let mut primary = service(0, 4, 0);
    assert_eq!(primary.propose(5, "V".to_string()), Ok(()));
    assert_eq!(primary.network().sent(), vec![signed(0, 5, MessageType::PrePrepare, "V", 0)]);
    assert!(primary.context().sequence_state(0, 5).is_none());

    primary.network().failing.set(true);
    assert_eq!(primary.propose(6, "W".to_string()), Err(ConsensusError::NetworkError));
    assert_eq!(primary.send_failures(), 1);
}

#[test]
fn proposal_is_accepted_by_the_others() {
    let mut primary = service(0, 4, 0);
    let mut backup = service(2, 4, 0);
    primary.propose(5, "V".to_string()).unwrap();
    let proposal = primary.network().sent().remove(0);
    assert_eq!(backup.handle_message(proposal), Ok(()));
    assert_eq!(stage(&backup, 0, 5), Stage::PrePrepared("V".to_string()));
}

#[test]
fn four_replicas_agree() {
    let mut nodes: Vec<Service> = (0..4).map(|id| service(id, 4, 0)).collect();
    nodes[0].propose(1, "V".to_string()).unwrap();
    let mut delivered_to = vec![0usize; 4];
    for _round in 0..4 {
        for from in 0..4 {
            while delivered_to[from] < nodes[from].network().sent().len() {
                let message = nodes[from].network().sent()[delivered_to[from]].clone();
                delivered_to[from] += 1;
                for to in 0..4 {
                    assert_eq!(nodes[to].handle_message(message.clone()), Ok(()));
                }
            }
        }
    }
    for node in nodes.iter_mut() {
        assert_eq!(stage(node, 0, 1), Stage::Committed("V".to_string()));
        assert_eq!(node.take_delivered(), vec![(1u64, "V".to_string())]);
    }
}

#[test]
fn report_prefers_the_answer_of_the_state() {
    assert_eq!(report(Ok(()), false), Ok(()));
    assert_eq!(report(Ok(()), true), Err(ConsensusError::NetworkError));
    assert_eq!(
        report(Err(ConsensusError::WrongPrimary), true),
        Err(ConsensusError::WrongPrimary)
    );
    assert_eq!(report(Err(ConsensusError::StaleView), false), Err(ConsensusError::StaleView));
}

#[test]
fn errors_tell_whether_they_are_evidence() {
    assert!(ConsensusError::InvalidSignature.fault_reportable());
    assert!(ConsensusError::WrongPrimary.fault_reportable());
    assert!(ConsensusError::Equivocation.fault_reportable());
    assert!(!ConsensusError::StaleView.fault_reportable());
    assert!(!ConsensusError::FutureView.fault_reportable());
    assert!(!ConsensusError::NotPrimary.fault_reportable());
    assert!(!ConsensusError::NetworkError.fault_reportable());
}

#[test]
fn send_failed_reads_the_answer_of_the_network() {
    assert!(!send_failed(&Ok(())));
    assert!(send_failed(&Err(NetworkError { reason: "link down".to_string() })));
}

#[test]
fn count_send_counts_failures_and_stops_at_the_largest_number() {
    assert_eq!(count_send(0, false), 0);
    assert_eq!(count_send(0, true), 1);
    assert_eq!(count_send(41, true), 42);
    assert_eq!(count_send(41, false), 41);
    assert_eq!(count_send(u64::MAX, true), u64::MAX);
}
