use byzantine_paxos::error::ConsensusError;
use byzantine_paxos::message::{ConsensusMessage, MessageType};
use byzantine_paxos::replica::{ReplicaConfig, ReplicaContext, PENDING_CAPACITY};
use byzantine_paxos::sequence::Stage;

fn message(view: u64, seq: u64, phase: MessageType, digest: &str, sender: u64) -> ConsensusMessage {
    ConsensusMessage::new(view, seq, phase, digest.to_string(), sender, vec![7])
}

fn context(node_id: u64, cluster_size: u64, view: u64) -> ReplicaContext {
    ReplicaContext::new(ReplicaConfig::new(node_id, cluster_size).with_initial_view(view)).unwrap()
}

#[test]
fn empty_cluster_is_no_configuration() {
    assert!(!ReplicaConfig::new(0, 0).usable());
    assert!(ReplicaContext::new(ReplicaConfig::new(0, 0)).is_none());
    assert!(ReplicaConfig::new(0, 1).usable());
    assert!(ReplicaContext::new(ReplicaConfig::new(0, 1)).is_some());
}

#[test]
fn configuration_starts_in_view_zero_by_default() {
    let config = ReplicaConfig::new(3, 4);
    assert_eq!(config.initial_view, 0);
    let ctx = ReplicaContext::new(config).unwrap();
    assert_eq!(ctx.node_id(), 3);
    assert_eq!(ctx.view_id(), 0);
    assert_eq!(ctx.cluster_size(), 4);
    assert_eq!(ctx.primary(), 0);
    assert!(!ctx.is_primary());
    assert_eq!(context(1, 4, 5).primary(), 1);
    assert!(context(1, 4, 5).is_primary());
}

#[test]
fn view_check_sorts_views() {
    let ctx = context(1, 4, 3);
    assert_eq!(ctx.check_view(2), Err(ConsensusError::StaleView));
    assert_eq!(ctx.check_view(3), Ok(()));
    assert_eq!(ctx.check_view(4), Err(ConsensusError::FutureView));
}

#[test]
fn proposal_from_non_primary_is_wrong_primary() {
    let mut ctx = context(1, 4, 0);
    let out = ctx.process(message(0, 100, MessageType::PrePrepare, "H1", 2), true);
    assert_eq!(out.status, Err(ConsensusError::WrongPrimary));
    assert!(out.votes.is_empty());
    assert_eq!(ctx.sequence_state(0, 100).unwrap().stage(), &Stage::Idle);
}

#[test]
fn proposal_from_primary_is_accepted_and_owes_a_prepare() {
    let mut ctx = context(1, 4, 0);
    let out = ctx.process(message(0, 100, MessageType::PrePrepare, "H1", 0), true);
    assert_eq!(out.status, Ok(()));
    assert_eq!(out.votes.len(), 1);
    let expected =
        ConsensusMessage::new(0, 100, MessageType::Prepare, "H1".to_string(), 1, vec![]);
    assert_eq!(out.votes[0], expected);
    assert_eq!(
        ctx.sequence_state(0, 100).unwrap().stage(),
        &Stage::PrePrepared("H1".to_string())
    );
}

#[test]
fn wrong_primary_then_right_primary() {
    let mut ctx = context(1, 4, 0);
    let out = ctx.process(message(0, 100, MessageType::PrePrepare, "H1", 2), true);
    assert_eq!(out.status, Err(ConsensusError::WrongPrimary));
    let out = ctx.process(message(0, 100, MessageType::PrePrepare, "H1", 0), true);
    assert_eq!(out.status, Ok(()));
    assert_eq!(
        ctx.sequence_state(0, 100).unwrap().stage(),
        &Stage::PrePrepared("H1".to_string())
    );
}

#[test]
fn stale_message_is_dropped_and_counted() {
    let mut ctx = context(1, 4, 1);
    let out = ctx.process(message(1, 7, MessageType::PrePrepare, "H", 1), true);
    assert_eq!(out.status, Ok(()));
    let stage_before = ctx.sequence_state(1, 7).unwrap().stage().clone();
    let out = ctx.process(message(0, 7, MessageType::Prepare, "H", 2), true);
    assert_eq!(out.status, Err(ConsensusError::StaleView));
    assert!(out.votes.is_empty());
    assert_eq!(ctx.stale_dropped(), 1);
    assert_eq!(ctx.sequence_state(1, 7).unwrap().stage(), &stage_before);
    assert_eq!(
        ctx.sequence_state(1, 7).unwrap().certificate(MessageType::Prepare).len(),
        0
    );
    assert!(ctx.sequence_state(0, 7).is_none());
    assert!(ctx.pending().is_empty());
    assert!(ctx.delivered().is_empty());
}

#[test]
fn stale_message_after_the_view_advanced() {
    let mut ctx = context(1, 4, 0);
    assert!(ctx.advance_view(1).is_empty());
    assert_eq!(ctx.view_id(), 1);
    ctx.process(message(1, 7, MessageType::PrePrepare, "H", 1), true);
    let out = ctx.process(message(0, 7, MessageType::PrePrepare, "G", 0), true);
    assert_eq!(out.status, Err(ConsensusError::StaleView));
    assert_eq!(
        ctx.sequence_state(1, 7).unwrap().stage(),
        &Stage::PrePrepared("H".to_string())
    );
    assert!(ctx.sequence_state(0, 7).is_none());
    assert_eq!(ctx.stale_dropped(), 1);
}

#[test]
fn invalid_signature_changes_nothing() {
    let mut ctx = context(1, 4, 0);
    let out = ctx.process(message(0, 100, MessageType::PrePrepare, "H1", 0), false);
    assert_eq!(out.status, Err(ConsensusError::InvalidSignature));
    assert!(out.votes.is_empty());
    assert!(ctx.sequence_state(0, 100).is_none());
    assert_eq!(ctx.stale_dropped(), 0);
}

#[test]
fn future_message_is_kept_and_is_no_error() {
    let mut ctx = context(1, 4, 0);
    let out = ctx.process(message(2, 100, MessageType::PrePrepare, "H1", 2), false);
    assert_eq!(out.status, Ok(()));
    assert!(out.votes.is_empty());
    assert_eq!(ctx.pending().len(), 1);
    assert_eq!(ctx.pending()[0], message(2, 100, MessageType::PrePrepare, "H1", 2));
    assert!(ctx.sequence_state(2, 100).is_none());
}

#[test]
fn pending_window_drops_the_oldest() {
    let mut ctx = context(1, 4, 0);
    for seq in 0..(PENDING_CAPACITY as u64) {
        ctx.process(message(1, seq, MessageType::Prepare, "H", 2), true);
    }
    assert_eq!(ctx.pending().len(), PENDING_CAPACITY);
    assert_eq!(ctx.pending()[0].sequence_number(), 0);
    ctx.process(message(1, 1000, MessageType::Prepare, "H", 2), true);
    assert_eq!(ctx.pending().len(), PENDING_CAPACITY);
    assert_eq!(ctx.pending()[0].sequence_number(), 1);
    assert_eq!(ctx.pending()[PENDING_CAPACITY - 1].sequence_number(), 1000);
}

#[test]
fn advancing_the_view_releases_its_messages_in_order() {
    let mut ctx = context(1, 4, 0);
    ctx.process(message(1, 1, MessageType::Prepare, "A", 2), true);
    ctx.process(message(2, 2, MessageType::Prepare, "B", 2), true);
    ctx.process(message(3, 3, MessageType::Prepare, "C", 2), true);
    ctx.process(message(2, 4, MessageType::Prepare, "D", 3), true);
    let released = ctx.advance_view(2);
    assert_eq!(ctx.view_id(), 2);
    assert_eq!(
        released,
        vec![
            message(2, 2, MessageType::Prepare, "B", 2),
            message(2, 4, MessageType::Prepare, "D", 3)
        ]
    );
    assert_eq!(ctx.pending(), &vec![message(3, 3, MessageType::Prepare, "C", 2)]);
}

#[test]
fn advancing_to_an_earlier_view_changes_nothing() {
    let mut ctx = context(1, 4, 5);
    ctx.process(message(6, 1, MessageType::Prepare, "A", 2), true);
    assert!(ctx.advance_view(5).is_empty());
    assert!(ctx.advance_view(3).is_empty());
    assert_eq!(ctx.view_id(), 5);
    assert_eq!(ctx.pending().len(), 1);
}

#[test]
fn equivocating_sender_becomes_a_suspect() {
    let mut ctx = context(1, 4, 0);
    ctx.process(message(0, 10, MessageType::Prepare, "A", 2), true);
    assert!(!ctx.is_suspect(2));
    let out = ctx.process(message(0, 10, MessageType::Prepare, "B", 2), true);
    assert_eq!(out.status, Err(ConsensusError::Equivocation));
    assert!(out.votes.is_empty());
    assert!(ctx.is_suspect(2));
    assert!(!ctx.is_suspect(3));
    let qc = ctx.sequence_state(0, 10).unwrap().certificate(MessageType::Prepare);
    assert_eq!(qc.matching_count(&"A".to_string()), 1);
    assert_eq!(qc.matching_count(&"B".to_string()), 0);
}

#[test]
fn sequence_numbers_are_agreed_independently() {
    let mut ctx = context(1, 4, 0);
    ctx.process(message(0, 1, MessageType::PrePrepare, "A", 0), true);
    ctx.process(message(0, 2, MessageType::PrePrepare, "B", 0), true);
    for sender in 1..4 {
        ctx.process(message(0, 2, MessageType::Prepare, "B", sender), true);
    }
    assert_eq!(ctx.sequence_state(0, 1).unwrap().stage(), &Stage::PrePrepared("A".to_string()));
    assert_eq!(ctx.sequence_state(0, 2).unwrap().stage(), &Stage::Prepared("B".to_string()));
}

#[test]
fn decisions_are_handed_on_once_and_in_order() {
    let mut ctx = context(1, 4, 0);
    for (seq, digest) in [(5u64, "E"), (3u64, "C")] {
        ctx.process(message(0, seq, MessageType::PrePrepare, digest, 0), true);
        for sender in 1..4 {
            ctx.process(message(0, seq, MessageType::Prepare, digest, sender), true);
            ctx.process(message(0, seq, MessageType::Commit, digest, sender), true);
        }
    }
    assert_eq!(
        ctx.delivered(),
        &vec![(5u64, "E".to_string()), (3u64, "C".to_string())]
    );
    let taken = ctx.take_delivered();
    assert_eq!(taken, vec![(5u64, "E".to_string()), (3u64, "C".to_string())]);
    assert!(ctx.delivered().is_empty());
    ctx.process(message(0, 5, MessageType::Commit, "E", 0), true);
    assert!(ctx.take_delivered().is_empty());
}

#[test]
fn only_the_primary_drafts_a_proposal() {
    let primary = context(0, 4, 0);
    let draft = primary.proposal(9, "V".to_string());
    assert_eq!(
        draft,
        Ok(ConsensusMessage::new(0, 9, MessageType::PrePrepare, "V".to_string(), 0, vec![]))
    );
    let backup = context(1, 4, 0);
    assert_eq!(backup.proposal(9, "V".to_string()), Err(ConsensusError::NotPrimary));
}
