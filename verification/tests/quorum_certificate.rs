use byzantine_paxos::quorum::{fault_tolerance, quorum_size, QuorumCertificate, VoteOutcome};

fn digest(text: &str) -> String {
    text.to_string()
}

#[test]
fn quorum_of_four_is_three() {
    assert_eq!(fault_tolerance(4), 1);
    assert_eq!(quorum_size(4), 3);
}

#[test]
fn quorum_sizes_follow_two_f_plus_one() {
    assert_eq!(fault_tolerance(1), 0);
    assert_eq!(quorum_size(1), 1);
    assert_eq!(fault_tolerance(3), 0);
    assert_eq!(quorum_size(3), 1);
    assert_eq!(fault_tolerance(7), 2);
    assert_eq!(quorum_size(7), 5);
    assert_eq!(fault_tolerance(10), 3);
    assert_eq!(quorum_size(10), 7);
    assert_eq!(fault_tolerance(u64::MAX), 6148914691236517204);
    assert_eq!(quorum_size(u64::MAX), 12297829382473034409);
}

#[test]
fn three_matching_votes_of_four_reach_quorum() {
    let mut qc = QuorumCertificate::new(4);
    assert_eq!(qc.record(1, digest("A")), VoteOutcome::Accepted);
    assert_eq!(qc.record(2, digest("A")), VoteOutcome::Accepted);
    assert_eq!(qc.record(3, digest("A")), VoteOutcome::Accepted);
    assert_eq!(qc.matching_count(&digest("A")), 3);
    assert!(qc.has_quorum(&digest("A")));
    assert!(!qc.quorum_conflict());
    assert_eq!(qc.quorum_digest(), Some(digest("A")));
}

#[test]
fn two_matching_votes_of_four_reach_no_quorum() {
    let mut qc = QuorumCertificate::new(4);
    assert_eq!(qc.record(1, digest("A")), VoteOutcome::Accepted);
    assert_eq!(qc.record(2, digest("A")), VoteOutcome::Accepted);
    assert_eq!(qc.matching_count(&digest("A")), 2);
    assert!(!qc.has_quorum(&digest("A")));
    assert_eq!(qc.quorum_digest(), None);
}

#[test]
fn quorum_comes_with_the_third_vote_and_not_before() {
    let mut qc = QuorumCertificate::new(4);
    assert!(!qc.has_quorum(&digest("A")));
    qc.record(1, digest("A"));
    assert!(!qc.has_quorum(&digest("A")));
    qc.record(2, digest("A"));
    assert!(!qc.has_quorum(&digest("A")));
    qc.record(3, digest("A"));
    assert!(qc.has_quorum(&digest("A")));
    qc.record(4, digest("A"));
    assert!(qc.has_quorum(&digest("A")));
}

#[test]
fn votes_for_other_digests_do_not_count() {
    let mut qc = QuorumCertificate::new(4);
    qc.record(1, digest("A"));
    qc.record(2, digest("B"));
    qc.record(3, digest("A"));
    assert_eq!(qc.matching_count(&digest("A")), 2);
    assert_eq!(qc.matching_count(&digest("B")), 1);
    assert_eq!(qc.matching_count(&digest("C")), 0);
    assert!(!qc.has_quorum(&digest("A")));
    assert_eq!(qc.len(), 3);
}

#[test]
fn same_vote_twice_is_a_duplicate_and_counts_once() {
    let mut qc = QuorumCertificate::new(4);
    assert_eq!(qc.record(1, digest("A")), VoteOutcome::Accepted);
    let before = qc.matching_count(&digest("A"));
    assert_eq!(qc.record(1, digest("A")), VoteOutcome::DuplicateIdentical);
    assert_eq!(qc.matching_count(&digest("A")), before);
    assert_eq!(qc.matching_count(&digest("A")), 1);
    assert_eq!(qc.len(), 1);
}

#[test]
fn duplicates_never_make_a_quorum() {
    let mut qc = QuorumCertificate::new(4);
    qc.record(1, digest("A"));
    qc.record(1, digest("A"));
    qc.record(1, digest("A"));
    qc.record(2, digest("A"));
    qc.record(2, digest("A"));
    assert_eq!(qc.matching_count(&digest("A")), 2);
    assert!(!qc.has_quorum(&digest("A")));
}

#[test]
fn second_differing_vote_is_equivocation_and_first_vote_stands() {
    let mut qc = QuorumCertificate::new(4);
    assert_eq!(qc.record(2, digest("A")), VoteOutcome::Accepted);
    assert_eq!(qc.record(2, digest("B")), VoteOutcome::Equivocation);
    assert_eq!(qc.matching_count(&digest("A")), 1);
    assert_eq!(qc.matching_count(&digest("B")), 0);
    assert_eq!(qc.vote_of(2), Some(&digest("A")));
}

#[test]
fn equivocation_is_reported_again_and_again() {
    let mut qc = QuorumCertificate::new(4);
    qc.record(2, digest("A"));
    assert_eq!(qc.record(2, digest("B")), VoteOutcome::Equivocation);
    assert_eq!(qc.record(2, digest("B")), VoteOutcome::Equivocation);
    assert_eq!(qc.record(2, digest("A")), VoteOutcome::DuplicateIdentical);
}

#[test]
fn vote_of_tells_what_a_sender_voted() {
    let mut qc = QuorumCertificate::new(7);
    assert_eq!(qc.vote_of(5), None);
    qc.record(5, digest("X"));
    qc.record(6, digest("Y"));
    assert_eq!(qc.vote_of(5), Some(&digest("X")));
    assert_eq!(qc.vote_of(6), Some(&digest("Y")));
    assert_eq!(qc.vote_of(0), None);
    assert_eq!(qc.cluster_size(), 7);
}

#[test]
fn two_quorums_in_a_cluster_of_six_are_a_conflict() {
    let mut qc = QuorumCertificate::new(6);
    assert_eq!(quorum_size(6), 3);
    for sender in 0..3 {
        qc.record(sender, digest("A"));
    }
    assert!(!qc.quorum_conflict());
    for sender in 3..6 {
        qc.record(sender, digest("B"));
    }
    assert!(qc.has_quorum(&digest("A")));
    assert!(qc.has_quorum(&digest("B")));
    assert!(qc.quorum_conflict());
}

#[test]
fn no_conflict_among_members_of_a_cluster_of_four() {
    let mut qc = QuorumCertificate::new(4);
    qc.record(0, digest("A"));
    qc.record(1, digest("B"));
    qc.record(2, digest("B"));
    qc.record(3, digest("B"));
    assert!(!qc.quorum_conflict());
    assert_eq!(qc.quorum_digest(), Some(digest("B")));
}
