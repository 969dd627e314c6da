//! The state machine of one sequence number in one view: from the primary's
//! proposal through a quorum of prepares to a quorum of commits.

use crate::error::ConsensusError;
use crate::message::MessageType;
use crate::quorum::{
    has_quorum, lemma_record_keeps_quorum, members, record_outcome, record_votes,
    spec_fault_tolerance, QuorumCertificate, VoteOutcome, Votes,
};
use vstd::prelude::*;

verus! {

/// The primary of a view: the replica `view_id mod cluster_size`.
pub open spec fn spec_primary(view_id: u64, cluster_size: u64) -> u64 {
    if cluster_size == 0 {
        0
    } else {
        (view_id % cluster_size) as u64
    }
}

/// The primary of a view: the replica `view_id mod cluster_size`.
pub fn primary_of(view_id: u64, cluster_size: u64) -> (primary: u64)
    requires
        cluster_size >= 1,
    ensures
        primary == spec_primary(view_id, cluster_size),
        primary < cluster_size,
{
    view_id % cluster_size
}

/// How far the agreement on one sequence number has come, with the digest
/// agreed on so far.
#[derive(Debug, PartialEq, Eq)]
pub enum Stage {
    /// No proposal of the primary has been accepted.
    Idle,
    /// The primary's proposal of this digest has been accepted.
    PrePrepared(String),
    /// A quorum has prepared this digest.
    Prepared(String),
    /// A quorum has committed this digest: the decision is final.
    Committed(String),
}

/// A [`Stage`] as plain values.
pub enum StageView {
    Idle,
    PrePrepared(Seq<char>),
    Prepared(Seq<char>),
    Committed(Seq<char>),
}

impl StageView {
    /// Number of transitions behind this stage: 0 for `Idle`, 3 for
    /// `Committed`.
    pub open spec fn rank(self) -> nat {
        match self {
            StageView::Idle => 0,
            StageView::PrePrepared(_) => 1,
            StageView::Prepared(_) => 2,
            StageView::Committed(_) => 3,
        }
    }

    /// The digest agreed on, once a proposal has been accepted.
    pub open spec fn digest(self) -> Option<Seq<char>> {
        match self {
            StageView::Idle => None,
            StageView::PrePrepared(d) => Some(d),
            StageView::Prepared(d) => Some(d),
            StageView::Committed(d) => Some(d),
        }
    }

    /// Whether this stage can come after `earlier`: it is no step back, and
    /// a digest that `earlier` had agreed on is still the digest.
    pub open spec fn follows(self, earlier: StageView) -> bool {
        &&& earlier.rank() <= self.rank()
        &&& earlier.rank() >= 1 ==> self.digest() == earlier.digest()
    }
}

impl Clone for Stage {
    fn clone(&self) -> (copy: Self)
        ensures
            copy@ == self@,
    {
        match self {
            Stage::Idle => Stage::Idle,
            Stage::PrePrepared(d) => Stage::PrePrepared(d.clone()),
            Stage::Prepared(d) => Stage::Prepared(d.clone()),
            Stage::Committed(d) => Stage::Committed(d.clone()),
        }
    }
}

impl View for Stage {
    type V = StageView;

    open spec fn view(&self) -> StageView {
        match self {
            Stage::Idle => StageView::Idle,
            Stage::PrePrepared(d) => StageView::PrePrepared(d@),
            Stage::Prepared(d) => StageView::Prepared(d@),
            Stage::Committed(d) => StageView::Committed(d@),
        }
    }
}

/// What one received vote or proposal did to a sequence number.
#[derive(Debug, Clone, Copy, PartialEq, Eq)]
pub struct Transition {
    /// What the ledger of the message's phase made of the vote.
    pub outcome: VoteOutcome,
    /// Whether the message was taken, or why it was turned down.
    pub status: Result<(), ConsensusError>,
    /// The proposal was accepted by this message: this replica owes its
    /// prepare vote.
    pub prepare_due: bool,
    /// The prepare quorum was reached by this message: this replica owes its
    /// commit vote.
    pub commit_due: bool,
    /// The commit quorum was reached by this message: the digest is decided
    /// and is owed to the application.
    pub decided: bool,
}

/// The state of one sequence number in one view, as plain values: the votes
/// received in each phase. The stage is a function of them.
pub struct SequenceView {
    pub view_id: u64,
    pub sequence_number: u64,
    pub cluster_size: u64,
    pub pre_prepares: Votes,
    pub prepares: Votes,
    pub commits: Votes,
}

impl SequenceView {
    /// The state of a sequence number of which nothing has been received.
    pub open spec fn fresh(view_id: u64, sequence_number: u64, cluster_size: u64) -> SequenceView {
        SequenceView {
            view_id,
            sequence_number,
            cluster_size,
            pre_prepares: Map::empty(),
            prepares: Map::empty(),
            commits: Map::empty(),
        }
    }

    /// The cluster is not empty and the votes are finitely many.
    pub open spec fn valid(self) -> bool {
        &&& self.cluster_size >= 1
        &&& self.pre_prepares.dom().finite()
        &&& self.prepares.dom().finite()
        &&& self.commits.dom().finite()
    }

    /// The primary of the view.
    pub open spec fn primary(self) -> u64 {
        spec_primary(self.view_id, self.cluster_size)
    }

    /// The votes received in `phase`.
    pub open spec fn votes(self, phase: MessageType) -> Votes {
        match phase {
            MessageType::PrePrepare => self.pre_prepares,
            MessageType::Prepare => self.prepares,
            MessageType::Commit => self.commits,
        }
    }

    /// The stage that the votes amount to.
    ///
    /// The digest is the one that the primary proposed first. The stage is
    /// `Prepared` once a quorum has prepared that digest, and `Committed`
    /// once, on top of that, a quorum has committed it: a commit quorum
    /// without a prepare quorum decides nothing.
    pub open spec fn stage(self) -> StageView {
        let n = self.cluster_size as nat;
        if !self.pre_prepares.dom().contains(self.primary()) {
            StageView::Idle
        } else {
            let d = self.pre_prepares[self.primary()];
            if !has_quorum(self.prepares, d, n) {
                StageView::PrePrepared(d)
            } else if !has_quorum(self.commits, d, n) {
                StageView::Prepared(d)
            } else {
                StageView::Committed(d)
            }
        }
    }

    /// The state after a message of `phase` from `sender` for `digest`: the
    /// vote is recorded in the ledger of its phase, where the first vote of
    /// a sender stands.
    pub open spec fn receive(self, phase: MessageType, sender: u64, digest: Seq<char>)
        -> SequenceView {
        match phase {
            MessageType::PrePrepare => SequenceView {
                pre_prepares: record_votes(self.pre_prepares, sender, digest),
                ..self
            },
            MessageType::Prepare => SequenceView {
                prepares: record_votes(self.prepares, sender, digest),
                ..self
            },
            MessageType::Commit => SequenceView {
                commits: record_votes(self.commits, sender, digest),
                ..self
            },
        }
    }

    /// Whether a message of `phase` from `sender` for `digest` is taken: not
    /// if the sender had voted otherwise in this phase, and not a proposal of
    /// a replica that is not the primary.
    pub open spec fn status(self, phase: MessageType, sender: u64, digest: Seq<char>) -> Result<
        (),
        ConsensusError,
    > {
        if record_outcome(self.votes(phase), sender, digest) == VoteOutcome::Equivocation {
            Err(ConsensusError::Equivocation)
        } else if phase == MessageType::PrePrepare && sender != self.primary() {
            Err(ConsensusError::WrongPrimary)
        } else {
            Ok(())
        }
    }

    /// What a message of `phase` from `sender` for `digest` does: its status,
    /// and the stages that it makes the state enter.
    pub open spec fn transition(self, phase: MessageType, sender: u64, digest: Seq<char>)
        -> Transition {
        let before = self.stage().rank();
        let after = self.receive(phase, sender, digest).stage().rank();
        Transition {
            outcome: record_outcome(self.votes(phase), sender, digest),
            status: self.status(phase, sender, digest),
            prepare_due: before < 1 <= after,
            commit_due: before < 2 <= after,
            decided: before < 3 <= after,
        }
    }

    /// The state after the messages of `deliveries`, received in order.
    pub open spec fn run(self, deliveries: Seq<(MessageType, u64, Seq<char>)>) -> SequenceView
        decreases deliveries.len(),
    {
        if deliveries.len() == 0 {
            self
        } else {
            let last = deliveries.last();
            self.run(deliveries.drop_last()).receive(last.0, last.1, last.2)
        }
    }
}

/// A message never takes the state back: the stage after it follows the
/// stage before it, with the same digest once one was agreed on.
pub proof fn lemma_receive_advances(
    s: SequenceView,
    phase: MessageType,
    sender: u64,
    digest: Seq<char>,
)
    requires
        s.valid(),
    ensures
        s.receive(phase, sender, digest).valid(),
        s.receive(phase, sender, digest).stage().follows(s.stage()),
{
    let n = s.cluster_size as nat;
    if s.pre_prepares.dom().contains(s.primary()) {
        let d = s.pre_prepares[s.primary()];
        if has_quorum(s.prepares, d, n) {
            lemma_record_keeps_quorum(s.prepares, sender, digest, d, n);
        }
        if has_quorum(s.commits, d, n) {
            lemma_record_keeps_quorum(s.commits, sender, digest, d, n);
        }
    }
}

/// A message that is turned down makes the state enter no stage.
pub proof fn lemma_rejected_message_enters_no_stage(
    s: SequenceView,
    phase: MessageType,
    sender: u64,
    digest: Seq<char>,
)
    requires
        s.status(phase, sender, digest) is Err,
    ensures
        s.receive(phase, sender, digest).stage() == s.stage(),
        !s.transition(phase, sender, digest).prepare_due,
        !s.transition(phase, sender, digest).commit_due,
        !s.transition(phase, sender, digest).decided,
{
    if s.status(phase, sender, digest) == Err::<(), ConsensusError>(ConsensusError::Equivocation) {
        assert(s.receive(phase, sender, digest) == s);
    }
}

/// The same message a second time enters no stage and owes nothing.
pub proof fn lemma_repeated_message_owes_nothing(
    s: SequenceView,
    phase: MessageType,
    sender: u64,
    digest: Seq<char>,
)
    ensures
        s.receive(phase, sender, digest).receive(phase, sender, digest) == s.receive(
            phase,
            sender,
            digest,
        ),
        !s.receive(phase, sender, digest).transition(phase, sender, digest).prepare_due,
        !s.receive(phase, sender, digest).transition(phase, sender, digest).commit_due,
        !s.receive(phase, sender, digest).transition(phase, sender, digest).decided,
{
}

/// Over any sequence of deliveries the stage only advances: the state after
/// more of them follows the state after fewer.
pub proof fn lemma_run_advances(
    s: SequenceView,
    deliveries: Seq<(MessageType, u64, Seq<char>)>,
    earlier: int,
)
    requires
        s.valid(),
        0 <= earlier <= deliveries.len(),
    ensures
        s.run(deliveries).valid(),
        s.run(deliveries).stage().follows(s.run(deliveries.take(earlier)).stage()),
    decreases deliveries.len(),
{
    if earlier == deliveries.len() {
        assert(deliveries.take(earlier) =~= deliveries);
        lemma_run_valid(s, deliveries);
    } else {
        let front = deliveries.drop_last();
        let last = deliveries.last();
        lemma_run_advances(s, front, earlier);
        assert(front.take(earlier) =~= deliveries.take(earlier));
        lemma_receive_advances(s.run(front), last.0, last.1, last.2);
    }
}

proof fn lemma_run_valid(s: SequenceView, deliveries: Seq<(MessageType, u64, Seq<char>)>)
    requires
        s.valid(),
    ensures
        s.run(deliveries).valid(),
    decreases deliveries.len(),
{
    if deliveries.len() > 0 {
        let last = deliveries.last();
        lemma_run_valid(s, deliveries.drop_last());
        lemma_receive_advances(s.run(deliveries.drop_last()), last.0, last.1, last.2);
    }
}

/// Nothing falls due twice: over any sequence of deliveries, the prepare
/// vote, the commit vote and the decision are each owed by at most one of
/// the messages.
pub proof fn lemma_owed_once(
    s: SequenceView,
    deliveries: Seq<(MessageType, u64, Seq<char>)>,
    first: int,
    second: int,
)
    requires
        s.valid(),
        0 <= first < second < deliveries.len(),
    ensures
        !(s.run(deliveries.take(first)).transition(
            deliveries[first].0,
            deliveries[first].1,
            deliveries[first].2,
        ).prepare_due && s.run(deliveries.take(second)).transition(
            deliveries[second].0,
            deliveries[second].1,
            deliveries[second].2,
        ).prepare_due),
        !(s.run(deliveries.take(first)).transition(
            deliveries[first].0,
            deliveries[first].1,
            deliveries[first].2,
        ).commit_due && s.run(deliveries.take(second)).transition(
            deliveries[second].0,
            deliveries[second].1,
            deliveries[second].2,
        ).commit_due),
        !(s.run(deliveries.take(first)).transition(
            deliveries[first].0,
            deliveries[first].1,
            deliveries[first].2,
        ).decided && s.run(deliveries.take(second)).transition(
            deliveries[second].0,
            deliveries[second].1,
            deliveries[second].2,
        ).decided),
{
    let upto = deliveries.take(second);
    let step = deliveries.take(first + 1);
    assert(upto.take(first + 1) =~= step);
    assert(step.drop_last() =~= deliveries.take(first));
    assert(step.last() == deliveries[first]);
    lemma_run_advances(s, upto, first + 1);
}

/// A decision is final on the replica that took it: once a digest is
/// committed, whatever is delivered afterwards, be it duplicates, votes for
/// other digests or equivocations, the committed digest stays the same.
pub proof fn lemma_decision_is_final(
    s: SequenceView,
    deliveries: Seq<(MessageType, u64, Seq<char>)>,
    earlier: int,
    digest: Seq<char>,
)
    requires
        s.valid(),
        0 <= earlier <= deliveries.len(),
        s.run(deliveries.take(earlier)).stage() == StageView::Committed(digest),
    ensures
        s.run(deliveries).stage() == StageView::Committed(digest),
{
    lemma_run_advances(s, deliveries, earlier);
}

/// Two replicas never decide differently on one sequence number of one view.
///
/// In a cluster of `3f + 1` replicas with at most `f` faulty ones, let `a` and
/// `b` be the states that two replicas hold for the same view and sequence
/// number, with prepare votes of members only. A sender that is not faulty
/// casts one prepare vote, so where it stands in both ledgers it stands
/// there with the same digest. Then, if both replicas have committed, they
/// have committed the same digest.
pub proof fn lemma_committed_digests_agree(
    a: SequenceView,
    b: SequenceView,
    faulty: Set<u64>,
    digest_a: Seq<char>,
    digest_b: Seq<char>,
)
    requires
        a.view_id == b.view_id,
        a.sequence_number == b.sequence_number,
        a.cluster_size == b.cluster_size,
        a.cluster_size == 3 * spec_fault_tolerance(a.cluster_size as nat) + 1,
        faulty.finite(),
        faulty.len() <= spec_fault_tolerance(a.cluster_size as nat),
        a.prepares.dom().subset_of(members(a.cluster_size)),
        b.prepares.dom().subset_of(members(b.cluster_size)),
        forall|s: u64|
            a.prepares.dom().contains(s) && b.prepares.dom().contains(s) && !faulty.contains(s)
                ==> a.prepares[s] == b.prepares[s],
        a.stage() == StageView::Committed(digest_a),
        b.stage() == StageView::Committed(digest_b),
    ensures
        digest_a == digest_b,
{
    crate::quorum::lemma_quorums_agree(
        a.cluster_size,
        faulty,
        a.prepares,
        b.prepares,
        digest_a,
        digest_b,
    );
}

/// The state of one sequence number in one view: the three ledgers of votes
/// and the stage that they amount to.
pub struct SequenceState {
    view_id: u64,
    sequence_number: u64,
    cluster_size: u64,
    stage: Stage,
    pre_prepares: QuorumCertificate,
    prepares: QuorumCertificate,
    commits: QuorumCertificate,
}

impl View for SequenceState {
    type V = SequenceView;

    closed spec fn view(&self) -> SequenceView {
        SequenceView {
            view_id: self.view_id,
            sequence_number: self.sequence_number,
            cluster_size: self.cluster_size,
            pre_prepares: self.pre_prepares@,
            prepares: self.prepares@,
            commits: self.commits@,
        }
    }
}

impl SequenceState {
    /// The state's invariant: the ledgers are well formed and belong to the
    /// same cluster, and the stage kept is the stage that the votes amount
    /// to.
    pub closed spec fn wf(&self) -> bool {
        &&& self.cluster_size >= 1
        &&& self.pre_prepares.wf()
        &&& self.prepares.wf()
        &&& self.commits.wf()
        &&& self.pre_prepares.spec_cluster_size() == self.cluster_size
        &&& self.prepares.spec_cluster_size() == self.cluster_size
        &&& self.commits.spec_cluster_size() == self.cluster_size
        &&& self.stage@ == self@.stage()
    }

    /// A well-formed state is valid as plain values.
    pub proof fn lemma_valid(&self)
        requires
            self.wf(),
        ensures
            self@.valid(),
    {
        self.pre_prepares.lemma_valid();
        self.prepares.lemma_valid();
        self.commits.lemma_valid();
    }

    /// The state of a sequence number of which nothing has been received.
    pub fn new(view_id: u64, sequence_number: u64, cluster_size: u64) -> (state: SequenceState)
        requires
            cluster_size >= 1,
        ensures
            state.wf(),
            state@ == SequenceView::fresh(view_id, sequence_number, cluster_size),
    {
        SequenceState {
            view_id,
            sequence_number,
            cluster_size,
            stage: Stage::Idle,
            pre_prepares: QuorumCertificate::new(cluster_size),
            prepares: QuorumCertificate::new(cluster_size),
            commits: QuorumCertificate::new(cluster_size),
        }
    }

    /// The view that the state belongs to.
    pub fn view_id(&self) -> (v: u64)
        ensures
            v == self@.view_id,
    {
        self.view_id
    }

    /// The sequence number that the state is about.
    pub fn sequence_number(&self) -> (n: u64)
        ensures
            n == self@.sequence_number,
    {
        self.sequence_number
    }

    /// The size of the cluster.
    pub fn cluster_size(&self) -> (n: u64)
        ensures
            n == self@.cluster_size,
    {
        self.cluster_size
    }

    /// The primary of the state's view.
    pub fn primary(&self) -> (p: u64)
        requires
            self.wf(),
        ensures
            p == self@.primary(),
    {
        primary_of(self.view_id, self.cluster_size)
    }

    /// The stage reached.
    pub fn stage(&self) -> (stage: &Stage)
        requires
            self.wf(),
        ensures
            stage@ == self@.stage(),
    {
        &self.stage
    }

    /// The digest agreed on, once a proposal has been accepted.
    pub fn agreed_digest(&self) -> (digest: Option<&String>)
        requires
            self.wf(),
        ensures
            match digest {
                Some(d) => self@.stage().digest() == Some(d@),
                None => self@.stage().digest().is_none(),
            },
    {
        match &self.stage {
            Stage::Idle => None,
            Stage::PrePrepared(d) => Some(d),
            Stage::Prepared(d) => Some(d),
            Stage::Committed(d) => Some(d),
        }
    }

    /// The ledger of the votes received in `phase`.
    pub fn certificate(&self, phase: MessageType) -> (qc: &QuorumCertificate)
        requires
            self.wf(),
        ensures
            qc.wf(),
            qc@ == self@.votes(phase),
            qc.spec_cluster_size() == self@.cluster_size,
    {
        match phase {
            MessageType::PrePrepare => &self.pre_prepares,
            MessageType::Prepare => &self.prepares,
            MessageType::Commit => &self.commits,
        }
    }

    /// Takes in a message of `phase` from `sender_id` for `digest`.
    ///
    /// The vote is recorded in the ledger of its phase. A vote that
    /// contradicts an earlier one of its sender is turned down as
    /// equivocation, a proposal of a replica other than the primary as
    /// coming from the wrong primary; neither moves the stage. Otherwise
    /// the stage advances as far as the votes now carry it, and the result
    /// says which stages were entered.
    pub fn receive(&mut self, phase: MessageType, sender_id: u64, digest: String) -> (t:
        Transition)
        requires
            old(self).wf(),
        ensures
            final(self).wf(),
            final(self)@ == old(self)@.receive(phase, sender_id, digest@),
            t == old(self)@.transition(phase, sender_id, digest@),
    {
        let ghost before = self@;
        proof {
            self.lemma_valid();
            lemma_receive_advances(before, phase, sender_id, digest@);
        }
        let outcome = match phase {
            MessageType::PrePrepare => self.pre_prepares.record(sender_id, digest),
            MessageType::Prepare => self.prepares.record(sender_id, digest),
            MessageType::Commit => self.commits.record(sender_id, digest),
        };
        assert(self@ == before.receive(phase, sender_id, digest@));
        let mut t = Transition {
            outcome,
            status: Ok(()),
            prepare_due: false,
            commit_due: false,
            decided: false,
        };
        if outcome == VoteOutcome::Equivocation {
            assert(self@ == before);
            t.status = Err(ConsensusError::Equivocation);
            return t;
        }
        let primary = primary_of(self.view_id, self.cluster_size);
        if phase == MessageType::PrePrepare && sender_id != primary {
            t.status = Err(ConsensusError::WrongPrimary);
        }
        if let Stage::Idle = &self.stage {
            if let Some(d) = self.pre_prepares.vote_of(primary) {
                let agreed = d.clone();
                self.stage = Stage::PrePrepared(agreed);
                t.prepare_due = true;
            }
        }
        if let Stage::PrePrepared(d) = &self.stage {
            if self.prepares.has_quorum(d) {
                let agreed = d.clone();
                self.stage = Stage::Prepared(agreed);
                t.commit_due = true;
            }
        }
        if let Stage::Prepared(d) = &self.stage {
            if self.commits.has_quorum(d) {
                let agreed = d.clone();
                self.stage = Stage::Committed(agreed);
                t.decided = true;
            }
        }
        t
    }
}

} // verus!
