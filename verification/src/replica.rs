//! The replica's own state and the rules by which an inbound message changes
//! it: which messages are dropped, which are kept for later, which are
//! recorded, and which votes of its own the replica owes afterwards.

use crate::error::ConsensusError;
use crate::message::{ConsensusMessage, MessageType, MessageView};
use crate::sequence::{
    lemma_receive_advances, primary_of, spec_primary, SequenceState, SequenceView,
};
use vstd::prelude::*;

verus! {

/// Number of messages of later views that a replica keeps for the time when
/// it reaches their view. When one more arrives, the oldest is dropped.
pub const PENDING_CAPACITY: usize = 32;

/// What a replica is set up with.
#[derive(Debug, Clone, Copy, PartialEq, Eq, Structural)]
pub struct ReplicaConfig {
    /// The identity of this replica.
    pub node_id: u64,
    /// Number of replicas in the cluster.
    pub cluster_size: u64,
    /// The view that the replica starts in.
    pub initial_view: u64,
}

impl ReplicaConfig {
    /// The configuration of replica `node_id` in a cluster of `cluster_size`,
    /// starting in view 0.
    pub fn new(node_id: u64, cluster_size: u64) -> (config: ReplicaConfig)
        ensures
            config == (ReplicaConfig { node_id, cluster_size, initial_view: 0 }),
    {
        ReplicaConfig { node_id, cluster_size, initial_view: 0 }
    }

    /// The same configuration, starting in `view_id`.
    pub fn with_initial_view(self, view_id: u64) -> (config: ReplicaConfig)
        ensures
            config == (ReplicaConfig { initial_view: view_id, ..self }),
    {
        ReplicaConfig {
            node_id: self.node_id,
            cluster_size: self.cluster_size,
            initial_view: view_id,
        }
    }

    /// Whether a replica can be set up with this: the cluster must have at
    /// least one replica.
    pub open spec fn spec_usable(self) -> bool {
        self.cluster_size >= 1
    }

    /// Whether a replica can be set up with this.
    pub fn usable(&self) -> (ok: bool)
        ensures
            ok == self.spec_usable(),
    {
        self.cluster_size >= 1
    }
}

/// The messages of a sequence, as plain values.
pub open spec fn message_views(messages: Seq<ConsensusMessage>) -> Seq<MessageView> {
    messages.map_values(|m: ConsensusMessage| m@)
}

/// The decisions of a sequence, as plain values.
pub open spec fn decision_views(decisions: Seq<(u64, String)>) -> Seq<(u64, Seq<char>)> {
    decisions.map_values(|d: (u64, String)| (d.0, d.1@))
}

/// The pending messages after `m` has joined them: behind the others, and in
/// place of the oldest where the window was full.
pub open spec fn buffered(pending: Seq<MessageView>, m: MessageView) -> Seq<MessageView> {
    if pending.len() < PENDING_CAPACITY {
        pending.push(m)
    } else {
        pending.drop_first().push(m)
    }
}

/// The state of a replica, as plain values.
pub struct ContextView {
    /// The identity of this replica.
    pub node_id: u64,
    /// The view that the replica is in.
    pub view_id: u64,
    /// Number of replicas in the cluster.
    pub cluster_size: u64,
    /// The state of every sequence number that a message has referred to,
    /// by view and sequence number.
    pub sequences: Map<(u64, u64), SequenceView>,
    /// Messages of later views, oldest first.
    pub pending: Seq<MessageView>,
    /// The decisions not yet handed to the application, in the order in
    /// which they were taken: sequence number and digest.
    pub delivered: Seq<(u64, Seq<char>)>,
    /// The senders that were caught voting for two digests.
    pub suspects: Set<u64>,
    /// Number of messages of earlier views that were dropped.
    pub stale_dropped: u64,
}

impl ContextView {
    /// The state that a replica starts in.
    pub open spec fn initial(config: ReplicaConfig) -> ContextView {
        ContextView {
            node_id: config.node_id,
            view_id: config.initial_view,
            cluster_size: config.cluster_size,
            sequences: Map::empty(),
            pending: Seq::empty(),
            delivered: Seq::empty(),
            suspects: Set::empty(),
            stale_dropped: 0,
        }
    }

    /// The state is one that a replica can be in.
    pub open spec fn valid(self) -> bool {
        &&& self.cluster_size >= 1
        &&& self.pending.len() <= PENDING_CAPACITY
        &&& forall|i: int| 0 <= i < self.pending.len() ==> self.pending[i].view_id > self.view_id
        &&& forall|key: (u64, u64)| #[trigger]
            self.sequences.dom().contains(key) ==> {
                &&& self.sequences[key].valid()
                &&& self.sequences[key].view_id == key.0
                &&& self.sequences[key].sequence_number == key.1
                &&& self.sequences[key].cluster_size == self.cluster_size
            }
    }

    /// The primary of the replica's view.
    pub open spec fn primary(self) -> u64 {
        spec_primary(self.view_id, self.cluster_size)
    }

    /// The state of a sequence number in a view: what was received for it,
    /// or nothing.
    pub open spec fn sequence(self, view_id: u64, sequence_number: u64) -> SequenceView {
        if self.sequences.dom().contains((view_id, sequence_number)) {
            self.sequences[(view_id, sequence_number)]
        } else {
            SequenceView::fresh(view_id, sequence_number, self.cluster_size)
        }
    }

    /// Whether the view of a message lets it be processed now.
    pub open spec fn view_check(self, view_id: u64) -> Result<(), ConsensusError> {
        if view_id < self.view_id {
            Err(ConsensusError::StaleView)
        } else if view_id > self.view_id {
            Err(ConsensusError::FutureView)
        } else {
            Ok(())
        }
    }

    /// A vote of this replica in its view, not yet signed.
    pub open spec fn own_message(
        self,
        sequence_number: u64,
        phase: MessageType,
        digest: Seq<char>,
    ) -> MessageView {
        MessageView {
            view_id: self.view_id,
            sequence_number,
            msg_type: phase,
            digest,
            sender_id: self.node_id,
            signature: Seq::empty(),
        }
    }

    /// Whether `m` reaches the state of its sequence number: it belongs to
    /// the replica's view and its signature is valid.
    pub open spec fn applies(self, m: MessageView, signature_valid: bool) -> bool {
        m.view_id == self.view_id && signature_valid
    }

    /// What the message `m` is answered with.
    ///
    /// A message of an earlier view is stale. One of a later view is kept
    /// and is no error. In the replica's view, a message must have a valid
    /// signature, and is then answered as the state of its sequence number
    /// answers it.
    pub open spec fn step_status(self, m: MessageView, signature_valid: bool) -> Result<
        (),
        ConsensusError,
    > {
        if m.view_id < self.view_id {
            Err(ConsensusError::StaleView)
        } else if m.view_id > self.view_id {
            Ok(())
        } else if !signature_valid {
            Err(ConsensusError::InvalidSignature)
        } else {
            self.sequence(m.view_id, m.sequence_number).status(m.msg_type, m.sender_id, m.digest)
        }
    }

    /// The state after the message `m`.
    ///
    /// A stale message is counted and changes nothing else. A message of a
    /// later view joins the pending ones. A message with an invalid
    /// signature changes nothing. Any other is recorded in the state of its
    /// sequence number; a decision that it brings about joins the decisions,
    /// and a sender that it shows to equivocate joins the suspects.
    pub open spec fn step(self, m: MessageView, signature_valid: bool) -> ContextView {
        if m.view_id < self.view_id {
            ContextView {
                stale_dropped: if self.stale_dropped < u64::MAX {
                    (self.stale_dropped + 1) as u64
                } else {
                    self.stale_dropped
                },
                ..self
            }
        } else if m.view_id > self.view_id {
            ContextView { pending: buffered(self.pending, m), ..self }
        } else if !signature_valid {
            self
        } else {
            let before = self.sequence(m.view_id, m.sequence_number);
            let after = before.receive(m.msg_type, m.sender_id, m.digest);
            let t = before.transition(m.msg_type, m.sender_id, m.digest);
            ContextView {
                sequences: self.sequences.insert((m.view_id, m.sequence_number), after),
                delivered: if t.decided {
                    self.delivered.push((m.sequence_number, after.stage().digest().unwrap()))
                } else {
                    self.delivered
                },
                suspects: if t.status == Err::<(), ConsensusError>(ConsensusError::Equivocation) {
                    self.suspects.insert(m.sender_id)
                } else {
                    self.suspects
                },
                ..self
            }
        }
    }

    /// The votes that the replica owes after the message `m`, not yet
    /// signed: its prepare vote where `m` made it accept the proposal, then
    /// its commit vote where `m` completed the prepare quorum, both for the
    /// digest agreed on.
    pub open spec fn step_votes(self, m: MessageView, signature_valid: bool) -> Seq<MessageView> {
        if !self.applies(m, signature_valid) {
            Seq::empty()
        } else {
            let before = self.sequence(m.view_id, m.sequence_number);
            let after = before.receive(m.msg_type, m.sender_id, m.digest);
            let t = before.transition(m.msg_type, m.sender_id, m.digest);
            let digest = after.stage().digest().unwrap();
            let prepare = if t.prepare_due {
                seq![self.own_message(m.sequence_number, MessageType::Prepare, digest)]
            } else {
                Seq::empty()
            };
            let commit = if t.commit_due {
                seq![self.own_message(m.sequence_number, MessageType::Commit, digest)]
            } else {
                Seq::empty()
            };
            prepare + commit
        }
    }

    /// The state after the messages of `deliveries`, handled in order, each
    /// with what the signer found of its signature.
    pub open spec fn run(self, deliveries: Seq<(MessageView, bool)>) -> ContextView
        decreases deliveries.len(),
    {
        if deliveries.len() == 0 {
            self
        } else {
            self.run(deliveries.drop_last()).step(deliveries.last().0, deliveries.last().1)
        }
    }

    /// The state after the replica has moved on to `new_view`: a view that
    /// is not later than its own changes nothing; otherwise the pending
    /// messages of later views stay, and the others leave.
    pub open spec fn advance(self, new_view: u64) -> ContextView {
        if new_view <= self.view_id {
            self
        } else {
            ContextView {
                view_id: new_view,
                pending: self.pending.filter(|m: MessageView| m.view_id > new_view),
                ..self
            }
        }
    }

    /// The pending messages that the move to `new_view` releases: those of
    /// that very view, oldest first.
    pub open spec fn released(self, new_view: u64) -> Seq<MessageView> {
        if new_view <= self.view_id {
            Seq::empty()
        } else {
            self.pending.filter(|m: MessageView| m.view_id == new_view)
        }
    }
}

/// Whatever the message, the state stays one that a replica can be in.
pub proof fn lemma_step_keeps_valid(c: ContextView, m: MessageView, signature_valid: bool)
    requires
        c.valid(),
    ensures
        c.step(m, signature_valid).valid(),
{
    if c.applies(m, signature_valid) {
        let before = c.sequence(m.view_id, m.sequence_number);
        lemma_receive_advances(before, m.msg_type, m.sender_id, m.digest);
    } else if m.view_id > c.view_id {
        let after = c.step(m, signature_valid);
        assert forall|i: int| 0 <= i < after.pending.len() implies after.pending[i].view_id
            > after.view_id by {
            if c.pending.len() < PENDING_CAPACITY {
                if i < c.pending.len() {
                    assert(after.pending[i] == c.pending[i]);
                }
            } else {
                if i < c.pending.len() - 1 {
                    assert(after.pending[i] == c.pending[i + 1]);
                }
            }
        }
    }
}

/// A message of an earlier view is dropped: it is answered as stale, owes no
/// vote, and alters neither the state of any sequence number nor the
/// decisions, the pending messages or the suspects.
pub proof fn lemma_stale_message_is_dropped(c: ContextView, m: MessageView, signature_valid: bool)
    requires
        m.view_id < c.view_id,
    ensures
        c.step_status(m, signature_valid) == Err::<(), ConsensusError>(ConsensusError::StaleView),
        c.step_votes(m, signature_valid) == Seq::<MessageView>::empty(),
        c.step(m, signature_valid).sequences == c.sequences,
        c.step(m, signature_valid).delivered == c.delivered,
        c.step(m, signature_valid).pending == c.pending,
        c.step(m, signature_valid).suspects == c.suspects,
        c.step(m, signature_valid).view_id == c.view_id,
{
}

/// A message that is turned down corrupts nothing: no sequence number
/// changes its stage, nothing is decided and no vote is owed.
pub proof fn lemma_rejected_message_is_harmless(
    c: ContextView,
    m: MessageView,
    signature_valid: bool,
    view_id: u64,
    sequence_number: u64,
)
    requires
        c.step_status(m, signature_valid) is Err,
    ensures
        c.step(m, signature_valid).sequence(view_id, sequence_number).stage() == c.sequence(
            view_id,
            sequence_number,
        ).stage(),
        c.step(m, signature_valid).delivered == c.delivered,
        c.step_votes(m, signature_valid) == Seq::<MessageView>::empty(),
{
    if c.applies(m, signature_valid) {
        let before = c.sequence(m.view_id, m.sequence_number);
        crate::sequence::lemma_rejected_message_enters_no_stage(
            before,
            m.msg_type,
            m.sender_id,
            m.digest,
        );
        assert(c.step_votes(m, signature_valid) =~= Seq::<MessageView>::empty());
    }
}

/// No message takes any sequence number back: its stage after the message
/// follows its stage before, so a committed digest stays committed.
pub proof fn lemma_step_advances(
    c: ContextView,
    m: MessageView,
    signature_valid: bool,
    view_id: u64,
    sequence_number: u64,
)
    requires
        c.valid(),
    ensures
        c.step(m, signature_valid).sequence(view_id, sequence_number).stage().follows(
            c.sequence(view_id, sequence_number).stage(),
        ),
{
    if c.applies(m, signature_valid) {
        let before = c.sequence(m.view_id, m.sequence_number);
        lemma_receive_advances(before, m.msg_type, m.sender_id, m.digest);
    }
}

/// Over any sequence of messages, valid or not, stale or not, duplicated or
/// contradicting each other, every sequence number only advances: its stage
/// after more of them follows its stage after fewer. So a digest, once
/// committed for a view and sequence number, is the only one ever committed
/// for them on this replica.
pub proof fn lemma_run_advances(
    c: ContextView,
    deliveries: Seq<(MessageView, bool)>,
    earlier: int,
    view_id: u64,
    sequence_number: u64,
)
    requires
        c.valid(),
        0 <= earlier <= deliveries.len(),
    ensures
        c.run(deliveries).valid(),
        c.run(deliveries).sequence(view_id, sequence_number).stage().follows(
            c.run(deliveries.take(earlier)).sequence(view_id, sequence_number).stage(),
        ),
    decreases deliveries.len(),
{
    if deliveries.len() == 0 {
        assert(deliveries.take(earlier) =~= deliveries);
    } else {
        let front = deliveries.drop_last();
        let last = deliveries.last();
        if earlier == deliveries.len() {
            assert(deliveries.take(earlier) =~= deliveries);
            lemma_run_advances(c, front, 0, view_id, sequence_number);
            lemma_step_keeps_valid(c.run(front), last.0, last.1);
        } else {
            lemma_run_advances(c, front, earlier, view_id, sequence_number);
            assert(front.take(earlier) =~= deliveries.take(earlier));
            lemma_step_keeps_valid(c.run(front), last.0, last.1);
            lemma_step_advances(c.run(front), last.0, last.1, view_id, sequence_number);
        }
    }
}

/// What handling one message gave: the answer, and the votes that the
/// replica now owes, still to be signed and sent.
pub struct StepResult {
    /// Whether the message was taken, or why it was not.
    pub status: Result<(), ConsensusError>,
    /// The replica's own votes that the message made due, unsigned.
    pub votes: Vec<ConsensusMessage>,
}

spec fn key_of(state: SequenceState) -> (u64, u64) {
    (state@.view_id, state@.sequence_number)
}

spec fn holds(states: Seq<SequenceState>, i: int, key: (u64, u64)) -> bool {
    0 <= i < states.len() && key_of(states[i]) == key
}

spec fn distinct_keys(states: Seq<SequenceState>) -> bool {
    forall|i: int, j: int| 0 <= i < j < states.len() ==> key_of(states[i]) != key_of(states[j])
}

spec fn table_view(states: Seq<SequenceState>) -> Map<(u64, u64), SequenceView> {
    Map::new(
        |key: (u64, u64)| exists|i: int| holds(states, i, key),
        |key: (u64, u64)| states[choose|i: int| holds(states, i, key)]@,
    )
}

proof fn lemma_table_at(states: Seq<SequenceState>, i: int)
    requires
        distinct_keys(states),
        0 <= i < states.len(),
    ensures
        table_view(states).dom().contains(key_of(states[i])),
        table_view(states)[key_of(states[i])] == states[i]@,
{
    let key = key_of(states[i]);
    assert(holds(states, i, key));
    let j = choose|j: int| holds(states, j, key);
    assert(j == i);
}

proof fn lemma_table_push(states: Seq<SequenceState>, state: SequenceState)
    requires
        distinct_keys(states),
        !table_view(states).dom().contains(key_of(state)),
    ensures
        distinct_keys(states.push(state)),
        table_view(states.push(state)) == table_view(states).insert(key_of(state), state@),
{
    let grown = states.push(state);
    assert forall|i: int, j: int| 0 <= i < j < grown.len() implies key_of(grown[i]) != key_of(
        grown[j],
    ) by {
        if j == states.len() {
            assert(holds(states, i, key_of(states[i])));
        }
    }
    assert forall|key: (u64, u64)|
        table_view(grown).dom().contains(key) <==> table_view(states).insert(
            key_of(state),
            state@,
        ).dom().contains(key) by {
        if table_view(grown).dom().contains(key) {
            let i = choose|i: int| holds(grown, i, key);
            if i < states.len() {
                assert(holds(states, i, key));
            }
        }
        if table_view(states).dom().contains(key) {
            let i = choose|i: int| holds(states, i, key);
            assert(holds(grown, i, key));
        }
        if key == key_of(state) {
            assert(holds(grown, states.len() as int, key));
        }
    }
    assert forall|key: (u64, u64)| table_view(grown).dom().contains(key) implies table_view(
        grown,
    )[key] == table_view(states).insert(key_of(state), state@)[key] by {
        let i = choose|i: int| holds(grown, i, key);
        lemma_table_at(grown, i);
        if i < states.len() {
            lemma_table_at(states, i);
        }
    }
    assert(table_view(grown) =~= table_view(states).insert(key_of(state), state@));
}

proof fn lemma_table_update(states: Seq<SequenceState>, i: int, state: SequenceState)
    requires
        distinct_keys(states),
        0 <= i < states.len(),
        key_of(state) == key_of(states[i]),
    ensures
        distinct_keys(states.update(i, state)),
        table_view(states.update(i, state)) == table_view(states).insert(key_of(state), state@),
{
    let changed = states.update(i, state);
    assert(forall|j: int| 0 <= j < states.len() ==> key_of(changed[j]) == key_of(states[j]));
    assert forall|key: (u64, u64)|
        table_view(changed).dom().contains(key) <==> table_view(states).insert(
            key_of(state),
            state@,
        ).dom().contains(key) by {
        if table_view(changed).dom().contains(key) {
            let j = choose|j: int| holds(changed, j, key);
            assert(holds(states, j, key));
        }
        if table_view(states).dom().contains(key) {
            let j = choose|j: int| holds(states, j, key);
            assert(holds(changed, j, key));
        }
        if key == key_of(state) {
            assert(holds(changed, i, key));
        }
    }
    assert forall|key: (u64, u64)| table_view(changed).dom().contains(key) implies table_view(
        changed,
    )[key] == table_view(states).insert(key_of(state), state@)[key] by {
        let j = choose|j: int| holds(changed, j, key);
        lemma_table_at(changed, j);
        if j != i {
            assert(holds(states, j, key));
            lemma_table_at(states, j);
        }
    }
    assert(table_view(changed) =~= table_view(states).insert(key_of(state), state@));
}

/// The state of one replica: its place in the cluster, the state of every
/// sequence number it has heard of, the messages it keeps for later views
/// and the decisions it has taken.
pub struct ReplicaContext {
    node_id: u64,
    view_id: u64,
    cluster_size: u64,
    table: Vec<SequenceState>,
    pending: Vec<ConsensusMessage>,
    delivered: Vec<(u64, String)>,
    suspects: Vec<u64>,
    stale_dropped: u64,
}

impl View for ReplicaContext {
    type V = ContextView;

    closed spec fn view(&self) -> ContextView {
        ContextView {
            node_id: self.node_id,
            view_id: self.view_id,
            cluster_size: self.cluster_size,
            sequences: table_view(self.table@),
            pending: message_views(self.pending@),
            delivered: decision_views(self.delivered@),
            suspects: self.suspects@.to_set(),
            stale_dropped: self.stale_dropped,
        }
    }
}

impl ReplicaContext {
    /// The context's invariant: every sequence number has one state, each
    /// state is well formed and belongs to this cluster, and the pending
    /// messages are within their window and of later views.
    pub closed spec fn wf(&self) -> bool {
        &&& self.cluster_size >= 1
        &&& distinct_keys(self.table@)
        &&& forall|i: int|
            0 <= i < self.table@.len() ==> (#[trigger] self.table@[i]).wf()
                && self.table@[i]@.cluster_size == self.cluster_size
        &&& self.pending@.len() <= PENDING_CAPACITY
        &&& forall|i: int|
            0 <= i < self.pending@.len() ==> (#[trigger] self.pending@[i])@.view_id > self.view_id
    }

    /// A well-formed context is valid as plain values.
    pub proof fn lemma_valid(&self)
        requires
            self.wf(),
        ensures
            self@.valid(),
    {
        assert forall|key: (u64, u64)| #[trigger]
            self@.sequences.dom().contains(key) implies {
            &&& self@.sequences[key].valid()
            &&& self@.sequences[key].view_id == key.0
            &&& self@.sequences[key].sequence_number == key.1
            &&& self@.sequences[key].cluster_size == self@.cluster_size
        } by {
            let i = choose|i: int| holds(self.table@, i, key);
            lemma_table_at(self.table@, i);
            self.table@[i].lemma_valid();
        }
    }

    /// The context that a replica starts with, unless the cluster is empty.
    pub fn new(config: ReplicaConfig) -> (context: Option<ReplicaContext>)
        ensures
            context is Some <==> config.spec_usable(),
            context matches Some(c) ==> c.wf() && c@ == ContextView::initial(config),
    {
        if config.cluster_size == 0 {
            return None;
        }
        let context = ReplicaContext {
            node_id: config.node_id,
            view_id: config.initial_view,
            cluster_size: config.cluster_size,
            table: Vec::new(),
            pending: Vec::new(),
            delivered: Vec::new(),
            suspects: Vec::new(),
            stale_dropped: 0,
        };
        proof {
            assert(context@.sequences =~= Map::<(u64, u64), SequenceView>::empty());
            assert(context@.pending =~= Seq::<MessageView>::empty());
            assert(context@.delivered =~= Seq::<(u64, Seq<char>)>::empty());
            assert(context@.suspects =~= Set::<u64>::empty());
        }
        Some(context)
    }

    /// The identity of this replica.
    pub fn node_id(&self) -> (id: u64)
        ensures
            id == self@.node_id,
    {
        self.node_id
    }

    /// The view that the replica is in.
    pub fn view_id(&self) -> (v: u64)
        ensures
            v == self@.view_id,
    {
        self.view_id
    }

    /// Number of replicas in the cluster.
    pub fn cluster_size(&self) -> (n: u64)
        ensures
            n == self@.cluster_size,
    {
        self.cluster_size
    }

    /// The primary of the replica's view.
    pub fn primary(&self) -> (p: u64)
        requires
            self.wf(),
        ensures
            p == self@.primary(),
    {
        primary_of(self.view_id, self.cluster_size)
    }

    /// Whether this replica is the primary of its view.
    pub fn is_primary(&self) -> (yes: bool)
        requires
            self.wf(),
        ensures
            yes == (self@.node_id == self@.primary()),
    {
        self.node_id == primary_of(self.view_id, self.cluster_size)
    }

    /// Number of messages of earlier views that were dropped.
    pub fn stale_dropped(&self) -> (n: u64)
        ensures
            n == self@.stale_dropped,
    {
        self.stale_dropped
    }

    /// Whether the view of a message lets it be processed now: not if the
    /// view is behind the replica's, and not yet if it is ahead.
    pub fn check_view(&self, view_id: u64) -> (verdict: Result<(), ConsensusError>)
        ensures
            verdict == self@.view_check(view_id),
    {
        if view_id < self.view_id {
            Err(ConsensusError::StaleView)
        } else if view_id > self.view_id {
            Err(ConsensusError::FutureView)
        } else {
            Ok(())
        }
    }

    /// The state of a sequence number in a view, if a message has referred
    /// to it.
    pub fn sequence_state(&self, view_id: u64, sequence_number: u64) -> (state: Option<
        &SequenceState,
    >)
        requires
            self.wf(),
        ensures
            match state {
                Some(s) => s.wf() && self@.sequences.dom().contains((view_id, sequence_number))
                    && s@ == self@.sequences[(view_id, sequence_number)],
                None => !self@.sequences.dom().contains((view_id, sequence_number)),
            },
    {
        let mut i: usize = 0;
        while i < self.table.len()
            invariant
                i <= self.table.len(),
                self.wf(),
                forall|j: int| 0 <= j < i ==> !holds(self.table@, j, (view_id, sequence_number)),
            decreases self.table.len() - i,
        {
            if self.table[i].view_id() == view_id && self.table[i].sequence_number()
                == sequence_number {
                proof {
                    lemma_table_at(self.table@, i as int);
                }
                return Some(&self.table[i]);
            }
            i += 1;
        }
        None
    }

    /// The messages of later views that are kept, oldest first.
    pub fn pending(&self) -> (messages: &Vec<ConsensusMessage>)
        ensures
            message_views(messages@) == self@.pending,
    {
        &self.pending
    }

    /// The decisions not yet handed on, in the order in which they were
    /// taken.
    pub fn delivered(&self) -> (decisions: &Vec<(u64, String)>)
        ensures
            decision_views(decisions@) == self@.delivered,
    {
        &self.delivered
    }

    /// Hands on the decisions taken since the last call, in the order in
    /// which they were taken. Each decision is handed on once.
    pub fn take_delivered(&mut self) -> (decisions: Vec<(u64, String)>)
        requires
            old(self).wf(),
        ensures
            final(self).wf(),
            decision_views(decisions@) == old(self)@.delivered,
            final(self)@ == (ContextView { delivered: Seq::empty(), ..old(self)@ }),
    {
        let mut decisions: Vec<(u64, String)> = Vec::new();
        decisions.append(&mut self.delivered);
        proof {
            assert(decisions@ =~= old(self).delivered@);
            assert(self@.delivered =~= Seq::<(u64, Seq<char>)>::empty());
        }
        decisions
    }

    /// Whether `sender_id` was caught voting for two digests.
    pub fn is_suspect(&self, sender_id: u64) -> (yes: bool)
        ensures
            yes == self@.suspects.contains(sender_id),
    {
        let mut i: usize = 0;
        while i < self.suspects.len()
            invariant
                i <= self.suspects.len(),
                forall|j: int| 0 <= j < i ==> self.suspects@[j] != sender_id,
            decreases self.suspects.len() - i,
        {
            if self.suspects[i] == sender_id {
                return true;
            }
            i += 1;
        }
        false
    }

    /// The proposal that this replica makes for `sequence_number`, not yet
    /// signed. Only the primary of the view proposes.
    pub fn proposal(&self, sequence_number: u64, value_digest: String) -> (draft: Result<
        ConsensusMessage,
        ConsensusError,
    >)
        requires
            self.wf(),
        ensures
            match draft {
                Ok(m) => self@.node_id == self@.primary() && m@ == self@.own_message(
                    sequence_number,
                    MessageType::PrePrepare,
                    value_digest@,
                ),
                Err(e) => self@.node_id != self@.primary() && e == ConsensusError::NotPrimary,
            },
    {
        if !self.is_primary() {
            return Err(ConsensusError::NotPrimary);
        }
        Ok(
            ConsensusMessage::new(
                self.view_id,
                sequence_number,
                MessageType::PrePrepare,
                value_digest,
                self.node_id,
                Vec::new(),
            ),
        )
    }

    /// Index of the state of a sequence number, which is created where no
    /// message has referred to it yet.
    fn slot_for(&mut self, view_id: u64, sequence_number: u64) -> (index: usize)
        requires
            old(self).wf(),
        ensures
            final(self).wf(),
            index < final(self).table@.len(),
            key_of(final(self).table@[index as int]) == (view_id, sequence_number),
            final(self).table@[index as int]@ == old(self)@.sequence(view_id, sequence_number),
            final(self)@ == (ContextView {
                sequences: old(self)@.sequences.insert(
                    (view_id, sequence_number),
                    old(self)@.sequence(view_id, sequence_number),
                ),
                ..old(self)@
            }),
    {
        let mut i: usize = 0;
        while i < self.table.len()
            invariant
                i <= self.table.len(),
                *self == *old(self),
                self.wf(),
                forall|j: int| 0 <= j < i ==> !holds(self.table@, j, (view_id, sequence_number)),
            decreases self.table.len() - i,
        {
            if self.table[i].view_id() == view_id && self.table[i].sequence_number()
                == sequence_number {
                proof {
                    lemma_table_at(self.table@, i as int);
                    assert(self@.sequences =~= self@.sequences.insert(
                        (view_id, sequence_number),
                        self@.sequence(view_id, sequence_number),
                    ));
                }
                return i;
            }
            i += 1;
        }
        let state = SequenceState::new(view_id, sequence_number, self.cluster_size);
        proof {
            lemma_table_push(self.table@, state);
        }
        self.table.push(state);
        self.table.len() - 1
    }

    /// Notes that `sender_id` was caught voting for two digests.
    fn note_suspect(&mut self, sender_id: u64)
        requires
            old(self).wf(),
        ensures
            final(self).wf(),
            final(self)@ == (ContextView {
                suspects: old(self)@.suspects.insert(sender_id),
                ..old(self)@
            }),
    {
        if !self.is_suspect(sender_id) {
            self.suspects.push(sender_id);
        }
        proof {
            assert(self.suspects@.to_set() =~= old(self).suspects@.to_set().insert(sender_id)) by {
                if self.suspects@.len() > old(self).suspects@.len() {
                    assert forall|s: u64|
                        self.suspects@.contains(s) <==> old(self).suspects@.contains(s) || s
                            == sender_id by {
                        if self.suspects@.contains(s) {
                            let i = choose|i: int|
                                0 <= i < self.suspects@.len() && self.suspects@[i] == s;
                            if i < old(self).suspects@.len() {
                                assert(old(self).suspects@[i] == s);
                            }
                        }
                        if old(self).suspects@.contains(s) {
                            let i = choose|i: int|
                                0 <= i < old(self).suspects@.len() && old(self).suspects@[i] == s;
                            assert(self.suspects@[i] == s);
                        }
                        if s == sender_id {
                            assert(self.suspects@[self.suspects@.len() - 1] == s);
                        }
                    }
                }
            }
        }
    }

    /// Handles the inbound message `msg`, whose signature the signer found
    /// valid or not as `signature_valid` says.
    ///
    /// A message of an earlier view is dropped and counted. One of a later
    /// view is kept for later, in place of the oldest kept one where the
    /// window is full; its signature is not looked at yet. In the replica's
    /// own view a message with an invalid signature is dropped. Any other
    /// is recorded in the state of its sequence number, which is created
    /// where the message is the first to refer to it. The result holds the
    /// answer and the votes that the replica owes from now on.
    pub fn process(&mut self, msg: ConsensusMessage, signature_valid: bool) -> (out: StepResult)
        requires
            old(self).wf(),
        ensures
            final(self).wf(),
            final(self)@ == old(self)@.step(msg@, signature_valid),
            out.status == old(self)@.step_status(msg@, signature_valid),
            message_views(out.votes@) == old(self)@.step_votes(msg@, signature_valid),
    {
        if msg.view_id() < self.view_id {
            if self.stale_dropped < u64::MAX {
                self.stale_dropped = self.stale_dropped + 1;
            }
            let out = StepResult { status: Err(ConsensusError::StaleView), votes: Vec::new() };
            assert(message_views(out.votes@) =~= Seq::<MessageView>::empty());
            return out;
        }
        if msg.view_id() > self.view_id {
            if self.pending.len() >= PENDING_CAPACITY {
                self.pending.remove(0);
            }
            self.pending.push(msg);
            let out = StepResult { status: Ok(()), votes: Vec::new() };
            proof {
                assert(message_views(out.votes@) =~= Seq::<MessageView>::empty());
                assert(self@.pending =~= buffered(old(self)@.pending, msg@));
            }
            return out;
        }
        if !signature_valid {
            let out = StepResult {
                status: Err(ConsensusError::InvalidSignature),
                votes: Vec::new(),
            };
            assert(message_views(out.votes@) =~= Seq::<MessageView>::empty());
            return out;
        }
        let sequence_number = msg.sequence_number();
        let index = self.slot_for(msg.view_id(), sequence_number);
        let ghost created = self.table@;
        let ghost before = self.table@[index as int]@;
        let t = self.table[index].receive(msg.msg_type(), msg.sender_id(), msg.digest().clone());
        proof {
            lemma_table_update(created, index as int, self.table@[index as int]);
            assert(self.table@ =~= created.update(index as int, self.table@[index as int]));
            assert(self@.sequences =~= old(self)@.sequences.insert(
                (msg@.view_id, msg@.sequence_number),
                before.receive(msg@.msg_type, msg@.sender_id, msg@.digest),
            ));
        }
        let mut votes: Vec<ConsensusMessage> = Vec::new();
        if t.prepare_due || t.commit_due || t.decided {
            let agreed: String = match self.table[index].agreed_digest() {
                Some(d) => d.clone(),
                None => String::new(),
            };
            if t.prepare_due {
                votes.push(
                    ConsensusMessage::new(
                        self.view_id,
                        sequence_number,
                        MessageType::Prepare,
                        agreed.clone(),
                        self.node_id,
                        Vec::new(),
                    ),
                );
            }
            if t.commit_due {
                votes.push(
                    ConsensusMessage::new(
                        self.view_id,
                        sequence_number,
                        MessageType::Commit,
                        agreed.clone(),
                        self.node_id,
                        Vec::new(),
                    ),
                );
            }
            if t.decided {
                self.delivered.push((sequence_number, agreed));
            }
        }
        proof {
            assert(message_views(votes@) =~= old(self)@.step_votes(msg@, signature_valid));
            assert(self@.delivered =~= old(self)@.step(msg@, signature_valid).delivered);
        }
        match t.status {
            Err(ConsensusError::Equivocation) => {
                self.note_suspect(msg.sender_id());
            },
            _ => {},
        }
        StepResult { status: t.status, votes }
    }

    /// Moves the replica on to `new_view` and hands back the pending
    /// messages of that view, oldest first, for them to be handled now.
    ///
    /// A view that is not later than the replica's own changes nothing and
    /// releases nothing. Otherwise pending messages of views before
    /// `new_view` are dropped and those of later views stay pending.
    pub fn advance_view(&mut self, new_view: u64) -> (released: Vec<ConsensusMessage>)
        requires
            old(self).wf(),
        ensures
            final(self).wf(),
            final(self)@ == old(self)@.advance(new_view),
            message_views(released@) == old(self)@.released(new_view),
    {
        let mut released: Vec<ConsensusMessage> = Vec::new();
        if new_view <= self.view_id {
            assert(message_views(released@) =~= Seq::<MessageView>::empty());
            return released;
        }
        let mut waiting: Vec<ConsensusMessage> = Vec::new();
        waiting.append(&mut self.pending);
        let mut kept: Vec<ConsensusMessage> = Vec::new();
        let ghost all = message_views(waiting@);
        let ghost later = |m: MessageView| m.view_id > new_view;
        let ghost now = |m: MessageView| m.view_id == new_view;
        proof {
            assert(waiting@ =~= old(self).pending@);
            reveal(Seq::filter);
            assert(all.take(0) =~= Seq::<MessageView>::empty());
            assert(message_views(kept@) =~= all.take(0).filter(later));
            assert(message_views(released@) =~= all.take(0).filter(now));
        }
        let mut i: usize = 0;
        while i < waiting.len()
            invariant
                i <= waiting.len(),
                all == message_views(waiting@),
                later == |m: MessageView| m.view_id > new_view,
                now == |m: MessageView| m.view_id == new_view,
                message_views(kept@) == all.take(i as int).filter(later),
                message_views(released@) == all.take(i as int).filter(now),
                kept@.len() <= i,
                forall|j: int| 0 <= j < kept@.len() ==> (#[trigger] kept@[j])@.view_id > new_view,
            decreases waiting.len() - i,
        {
            let m = waiting[i].clone();
            proof {
                reveal(Seq::filter);
                assert(all.take(i + 1).drop_last() =~= all.take(i as int));
                assert(all.take(i + 1).last() == waiting@[i as int]@);
            }
            if m.view_id() > new_view {
                kept.push(m);
                proof {
                    assert(message_views(kept@) =~= all.take(i + 1).filter(later));
                }
            } else if m.view_id() == new_view {
                released.push(m);
                proof {
                    assert(message_views(released@) =~= all.take(i + 1).filter(now));
                }
            }
            i += 1;
        }
        proof {
            assert(all.take(i as int) =~= all);
            assert(all =~= old(self)@.pending);
        }
        self.pending = kept;
        self.view_id = new_view;
        released
    }
}

} // verus!
