//! Quorum arithmetic and the quorum certificate: the ledger of votes that one
//! phase of one sequence number has received, one vote per sender.

use vstd::prelude::*;

verus! {

/// The votes of one certificate: each sender that voted, with the digest it
/// voted for.
pub type Votes = Map<u64, Seq<char>>;

/// Number of faulty replicas that a cluster of `cluster_size` replicas
/// tolerates: `(cluster_size - 1) / 3`. A cluster has at least one replica;
/// for 0 the function is 0.
pub open spec fn spec_fault_tolerance(cluster_size: nat) -> nat {
    if cluster_size == 0 {
        0
    } else {
        ((cluster_size - 1) / 3) as nat
    }
}

/// Number of matching votes that make a quorum: `2f + 1`.
pub open spec fn spec_quorum_size(cluster_size: nat) -> nat {
    2 * spec_fault_tolerance(cluster_size) + 1
}

/// The senders that voted for `digest`.
pub open spec fn supporters(votes: Votes, digest: Seq<char>) -> Set<u64> {
    votes.dom().filter(|s: u64| votes[s] == digest)
}

/// Number of distinct senders that voted for `digest`.
pub open spec fn matching_count(votes: Votes, digest: Seq<char>) -> nat {
    supporters(votes, digest).len()
}

/// Whether `digest` has the votes of a quorum of a cluster of `cluster_size`.
pub open spec fn has_quorum(votes: Votes, digest: Seq<char>, cluster_size: nat) -> bool {
    matching_count(votes, digest) >= spec_quorum_size(cluster_size)
}

/// Whether at most one digest has a quorum.
pub open spec fn at_most_one_quorum(votes: Votes, cluster_size: nat) -> bool {
    forall|d1: Seq<char>, d2: Seq<char>|
        has_quorum(votes, d1, cluster_size) && has_quorum(votes, d2, cluster_size) ==> d1 == d2
}

/// What recording a vote of `sender` for `digest` reports.
pub open spec fn record_outcome(votes: Votes, sender: u64, digest: Seq<char>) -> VoteOutcome {
    if !votes.dom().contains(sender) {
        VoteOutcome::Accepted
    } else if votes[sender] == digest {
        VoteOutcome::DuplicateIdentical
    } else {
        VoteOutcome::Equivocation
    }
}

/// The votes after recording a vote of `sender` for `digest`: a first vote is
/// added, any later vote of the same sender leaves the votes as they were.
pub open spec fn record_votes(votes: Votes, sender: u64, digest: Seq<char>) -> Votes {
    if votes.dom().contains(sender) {
        votes
    } else {
        votes.insert(sender, digest)
    }
}

/// The identities of the replicas of a cluster: `0` up to `cluster_size - 1`.
pub open spec fn members(cluster_size: u64) -> Set<u64> {
    Set::new(|s: u64| s < cluster_size)
}

/// Recording a vote never takes a supporter away: the count of every digest
/// stays or grows by one.
pub proof fn lemma_record_grows_counts(
    votes: Votes,
    sender: u64,
    digest: Seq<char>,
    counted: Seq<char>,
)
    requires
        votes.dom().finite(),
    ensures
        record_votes(votes, sender, digest).dom().finite(),
        matching_count(record_votes(votes, sender, digest), counted) == matching_count(
            votes,
            counted,
        ) + if record_outcome(votes, sender, digest) == VoteOutcome::Accepted && counted
            == digest {
            1nat
        } else {
            0nat
        },
{
    let after = record_votes(votes, sender, digest);
    assert(supporters(votes, counted).subset_of(votes.dom()));
    vstd::set_lib::lemma_len_subset(supporters(votes, counted), votes.dom());
    if !votes.dom().contains(sender) && counted == digest {
        assert(supporters(after, counted) =~= supporters(votes, counted).insert(sender));
    } else {
        assert(supporters(after, counted) =~= supporters(votes, counted));
    }
}

/// A quorum, once reached, survives every later vote.
pub proof fn lemma_record_keeps_quorum(
    votes: Votes,
    sender: u64,
    digest: Seq<char>,
    agreed: Seq<char>,
    cluster_size: nat,
)
    requires
        votes.dom().finite(),
        has_quorum(votes, agreed, cluster_size),
    ensures
        has_quorum(record_votes(votes, sender, digest), agreed, cluster_size),
{
    lemma_record_grows_counts(votes, sender, digest, agreed);
}

/// Recording the same vote a second time changes nothing. Unless the first
/// attempt was itself an equivocation, the second is reported as an
/// identical duplicate; the votes, and with them every count, stay as the
/// first attempt left them.
pub proof fn lemma_record_twice(votes: Votes, sender: u64, digest: Seq<char>)
    ensures
        record_votes(record_votes(votes, sender, digest), sender, digest) == record_votes(
            votes,
            sender,
            digest,
        ),
        forall|counted: Seq<char>|
            matching_count(
                record_votes(record_votes(votes, sender, digest), sender, digest),
                counted,
            ) == matching_count(record_votes(votes, sender, digest), counted),
        record_outcome(votes, sender, digest) != VoteOutcome::Equivocation ==> record_outcome(
            record_votes(votes, sender, digest),
            sender,
            digest,
        ) == VoteOutcome::DuplicateIdentical,
        record_outcome(votes, sender, digest) == VoteOutcome::Equivocation ==> record_outcome(
            record_votes(votes, sender, digest),
            sender,
            digest,
        ) == VoteOutcome::Equivocation,
{
}

/// An equivocating vote leaves the first vote of its sender in place: the
/// sender still counts for the digest it voted for first and does not count
/// for the other.
pub proof fn lemma_equivocation_keeps_first_vote(
    votes: Votes,
    sender: u64,
    first: Seq<char>,
    second: Seq<char>,
)
    requires
        !votes.dom().contains(sender),
        first != second,
    ensures
        record_outcome(record_votes(votes, sender, first), sender, second)
            == VoteOutcome::Equivocation,
        supporters(
            record_votes(record_votes(votes, sender, first), sender, second),
            first,
        ).contains(sender),
        !supporters(
            record_votes(record_votes(votes, sender, first), sender, second),
            second,
        ).contains(sender),
{
}

/// Two quorums of one cluster share more senders than can be faulty.
///
/// In a cluster of `3f + 1` replicas, of which at most `f` are faulty, let two
/// ledgers hold votes of members only. If every sender outside `faulty` that
/// stands in both voted for the same digest in both, then the two ledgers
/// cannot give a quorum to two different digests.
pub proof fn lemma_quorums_agree(
    cluster_size: u64,
    faulty: Set<u64>,
    votes_a: Votes,
    votes_b: Votes,
    digest_a: Seq<char>,
    digest_b: Seq<char>,
)
    requires
        cluster_size == 3 * spec_fault_tolerance(cluster_size as nat) + 1,
        faulty.finite(),
        faulty.len() <= spec_fault_tolerance(cluster_size as nat),
        votes_a.dom().subset_of(members(cluster_size)),
        votes_b.dom().subset_of(members(cluster_size)),
        forall|s: u64|
            votes_a.dom().contains(s) && votes_b.dom().contains(s) && !faulty.contains(s)
                ==> votes_a[s] == votes_b[s],
        has_quorum(votes_a, digest_a, cluster_size as nat),
        has_quorum(votes_b, digest_b, cluster_size as nat),
    ensures
        digest_a == digest_b,
{
    let all = members(cluster_size);
    vstd::set_lib::range_set_properties::<u64>(0, cluster_size);
    assert(all =~= Set::<u64>::range(0, cluster_size));
    let a = supporters(votes_a, digest_a);
    let b = supporters(votes_b, digest_b);
    assert(a.subset_of(all));
    assert(b.subset_of(all));
    vstd::set_lib::lemma_len_subset(a, all);
    vstd::set_lib::lemma_len_subset(b, all);
    assert((a + b).subset_of(all));
    vstd::set_lib::lemma_len_subset(a + b, all);
    vstd::set_lib::lemma_set_intersect_union_lens(a, b);
    let both = a.intersect(b);
    assert(both.subset_of(all));
    vstd::set_lib::lemma_len_subset(both, all);
    assert(both.len() >= spec_fault_tolerance(cluster_size as nat) + 1);
    vstd::set_lib::lemma_set_difference_len(both, faulty);
    vstd::set_lib::lemma_len_intersect(faulty, both);
    assert(faulty.intersect(both) =~= both.intersect(faulty));
    let honest = both.difference(faulty);
    assert(honest.len() >= 1);
    assert(honest.subset_of(all));
    vstd::set_lib::lemma_len_subset(honest, all);
    assert(!honest.is_empty()) by {
        if honest.is_empty() {
            assert(honest =~= Set::<u64>::empty());
        }
    }
    let s = honest.choose();
    assert(honest.contains(s));
    assert(a.contains(s) && b.contains(s));
}

/// One ledger cannot give a quorum to two digests, provided that it holds
/// votes of members only and that two quorums together outnumber the cluster,
/// as they do in a cluster of `3f + 1` replicas.
pub proof fn lemma_single_quorum(cluster_size: u64, votes: Votes)
    requires
        votes.dom().subset_of(members(cluster_size)),
        2 * spec_quorum_size(cluster_size as nat) > cluster_size,
    ensures
        at_most_one_quorum(votes, cluster_size as nat),
{
    let all = members(cluster_size);
    vstd::set_lib::range_set_properties::<u64>(0, cluster_size);
    assert(all =~= Set::<u64>::range(0, cluster_size));
    assert forall|d1: Seq<char>, d2: Seq<char>|
        has_quorum(votes, d1, cluster_size as nat) && has_quorum(
            votes,
            d2,
            cluster_size as nat,
        ) implies d1 == d2 by {
        let a = supporters(votes, d1);
        let b = supporters(votes, d2);
        assert(a.subset_of(all));
        assert(b.subset_of(all));
        vstd::set_lib::lemma_len_subset(a, all);
        vstd::set_lib::lemma_len_subset(b, all);
        assert((a + b).subset_of(all));
        vstd::set_lib::lemma_len_subset(a + b, all);
        vstd::set_lib::lemma_set_intersect_union_lens(a, b);
        let both = a.intersect(b);
        assert(both.len() >= 1);
        assert(both.subset_of(all));
        vstd::set_lib::lemma_len_subset(both, all);
        assert(!both.is_empty()) by {
            if both.is_empty() {
                assert(both =~= Set::<u64>::empty());
            }
        }
        let s = both.choose();
        assert(both.contains(s));
        assert(a.contains(s) && b.contains(s));
    }
}

/// Number of faulty replicas that a cluster of `cluster_size` tolerates.
pub fn fault_tolerance(cluster_size: u64) -> (f: u64)
    requires
        cluster_size >= 1,
    ensures
        f == spec_fault_tolerance(cluster_size as nat),
        3 * f + 1 <= cluster_size,
{
    (cluster_size - 1) / 3
}

/// Number of matching votes that make a quorum in a cluster of `cluster_size`.
pub fn quorum_size(cluster_size: u64) -> (q: u64)
    requires
        cluster_size >= 1,
    ensures
        q == spec_quorum_size(cluster_size as nat),
        1 <= q <= cluster_size,
{
    2 * fault_tolerance(cluster_size) + 1
}

/// Result of recording one vote.
#[derive(Debug, Clone, Copy, PartialEq, Eq, Structural)]
pub enum VoteOutcome {
    /// First vote of this sender: it now counts.
    Accepted,
    /// The sender had already cast this very vote: nothing changed.
    DuplicateIdentical,
    /// The sender had already voted for another digest: the first vote
    /// stands and this one does not count.
    Equivocation,
}

struct Ballot {
    sender: u64,
    digest: String,
}

/// The votes that a sequence of ballots amounts to, the earliest ballot of a
/// sender first.
spec fn tally(ballots: Seq<Ballot>) -> Votes
    decreases ballots.len(),
{
    if ballots.len() == 0 {
        Map::empty()
    } else {
        tally(ballots.drop_last()).insert(ballots.last().sender, ballots.last().digest@)
    }
}

spec fn distinct_senders(ballots: Seq<Ballot>) -> bool {
    forall|i: int, j: int|
        0 <= i < j < ballots.len() ==> ballots[i].sender != ballots[j].sender
}

proof fn lemma_tally_domain(ballots: Seq<Ballot>)
    ensures
        tally(ballots).dom().finite(),
        tally(ballots).dom().len() <= ballots.len(),
        forall|s: u64|
            tally(ballots).dom().contains(s) <==> exists|i: int|
                0 <= i < ballots.len() && #[trigger] ballots[i].sender == s,
    decreases ballots.len(),
{
    if ballots.len() > 0 {
        let front = ballots.drop_last();
        lemma_tally_domain(front);
        assert forall|s: u64| tally(ballots).dom().contains(s) implies exists|i: int|
            0 <= i < ballots.len() && #[trigger] ballots[i].sender == s by {
            if s == ballots.last().sender {
                assert(ballots[ballots.len() - 1].sender == s);
            } else {
                let i = choose|i: int| 0 <= i < front.len() && #[trigger] front[i].sender == s;
                assert(ballots[i].sender == s);
            }
        }
        assert forall|s: u64|
            (exists|i: int|
                0 <= i < ballots.len() && #[trigger] ballots[i].sender
                    == s) implies tally(ballots).dom().contains(s) by {
            let i = choose|i: int| 0 <= i < ballots.len() && #[trigger] ballots[i].sender == s;
            if i < front.len() {
                assert(front[i].sender == s);
            }
        }
    }
}

proof fn lemma_tally_entry(ballots: Seq<Ballot>, i: int)
    requires
        distinct_senders(ballots),
        0 <= i < ballots.len(),
    ensures
        tally(ballots).dom().contains(ballots[i].sender),
        tally(ballots)[ballots[i].sender] == ballots[i].digest@,
    decreases ballots.len(),
{
    if i < ballots.len() - 1 {
        let front = ballots.drop_last();
        assert(distinct_senders(front));
        lemma_tally_entry(front, i);
        assert(front[i] == ballots[i]);
    }
}

/// Taking one more ballot of a new sender into account adds that sender to
/// the supporters of its digest and to no others.
proof fn lemma_tally_step(ballots: Seq<Ballot>, digest: Seq<char>)
    requires
        distinct_senders(ballots),
        ballots.len() > 0,
    ensures
        supporters(tally(ballots.drop_last()), digest).finite(),
        !supporters(tally(ballots.drop_last()), digest).contains(ballots.last().sender),
        supporters(tally(ballots), digest) == if ballots.last().digest@ == digest {
            supporters(tally(ballots.drop_last()), digest).insert(ballots.last().sender)
        } else {
            supporters(tally(ballots.drop_last()), digest)
        },
{
    let front = ballots.drop_last();
    let last = ballots.last();
    lemma_tally_domain(front);
    assert(!tally(front).dom().contains(last.sender)) by {
        if tally(front).dom().contains(last.sender) {
            let i = choose|i: int| 0 <= i < front.len() && #[trigger] front[i].sender == last.sender;
            assert(ballots[i].sender == ballots[ballots.len() - 1].sender);
        }
    }
    if last.digest@ == digest {
        assert(supporters(tally(ballots), digest) =~= supporters(tally(front), digest).insert(
            last.sender,
        ));
    } else {
        assert(supporters(tally(ballots), digest) =~= supporters(tally(front), digest));
    }
}

/// A digest with a supporter stands in some ballot.
proof fn lemma_supported_digest_has_ballot(ballots: Seq<Ballot>, digest: Seq<char>)
    requires
        distinct_senders(ballots),
        matching_count(tally(ballots), digest) > 0,
    ensures
        exists|i: int| 0 <= i < ballots.len() && (#[trigger] ballots[i]).digest@ == digest,
{
    let votes = tally(ballots);
    lemma_tally_domain(ballots);
    let backers = supporters(votes, digest);
    assert(backers.finite());
    if backers.is_empty() {
        assert(backers.len() == 0);
    }
    let s = backers.choose();
    assert(backers.contains(s));
    let i = choose|i: int| 0 <= i < ballots.len() && #[trigger] ballots[i].sender == s;
    lemma_tally_entry(ballots, i);
    assert(ballots[i].digest@ == digest);
}

/// The votes received for one phase of one sequence number in one view: at
/// most one vote per sender, the first one that arrived.
pub struct QuorumCertificate {
    cluster_size: u64,
    ballots: Vec<Ballot>,
}

impl View for QuorumCertificate {
    type V = Votes;

    closed spec fn view(&self) -> Votes {
        tally(self.ballots@)
    }
}

impl QuorumCertificate {
    /// The certificate's invariant: no sender stands in it twice, and the
    /// cluster has at least one replica.
    pub closed spec fn wf(&self) -> bool {
        &&& self.cluster_size >= 1
        &&& distinct_senders(self.ballots@)
    }

    /// Size of the cluster that the quorum is taken of.
    pub closed spec fn spec_cluster_size(&self) -> u64 {
        self.cluster_size
    }

    /// The votes are finitely many, and the cluster is not empty.
    pub proof fn lemma_valid(&self)
        requires
            self.wf(),
        ensures
            self@.dom().finite(),
            self.spec_cluster_size() >= 1,
    {
        lemma_tally_domain(self.ballots@);
    }

    /// An empty certificate for a cluster of `cluster_size` replicas.
    pub fn new(cluster_size: u64) -> (qc: QuorumCertificate)
        requires
            cluster_size >= 1,
        ensures
            qc.wf(),
            qc@ == Map::<u64, Seq<char>>::empty(),
            qc.spec_cluster_size() == cluster_size,
    {
        QuorumCertificate { cluster_size, ballots: Vec::new() }
    }

    /// Size of the cluster that the quorum is taken of.
    pub fn cluster_size(&self) -> (n: u64)
        ensures
            n == self.spec_cluster_size(),
    {
        self.cluster_size
    }

    /// Number of senders that have voted.
    pub fn len(&self) -> (n: usize)
        requires
            self.wf(),
        ensures
            n == self@.dom().len(),
    {
        proof {
            lemma_tally_size(self.ballots@);
        }
        self.ballots.len()
    }

    /// Records the vote of `sender_id` for `digest`.
    ///
    /// The first vote of a sender is accepted and counts from now on. A
    /// repetition of it changes nothing, and neither does a vote of the same
    /// sender for another digest, which is reported as equivocation.
    pub fn record(&mut self, sender_id: u64, digest: String) -> (outcome: VoteOutcome)
        requires
            old(self).wf(),
        ensures
            final(self).wf(),
            final(self).spec_cluster_size() == old(self).spec_cluster_size(),
            outcome == record_outcome(old(self)@, sender_id, digest@),
            final(self)@ == record_votes(old(self)@, sender_id, digest@),
    {
        proof {
            lemma_tally_domain(self.ballots@);
        }
        let mut i: usize = 0;
        while i < self.ballots.len()
            invariant
                i <= self.ballots.len(),
                *self == *old(self),
                self.wf(),
                forall|j: int| 0 <= j < i ==> self.ballots@[j].sender != sender_id,
            decreases self.ballots.len() - i,
        {
            if self.ballots[i].sender == sender_id {
                proof {
                    lemma_tally_entry(self.ballots@, i as int);
                }
                if self.ballots[i].digest == digest {
                    return VoteOutcome::DuplicateIdentical;
                } else {
                    return VoteOutcome::Equivocation;
                }
            }
            i += 1;
        }
        let ghost before = self.ballots@;
        self.ballots.push(Ballot { sender: sender_id, digest });
        proof {
            assert(self.ballots@.drop_last() =~= before);
        }
        VoteOutcome::Accepted
    }

    /// The digest that `sender_id` voted for, if it has voted.
    pub fn vote_of(&self, sender_id: u64) -> (vote: Option<&String>)
        requires
            self.wf(),
        ensures
            match vote {
                Some(d) => self@.dom().contains(sender_id) && self@[sender_id] == d@,
                None => !self@.dom().contains(sender_id),
            },
    {
        proof {
            lemma_tally_domain(self.ballots@);
        }
        let mut i: usize = 0;
        while i < self.ballots.len()
            invariant
                i <= self.ballots.len(),
                self.wf(),
                forall|j: int| 0 <= j < i ==> self.ballots@[j].sender != sender_id,
            decreases self.ballots.len() - i,
        {
            if self.ballots[i].sender == sender_id {
                proof {
                    lemma_tally_entry(self.ballots@, i as int);
                }
                return Some(&self.ballots[i].digest);
            }
            i += 1;
        }
        None
    }

    /// Number of distinct senders whose vote is for `digest`.
    pub fn matching_count(&self, digest: &String) -> (count: usize)
        requires
            self.wf(),
        ensures
            count == matching_count(self@, digest@),
    {
        let mut count: usize = 0;
        let mut i: usize = 0;
        proof {
            assert(self.ballots@.take(0) =~= Seq::<Ballot>::empty());
            assert(supporters(tally(self.ballots@.take(0)), digest@) =~= Set::<u64>::empty());
        }
        while i < self.ballots.len()
            invariant
                i <= self.ballots.len(),
                self.wf(),
                count <= i,
                count == matching_count(tally(self.ballots@.take(i as int)), digest@),
            decreases self.ballots.len() - i,
        {
            proof {
                let prefix = self.ballots@.take(i + 1);
                assert(prefix.drop_last() =~= self.ballots@.take(i as int));
                assert(prefix.last() == self.ballots@[i as int]);
                assert(distinct_senders(prefix));
                lemma_tally_step(prefix, digest@);
            }
            if self.ballots[i].digest == *digest {
                count += 1;
            }
            i += 1;
        }
        proof {
            assert(self.ballots@.take(i as int) =~= self.ballots@);
        }
        count
    }

    /// Whether `digest` has the votes of a quorum: at least `2f + 1` distinct
    /// senders, where `f = (cluster_size - 1) / 3`.
    pub fn has_quorum(&self, digest: &String) -> (reached: bool)
        requires
            self.wf(),
        ensures
            reached == has_quorum(self@, digest@, self.spec_cluster_size() as nat),
    {
        let needed = quorum_size(self.cluster_size);
        let count = self.matching_count(digest);
        count as u64 >= needed
    }

    /// Whether two different digests have a quorum each. This cannot come
    /// about while the votes are those of members of a cluster of `3f + 1`
    /// replicas; where it does, the cluster size and the quorum do not fit
    /// each other and no digest may be taken as agreed.
    pub fn quorum_conflict(&self) -> (conflict: bool)
        requires
            self.wf(),
        ensures
            conflict == !at_most_one_quorum(self@, self.spec_cluster_size() as nat),
    {
        let ghost n = self.cluster_size as nat;
        let mut i: usize = 0;
        while i < self.ballots.len()
            invariant
                i <= self.ballots.len(),
                self.wf(),
                n == self.cluster_size as nat,
                forall|k: int| 0 <= k < i ==> !has_quorum(self@, self.ballots@[k].digest@, n),
            decreases self.ballots.len() - i,
        {
            if self.has_quorum(&self.ballots[i].digest) {
                let mut j: usize = i + 1;
                while j < self.ballots.len()
                    invariant
                        i < j <= self.ballots.len(),
                        self.wf(),
                        n == self.cluster_size as nat,
                        has_quorum(self@, self.ballots@[i as int].digest@, n),
                        forall|k: int|
                            0 <= k < i ==> !has_quorum(self@, self.ballots@[k].digest@, n),
                        forall|k: int|
                            i < k < j && has_quorum(self@, self.ballots@[k].digest@, n)
                                ==> self.ballots@[k].digest@ == self.ballots@[i as int].digest@,
                    decreases self.ballots.len() - j,
                {
                    if self.ballots[j].digest != self.ballots[i].digest && self.has_quorum(
                        &self.ballots[j].digest,
                    ) {
                        return true;
                    }
                    j += 1;
                }
                proof {
                    let first = self.ballots@[i as int].digest@;
                    assert forall|d: Seq<char>| has_quorum(self@, d, n) implies d == first by {
                        lemma_supported_digest_has_ballot(self.ballots@, d);
                    }
                }
                return false;
            }
            i += 1;
        }
        proof {
            assert forall|d: Seq<char>| !has_quorum(self@, d, n) by {
                if has_quorum(self@, d, n) {
                    lemma_supported_digest_has_ballot(self.ballots@, d);
                }
            }
        }
        false
    }

    /// The digest that has a quorum, if there is one.
    ///
    /// Two digests with a quorum each are a fault of the configuration, not
    /// an outcome of the protocol: such a certificate must not be asked, and
    /// [`QuorumCertificate::quorum_conflict`] tells whether this one is such.
    pub fn quorum_digest(&self) -> (found: Option<String>)
        requires
            self.wf(),
            at_most_one_quorum(self@, self.spec_cluster_size() as nat),
        ensures
            forall|d: Seq<char>|
                has_quorum(self@, d, self.spec_cluster_size() as nat) <==> (found matches Some(q)
                    && q@ == d),
    {
        let ghost n = self.cluster_size as nat;
        let mut i: usize = 0;
        while i < self.ballots.len()
            invariant
                i <= self.ballots.len(),
                self.wf(),
                n == self.cluster_size as nat,
                at_most_one_quorum(self@, n),
                forall|k: int| 0 <= k < i ==> !has_quorum(self@, self.ballots@[k].digest@, n),
            decreases self.ballots.len() - i,
        {
            if self.has_quorum(&self.ballots[i].digest) {
                return Some(self.ballots[i].digest.clone());
            }
            i += 1;
        }
        proof {
            assert forall|d: Seq<char>| !has_quorum(self@, d, n) by {
                if has_quorum(self@, d, n) {
                    lemma_supported_digest_has_ballot(self.ballots@, d);
                }
            }
        }
        None
    }
}

proof fn lemma_tally_size(ballots: Seq<Ballot>)
    requires
        distinct_senders(ballots),
    ensures
        tally(ballots).dom().finite(),
        tally(ballots).dom().len() == ballots.len(),
    decreases ballots.len(),
{
    lemma_tally_domain(ballots);
    if ballots.len() > 0 {
        let front = ballots.drop_last();
        assert(distinct_senders(front));
        lemma_tally_size(front);
        lemma_tally_domain(front);
        if tally(front).dom().contains(ballots.last().sender) {
            let i = choose|i: int|
                0 <= i < front.len() && #[trigger] front[i].sender == ballots.last().sender;
            assert(ballots[i].sender == ballots[ballots.len() - 1].sender);
        }
    }
}

} // verus!
