//! Majorities, and the collector that watches for one.

use vstd::prelude::*;
use vstd::set_lib::{lemma_int_range, lemma_len_subset, set_int_range};
use crate::error::PaxosError;

verus! {

/// The size of a majority among `n` members.
pub open spec fn majority(n: nat) -> nat {
    n / 2 + 1
}

/// The size of a majority among `n` members.
pub fn majority_of(n: usize) -> (m: usize)
    ensures
        m == majority(n as nat),
{
    n / 2 + 1
}

/// What one peer has answered so far.
#[derive(Clone, Copy, Debug, PartialEq, Eq, Structural)]
pub enum Vote {
    /// No answer yet.
    Pending,
    /// The peer agreed.
    Positive,
    /// The peer refused, or could not be reached.
    Negative,
}

/// Where a collection stands.
#[derive(Clone, Copy, Debug, PartialEq, Eq, Structural)]
pub enum Outcome {
    /// Neither side has a majority yet.
    Pending,
    /// A majority agreed.
    Success,
    /// A majority can no longer be had, for the reason given.
    Failure(PaxosError),
}

/// The peers, by position, whose answer is `kind`.
pub open spec fn supporters(votes: Seq<Vote>, kind: Vote) -> Set<int> {
    Set::new(|i: int| 0 <= i < votes.len() && votes[i] == kind)
}

/// The number of peers whose answer is `kind`.
pub open spec fn tally(votes: Seq<Vote>, kind: Vote) -> nat {
    supporters(votes, kind).len()
}

/// What the answers alone decide: success once a majority is positive,
/// failure once more than half are negative, nothing before.
pub open spec fn verdict(votes: Seq<Vote>) -> Outcome {
    if tally(votes, Vote::Positive) >= majority(votes.len()) {
        Outcome::Success
    } else if tally(votes, Vote::Negative) > votes.len() / 2 {
        Outcome::Failure(PaxosError::QuorumUnreachable)
    } else {
        Outcome::Pending
    }
}

/// The supporters of any answer are finitely many, at most one per peer.
pub proof fn lemma_tally_bounded(votes: Seq<Vote>, kind: Vote)
    ensures
        supporters(votes, kind).finite(),
        tally(votes, kind) <= votes.len(),
{
    lemma_int_range(0, votes.len() as int);
    assert(supporters(votes, kind).subset_of(set_int_range(0, votes.len() as int)));
    lemma_len_subset(supporters(votes, kind), set_int_range(0, votes.len() as int));
}

/// With no answer in, every tally is zero.
pub proof fn lemma_tally_unanswered(votes: Seq<Vote>, kind: Vote)
    requires
        kind != Vote::Pending,
        forall|i: int| 0 <= i < votes.len() ==> votes[i] == Vote::Pending,
    ensures
        tally(votes, kind) == 0,
{
    assert(supporters(votes, kind) =~= Set::<int>::empty());
}

/// Recording the answer of a peer that had not answered raises the tally of
/// that answer by one and leaves the tally of the other as it was.
pub proof fn lemma_tally_after_answer(votes: Seq<Vote>, peer: int, kind: Vote, other: Vote)
    requires
        0 <= peer < votes.len(),
        votes[peer] == Vote::Pending,
        kind != Vote::Pending,
        other != Vote::Pending,
        other != kind,
    ensures
        tally(votes.update(peer, kind), kind) == tally(votes, kind) + 1,
        tally(votes.update(peer, kind), other) == tally(votes, other),
{
    lemma_tally_bounded(votes, kind);
    assert(supporters(votes.update(peer, kind), kind) =~= supporters(votes, kind).insert(peer));
    assert(supporters(votes.update(peer, kind), other) =~= supporters(votes, other));
}

/// Two majorities of the same peers share a member.
pub proof fn lemma_majorities_intersect(n: nat, a: Set<int>, b: Set<int>) -> (common: int)
    requires
        a.subset_of(set_int_range(0, n as int)),
        b.subset_of(set_int_range(0, n as int)),
        a.len() >= majority(n),
        b.len() >= majority(n),
    ensures
        a.contains(common),
        b.contains(common),
        0 <= common < n,
{
    let all = set_int_range(0, n as int);
    lemma_int_range(0, n as int);
    lemma_len_subset(a, all);
    lemma_len_subset(b, all);
    if a.disjoint(b) {
        vstd::set_lib::lemma_set_disjoint_lens(a, b);
        assert((a + b).subset_of(all));
        lemma_len_subset(a + b, all);
        assert(false);
    }
    let common = choose|x: int| a.contains(x) && b.contains(x);
    common
}

/// A collection, as the contracts see it: each peer's answer, by
/// position, and the outcome reached.
pub struct CollectorView {
    pub votes: Seq<Vote>,
    pub outcome: Outcome,
}

impl CollectorView {
    /// A collection over `n` peers before any answer.
    pub open spec fn fresh(n: nat) -> CollectorView {
        CollectorView { votes: Seq::new(n, |i: int| Vote::Pending), outcome: Outcome::Pending }
    }

    pub open spec fn positives(self) -> nat {
        tally(self.votes, Vote::Positive)
    }

    pub open spec fn negatives(self) -> nat {
        tally(self.votes, Vote::Negative)
    }

    /// The outcome is the one the answers decide, or a timeout that came
    /// while they had decided nothing; and nothing was recorded after the
    /// outcome was reached.
    pub open spec fn wf(self) -> bool {
        &&& self.outcome != Outcome::Failure(PaxosError::Timeout) ==> self.outcome == verdict(
            self.votes,
        )
        &&& self.outcome == Outcome::Failure(PaxosError::Timeout) ==> verdict(self.votes)
            == Outcome::Pending
        &&& self.positives() <= majority(self.votes.len())
        &&& self.negatives() <= self.votes.len() / 2 + 1
    }

    /// Whether an answer from `peer` still counts: the outcome is open, the
    /// peer is one of those asked, and it has not answered before.
    pub open spec fn counts(self, peer: int) -> bool {
        &&& self.outcome == Outcome::Pending
        &&& 0 <= peer < self.votes.len()
        &&& self.votes[peer] == Vote::Pending
    }

    /// The collection after an answer from `peer`.
    pub open spec fn record(self, peer: int, positive: bool) -> CollectorView {
        if self.counts(peer) {
            let votes = self.votes.update(
                peer,
                if positive {
                    Vote::Positive
                } else {
                    Vote::Negative
                },
            );
            CollectorView { votes, outcome: verdict(votes) }
        } else {
            self
        }
    }

    /// The collection after the deadline has passed.
    pub open spec fn expire(self) -> CollectorView {
        if self.outcome == Outcome::Pending {
            CollectorView { votes: self.votes, outcome: Outcome::Failure(PaxosError::Timeout) }
        } else {
            self
        }
    }
}

/// A fresh collection is well formed and open.
pub proof fn lemma_fresh_wf(n: nat)
    ensures
        CollectorView::fresh(n).wf(),
        CollectorView::fresh(n).positives() == 0,
        CollectorView::fresh(n).negatives() == 0,
{
    let c = CollectorView::fresh(n);
    lemma_tally_unanswered(c.votes, Vote::Positive);
    lemma_tally_unanswered(c.votes, Vote::Negative);
}

/// Recording an answer keeps a collection well formed.
pub proof fn lemma_record_wf(c: CollectorView, peer: int, positive: bool)
    requires
        c.wf(),
    ensures
        c.record(peer, positive).wf(),
        c.counts(peer) && positive ==> c.record(peer, positive).positives() == c.positives() + 1
            && c.record(peer, positive).negatives() == c.negatives(),
        c.counts(peer) && !positive ==> c.record(peer, positive).negatives() == c.negatives() + 1
            && c.record(peer, positive).positives() == c.positives(),
{
    if c.counts(peer) {
        if positive {
            lemma_tally_after_answer(c.votes, peer, Vote::Positive, Vote::Negative);
        } else {
            lemma_tally_after_answer(c.votes, peer, Vote::Negative, Vote::Positive);
        }
    }
}

/// The quorum rule. In a well-formed collection over `n` peers the outcome
/// is success exactly when `n / 2 + 1` answers are positive, and it is
/// "quorum unreachable" exactly when `n / 2 + 1` answers, the first count above
/// half, are negative. The two never hold together, and while either count
/// is short, only a timeout can close the collection.
pub proof fn lemma_quorum_rule(c: CollectorView)
    requires
        c.wf(),
    ensures
        c.outcome == Outcome::Success <==> c.positives() == majority(c.votes.len()),
        c.outcome == Outcome::Failure(PaxosError::QuorumUnreachable) <==> c.negatives()
            == c.votes.len() / 2 + 1,
        !(c.positives() == majority(c.votes.len()) && c.negatives() == c.votes.len() / 2 + 1),
        c.outcome is Failure ==> c.outcome == Outcome::Failure(PaxosError::QuorumUnreachable)
            || c.outcome == Outcome::Failure(PaxosError::Timeout),
{
    let pos = supporters(c.votes, Vote::Positive);
    let neg = supporters(c.votes, Vote::Negative);
    lemma_tally_bounded(c.votes, Vote::Positive);
    lemma_tally_bounded(c.votes, Vote::Negative);
    assert(pos.disjoint(neg));
    vstd::set_lib::lemma_set_disjoint_lens(pos, neg);
    lemma_int_range(0, c.votes.len() as int);
    assert((pos + neg).subset_of(set_int_range(0, c.votes.len() as int)));
    lemma_len_subset(pos + neg, set_int_range(0, c.votes.len() as int));
}

/// Writes one answer into the parts of a collector: the peer's vote, the
/// count of that kind, and the outcome that the counts now decide.
fn count_answer(
    votes: &mut Vec<Vote>,
    positives: &mut usize,
    negatives: &mut usize,
    outcome: &mut Outcome,
    peer: usize,
    positive: bool,
)
    requires
        (CollectorView { votes: old(votes)@, outcome: *old(outcome) }).wf(),
        (CollectorView { votes: old(votes)@, outcome: *old(outcome) }).counts(peer as int),
        *old(positives) == tally(old(votes)@, Vote::Positive),
        *old(negatives) == tally(old(votes)@, Vote::Negative),
    ensures
        (CollectorView { votes: final(votes)@, outcome: *final(outcome) }) == (CollectorView {
            votes: old(votes)@,
            outcome: *old(outcome),
        }).record(peer as int, positive),
        *final(positives) == tally(final(votes)@, Vote::Positive),
        *final(negatives) == tally(final(votes)@, Vote::Negative),
    no_unwind
{
    let peers = votes.len();
    let kind = if positive {
        Vote::Positive
    } else {
        Vote::Negative
    };
    proof {
        lemma_record_wf(
            CollectorView { votes: votes@, outcome: *outcome },
            peer as int,
            positive,
        );
        lemma_tally_bounded(votes@.update(peer as int, kind), kind);
    }
    votes[peer] = kind;
    if positive {
        *positives = *positives + 1;
    } else {
        *negatives = *negatives + 1;
    }
    if *positives > peers / 2 {
        *outcome = Outcome::Success;
    } else if *negatives > peers / 2 {
        *outcome = Outcome::Failure(PaxosError::QuorumUnreachable);
    }
}

/// Fans a request out to a fixed number of peers and watches the answers
/// come in: success as soon as a majority is positive, failure as soon as
/// more than half are negative or the deadline passes. Each peer counts once,
/// and nothing counts after the outcome is reached.
pub struct QuorumCollector {
    votes: Vec<Vote>,
    positives: usize,
    negatives: usize,
    outcome: Outcome,
}

impl View for QuorumCollector {
    type V = CollectorView;

    closed spec fn view(&self) -> CollectorView {
        CollectorView { votes: self.votes@, outcome: self.outcome }
    }
}

impl QuorumCollector {
    #[verifier::type_invariant]
    spec fn inv(&self) -> bool {
        &&& self@.wf()
        &&& self.positives == self@.positives()
        &&& self.negatives == self@.negatives()
    }

    /// A collection over `peers` peers, none of which has answered.
    pub fn new(peers: usize) -> (collector: QuorumCollector)
        ensures
            collector@ == CollectorView::fresh(peers as nat),
            collector@.wf(),
            collector@.positives() == 0,
            collector@.negatives() == 0,
    {
        let mut votes: Vec<Vote> = Vec::new();
        let mut i: usize = 0;
        while i < peers
            invariant
                i <= peers,
                votes.len() == i,
                forall|j: int| 0 <= j < i ==> votes@[j] == Vote::Pending,
            decreases peers - i,
        {
            votes.push(Vote::Pending);
            i = i + 1;
        }
        proof {
            lemma_fresh_wf(peers as nat);
            assert(votes@ =~= CollectorView::fresh(peers as nat).votes);
        }
        QuorumCollector { votes, positives: 0, negatives: 0, outcome: Outcome::Pending }
    }

    /// The number of peers asked.
    pub fn size(&self) -> (n: usize)
        ensures
            n == self@.votes.len(),
    {
        self.votes.len()
    }

    /// The number of positive answers counted.
    pub fn positives(&self) -> (n: usize)
        ensures
            n == self@.positives(),
            self@.wf(),
    {
        proof {
            use_type_invariant(self);
        }
        self.positives
    }

    /// The number of negative answers counted.
    pub fn negatives(&self) -> (n: usize)
        ensures
            n == self@.negatives(),
            self@.wf(),
    {
        proof {
            use_type_invariant(self);
        }
        self.negatives
    }

    /// The outcome reached so far.
    pub fn outcome(&self) -> (outcome: Outcome)
        ensures
            outcome == self@.outcome,
            self@.wf(),
    {
        proof {
            use_type_invariant(self);
        }
        self.outcome
    }

    /// What `peer` has answered.
    pub fn vote_of(&self, peer: usize) -> (vote: Option<Vote>)
        ensures
            vote == if peer < self@.votes.len() {
                Some(self@.votes[peer as int])
            } else {
                None
            },
    {
        if peer < self.votes.len() {
            Some(self.votes[peer])
        } else {
            None
        }
    }

    /// Counts the answer of the peer at position `peer`: positive, or
    /// negative for a refusal and for a peer that could not be reached.
    /// An answer from an unknown position, a second answer from the same
    /// peer and any answer after the outcome is reached change nothing.
    /// Returns the outcome after the answer.
    pub fn record(&mut self, peer: usize, positive: bool) -> (outcome: Outcome)
        ensures
            final(self)@ == old(self)@.record(peer as int, positive),
            outcome == final(self)@.outcome,
            final(self)@.wf(),
            old(self)@.counts(peer as int) && positive ==> final(self)@.positives() == old(
                self,
            )@.positives() + 1 && final(self)@.negatives() == old(self)@.negatives(),
            old(self)@.counts(peer as int) && !positive ==> final(self)@.negatives() == old(
                self,
            )@.negatives() + 1 && final(self)@.positives() == old(self)@.positives(),
    {
        proof {
            use_type_invariant(&*self);
            lemma_record_wf(self@, peer as int, positive);
        }
        if self.outcome != Outcome::Pending || peer >= self.votes.len() {
            return self.outcome;
        }
        if self.votes[peer] != Vote::Pending {
            return self.outcome;
        }
        count_answer(
            &mut self.votes,
            &mut self.positives,
            &mut self.negatives,
            &mut self.outcome,
            peer,
            positive,
        );
        self.outcome
    }

    /// Closes the collection because the deadline has passed. An outcome
    /// already reached stands. Returns the outcome after the call.
    pub fn expire(&mut self) -> (outcome: Outcome)
        ensures
            final(self)@ == old(self)@.expire(),
            outcome == final(self)@.outcome,
            final(self)@.wf(),
    {
        proof {
            use_type_invariant(&*self);
        }
        if self.outcome == Outcome::Pending {
            self.outcome = Outcome::Failure(PaxosError::Timeout);
        }
        self.outcome
    }
}

} // verus!
