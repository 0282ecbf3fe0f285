//! Proposal numbers and the generator that mints them.

use vstd::prelude::*;

verus! {

/// Identifier of a cluster member. It also breaks ties between proposal
/// numbers of the same round.
pub type NodeId = usize;

/// The identifier of one round: a round counter paired with the node that
/// minted it. Numbers are ordered by round first and by proposer second, so
/// numbers minted by different nodes never coincide.
#[derive(Clone, Copy, Debug, PartialEq, Eq, Structural)]
pub struct ProposalNumber {
    pub round: usize,
    pub proposer: NodeId,
}

impl ProposalNumber {
    /// Strict lexicographic order on (round, proposer).
    pub open spec fn lt(self, other: ProposalNumber) -> bool {
        self.round < other.round || (self.round == other.round && self.proposer
            < other.proposer)
    }

    /// The reflexive closure of [`ProposalNumber::lt`].
    pub open spec fn le(self, other: ProposalNumber) -> bool {
        self == other || self.lt(other)
    }

    /// The larger of two numbers.
    pub open spec fn max(self, other: ProposalNumber) -> ProposalNumber {
        if self.lt(other) {
            other
        } else {
            self
        }
    }

    /// The number below every number a proposer can mint.
    pub open spec fn zero() -> ProposalNumber {
        ProposalNumber { round: 0, proposer: 0 }
    }

    pub fn new(round: usize, proposer: NodeId) -> (n: ProposalNumber)
        ensures
            n.round == round,
            n.proposer == proposer,
    {
        ProposalNumber { round, proposer }
    }

    /// The number an acceptor starts from.
    pub fn initial() -> (n: ProposalNumber)
        ensures
            n == ProposalNumber::zero(),
    {
        ProposalNumber { round: 0, proposer: 0 }
    }

    /// Whether `self` is strictly below `other`.
    pub fn precedes(&self, other: &ProposalNumber) -> (b: bool)
        ensures
            b == self.lt(*other),
    {
        self.round < other.round || (self.round == other.round && self.proposer
            < other.proposer)
    }

    /// Whether `self` is below or equal to `other`.
    pub fn at_most(&self, other: &ProposalNumber) -> (b: bool)
        ensures
            b == self.le(*other),
    {
        !other.precedes(self)
    }

    /// The larger of `self` and `other`.
    pub fn highest(self, other: ProposalNumber) -> (n: ProposalNumber)
        ensures
            n == self.max(other),
    {
        if self.precedes(&other) {
            other
        } else {
            self
        }
    }
}

/// The order on proposal numbers is total: of two numbers exactly one of
/// "below", "equal" and "above" holds.
pub proof fn lemma_order_total(a: ProposalNumber, b: ProposalNumber)
    ensures
        a.lt(b) || a == b || b.lt(a),
        !(a.lt(b) && b.lt(a)),
        !(a.lt(b) && a == b),
        a.le(b) <==> !b.lt(a),
{
}

/// The order on proposal numbers is transitive.
pub proof fn lemma_order_transitive(a: ProposalNumber, b: ProposalNumber, c: ProposalNumber)
    ensures
        a.lt(b) && b.lt(c) ==> a.lt(c),
        a.le(b) && b.lt(c) ==> a.lt(c),
        a.lt(b) && b.le(c) ==> a.lt(c),
        a.le(b) && b.le(c) ==> a.le(c),
{
}

/// Numbers minted by different nodes differ, whatever their rounds: nodes
/// need not coordinate their counters.
pub proof fn lemma_numbers_of_distinct_nodes_differ(a: ProposalNumber, b: ProposalNumber)
    requires
        a.proposer != b.proposer,
    ensures
        a != b,
        a.lt(b) || b.lt(a),
{
}

/// Mints the round identifiers of one node: each strictly above the one
/// before, all carrying the node's id.
pub struct ProposalNumberGenerator {
    node: NodeId,
    counter: usize,
}

impl ProposalNumberGenerator {
    /// The node whose id every minted number carries.
    pub closed spec fn owner(&self) -> NodeId {
        self.node
    }

    /// The round of the number minted last, 0 before the first.
    pub closed spec fn last_round(&self) -> usize {
        self.counter
    }

    /// The number minted last.
    pub open spec fn last(&self) -> ProposalNumber {
        ProposalNumber { round: self.last_round(), proposer: self.owner() }
    }

    pub fn new(node: NodeId) -> (g: ProposalNumberGenerator)
        ensures
            g.owner() == node,
            g.last_round() == 0,
    {
        ProposalNumberGenerator { node, counter: 0 }
    }

    /// Whether every round this generator can count has been used.
    pub fn exhausted(&self) -> (b: bool)
        ensures
            b == (self.last_round() == usize::MAX),
    {
        self.counter == usize::MAX
    }

    pub fn node(&self) -> (id: NodeId)
        ensures
            id == self.owner(),
    {
        self.node
    }

    pub fn current_round(&self) -> (r: usize)
        ensures
            r == self.last_round(),
    {
        self.counter
    }

    /// Mints the next number: one round above the last, with this node's id.
    pub fn mint(&mut self) -> (n: ProposalNumber)
        requires
            old(self).last_round() < usize::MAX,
        ensures
            n.round == old(self).last_round() + 1,
            n.proposer == old(self).owner(),
            final(self).owner() == old(self).owner(),
            final(self).last() == n,
            old(self).last().lt(n),
            ProposalNumber::zero().lt(n),
    {
        self.counter = self.counter + 1;
        ProposalNumber { round: self.counter, proposer: self.node }
    }
}

} // verus!
