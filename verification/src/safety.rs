//! Why at most one value is ever chosen.
//!
//! The cluster is modelled as a whole: every acceptor's record, together
//! with a history of the promises made, the proposals sent out and the
//! acceptances given. The steps are those of the acceptor and of the
//! proposer, taken in any order and any number of times, which covers
//! messages that are lost, late, repeated or overtaken. The proof shows an
//! invariant of every reachable cluster and derives agreement from it.

use vstd::prelude::*;
use vstd::set_lib::set_int_range;
use crate::acceptor::PromiseRecord;
use crate::ballot::{lemma_order_total, lemma_order_transitive, ProposalNumber};
use crate::message::RequestView;
use crate::proposer::{
    choose_value, highest_accepted, lemma_highest_accepted, reported, ActionView, Phase,
    ProposerView,
};
use crate::quorum::{
    lemma_majorities_intersect, lemma_quorum_rule, lemma_record_wf, majority, supporters, Vote,
};
use crate::value::{PromiseView, Proposal};

verus! {

/// A proposal as it was sent out in Phase 2: its value, and the promises, by
/// position, that the proposer held when it fixed that value.
pub struct Issue {
    pub value: Seq<char>,
    pub quorum: Seq<Option<PromiseView>>,
}

/// The positions that hold a promise.
pub open spec fn holders(quorum: Seq<Option<PromiseView>>) -> Set<int> {
    Set::new(|i: int| 0 <= i < quorum.len() && quorum[i] is Some)
}

/// The acceptors of a cluster and the history of their decree.
pub struct Cluster {
    /// Each acceptor's record, by position.
    pub acceptors: Seq<PromiseRecord>,
    /// Every promise made, with the position of the acceptor that made it.
    pub promises: Set<(int, PromiseView)>,
    /// Every proposal sent out in Phase 2, by its number.
    pub issued: Map<ProposalNumber, Issue>,
    /// Every acceptance given: who accepted the proposal of which number.
    pub votes: Set<(int, ProposalNumber)>,
    /// Every value that a client has asked for.
    pub requested: Set<Seq<char>>,
}

/// What can happen in a cluster.
pub enum Step {
    /// An acceptor handles a prepare request.
    Prepare { acceptor: int, number: ProposalNumber },
    /// The proposer of round `number`, holding `promises`, fixes the round's
    /// value for a client that asked for `client`, and sends the proposal out.
    Issue { number: ProposalNumber, client: Seq<char>, promises: Seq<Option<PromiseView>> },
    /// An acceptor handles the accept request of round `number`.
    Accept { acceptor: int, number: ProposalNumber },
}

impl Cluster {
    /// A cluster of `n` acceptors before any request.
    pub open spec fn initial(n: nat) -> Cluster {
        Cluster {
            acceptors: Seq::new(n, |i: int| PromiseRecord::initial()),
            promises: Set::empty(),
            issued: Map::empty(),
            votes: Set::empty(),
            requested: Set::empty(),
        }
    }

    /// The number of acceptors.
    pub open spec fn size(self) -> nat {
        self.acceptors.len()
    }

    /// The acceptors that have accepted the proposal numbered `n`.
    pub open spec fn voters(self, n: ProposalNumber) -> Set<int> {
        Set::new(|a: int| 0 <= a < self.size() && self.votes.contains((a, n)))
    }

    /// The proposal numbered `n` was sent out and a majority has accepted it.
    pub open spec fn chosen(self, n: ProposalNumber) -> bool {
        self.issued.dom().contains(n) && self.voters(n).len() >= majority(self.size())
    }

    /// The value `v` is chosen: it is the value of a chosen proposal.
    pub open spec fn chosen_value(self, v: Seq<char>) -> bool {
        exists|n: ProposalNumber| #[trigger] self.chosen(n) && self.issued[n].value == v
    }

    /// Whether a step can happen. A prepare or accept request may reach any
    /// acceptor at any time, but an accept request only for a proposal that
    /// was sent out. A proposal is sent out once per number, by a proposer
    /// that holds promises for that number from a majority, each one made by
    /// the acceptor at its position.
    pub open spec fn enabled(self, step: Step) -> bool {
        match step {
            Step::Prepare { acceptor, number } => 0 <= acceptor < self.size(),
            Step::Issue { number, client, promises } => {
                &&& !self.issued.dom().contains(number)
                &&& promises.len() == self.size()
                &&& holders(promises).len() >= majority(self.size())
                &&& forall|i: int|
                    0 <= i < promises.len() ==> (#[trigger] promises[i] matches Some(promise)
                        ==> self.promises.contains((i, promise)) && promise.number == number)
            },
            Step::Accept { acceptor, number } => {
                &&& 0 <= acceptor < self.size()
                &&& self.issued.dom().contains(number)
            },
        }
    }

    /// The cluster after a step.
    pub open spec fn next(self, step: Step) -> Cluster {
        match step {
            Step::Prepare { acceptor, number } => {
                let record = self.acceptors[acceptor];
                match record.promise_reply(number) {
                    Ok(promise) => Cluster {
                        acceptors: self.acceptors.update(acceptor, record.promise(number)),
                        promises: self.promises.insert((acceptor, promise)),
                        ..self
                    },
                    Err(_) => self,
                }
            },
            Step::Issue { number, client, promises } => Cluster {
                issued: self.issued.insert(
                    number,
                    Issue { value: choose_value(promises, client), quorum: promises },
                ),
                requested: self.requested.insert(client),
                ..self
            },
            Step::Accept { acceptor, number } => {
                let record = self.acceptors[acceptor];
                let proposal = Proposal { number, value: self.issued[number].value };
                match record.accept_reply(proposal) {
                    Ok(_) => Cluster {
                        acceptors: self.acceptors.update(acceptor, record.accept(proposal)),
                        votes: self.votes.insert((acceptor, number)),
                        ..self
                    },
                    Err(_) => self,
                }
            },
        }
    }

    /// Whether `steps` can happen one after the other, starting here.
    pub open spec fn admits(self, steps: Seq<Step>) -> bool
        decreases steps.len(),
    {
        steps.len() == 0 || (self.admits(steps.drop_last()) && self.run(steps.drop_last()).enabled(
            steps.last(),
        ))
    }

    /// The cluster after `steps`, taken in order.
    pub open spec fn run(self, steps: Seq<Step>) -> Cluster
        decreases steps.len(),
    {
        if steps.len() == 0 {
            self
        } else {
            self.run(steps.drop_last()).next(steps.last())
        }
    }

    /// Every acceptance was given by an acceptor, to a proposal that was
    /// sent out.
    pub open spec fn votes_issued(self) -> bool {
        forall|a: int, n: ProposalNumber| #[trigger]
            self.votes.contains((a, n)) ==> 0 <= a < self.size() && self.issued.dom().contains(n)
    }

    /// Every record is well formed, and the proposal it holds was sent out
    /// with that value and accepted by that acceptor.
    pub open spec fn accepted_backed(self) -> bool {
        forall|a: int|
            0 <= a < self.size() ==> {
                &&& (#[trigger] self.acceptors[a]).wf()
                &&& self.acceptors[a].accepted matches Some(p) ==> self.votes.contains(
                    (a, p.number),
                ) && self.issued[p.number].value == p.value
            }
    }

    /// An acceptor holds the highest-numbered proposal it has accepted.
    pub open spec fn votes_bounded(self) -> bool {
        forall|a: int, n: ProposalNumber| #[trigger]
            self.votes.contains((a, n)) ==> (self.acceptors[a].accepted matches Some(p) && n.le(
                p.number,
            ))
    }

    /// The promise `promise` of acceptor `a` is kept: the acceptor's promise
    /// has not fallen below it, the proposal it reports was accepted by `a`
    /// and is numbered at or below the promise, and every acceptance that `a`
    /// has given below the promise's number is at or below the reported one.
    pub open spec fn promise_kept(self, a: int, promise: PromiseView) -> bool {
        &&& 0 <= a < self.size()
        &&& promise.number.le(self.acceptors[a].promised)
        &&& promise.accepted matches Some(p) ==> {
            &&& self.votes.contains((a, p.number))
            &&& self.issued[p.number].value == p.value
            &&& p.number.le(promise.number)
        }
        &&& forall|m: ProposalNumber| #[trigger]
            self.votes.contains((a, m)) && m.lt(promise.number) ==> (promise.accepted matches Some(
                p,
            ) && m.le(p.number))
    }

    /// Every promise made is kept.
    pub open spec fn promises_kept(self) -> bool {
        forall|a: int, promise: PromiseView| #[trigger]
            self.promises.contains((a, promise)) ==> self.promise_kept(a, promise)
    }

    /// The proposal numbered `n` rests on a majority of promises for `n`,
    /// and carries the value of the highest-numbered proposal they report,
    /// which is numbered below `n`; its value is one that a client asked for.
    pub open spec fn issue_backed(self, n: ProposalNumber, issue: Issue) -> bool {
        &&& issue.quorum.len() == self.size()
        &&& holders(issue.quorum).len() >= majority(self.size())
        &&& forall|i: int|
            0 <= i < issue.quorum.len() ==> (#[trigger] issue.quorum[i] matches Some(promise)
                ==> self.promises.contains((i, promise)) && promise.number == n)
        &&& highest_accepted(issue.quorum) matches Some(p) ==> p.number.lt(n) && issue.value
            == p.value
        &&& self.requested.contains(issue.value)
    }

    /// Every proposal sent out is backed.
    pub open spec fn issues_backed(self) -> bool {
        forall|n: ProposalNumber| #[trigger]
            self.issued.dom().contains(n) ==> self.issue_backed(n, self.issued[n])
    }

    /// What holds of every cluster that the steps can reach.
    pub open spec fn inv(self) -> bool {
        &&& self.votes_issued()
        &&& self.accepted_backed()
        &&& self.votes_bounded()
        &&& self.promises_kept()
        &&& self.issues_backed()
    }
}

/// A cluster that has seen no request satisfies the invariant.
pub proof fn lemma_initial_inv(n: nat)
    ensures
        Cluster::initial(n).inv(),
        Cluster::initial(n).size() == n,
{
}

/// A prepare request keeps the invariant.
proof fn lemma_prepare_keeps_inv(c: Cluster, acceptor: int, number: ProposalNumber)
    requires
        c.inv(),
        0 <= acceptor < c.size(),
    ensures
        c.next(Step::Prepare { acceptor, number }).inv(),
{
    let d = c.next(Step::Prepare { acceptor, number });
    let record = c.acceptors[acceptor];
    if record.admits(number) {
        let made = PromiseView { number, accepted: record.accepted };
        lemma_order_total(number, record.promised);
        assert(d.accepted_backed()) by {
            assert forall|a: int| 0 <= a < d.size() implies {
                &&& (#[trigger] d.acceptors[a]).wf()
                &&& d.acceptors[a].accepted matches Some(p) ==> d.votes.contains((a, p.number))
                    && d.issued[p.number].value == p.value
            } by {
                assert(c.acceptors[a].wf());
                if a == acceptor {
                    if let Some(p) = record.accepted {
                        lemma_order_transitive(p.number, record.promised, number);
                    }
                }
            }
        }
        assert(d.votes_bounded()) by {
            assert forall|a: int, n: ProposalNumber| #[trigger]
                d.votes.contains((a, n)) implies (d.acceptors[a].accepted matches Some(p) && n.le(
                p.number,
            )) by {
                assert(c.votes.contains((a, n)));
            }
        }
        assert(d.promises_kept()) by {
            assert forall|a: int, promise: PromiseView| #[trigger]
                d.promises.contains((a, promise)) implies d.promise_kept(a, promise) by {
                if c.promises.contains((a, promise)) {
                    assert(c.promise_kept(a, promise));
                    if a == acceptor {
                        lemma_order_transitive(promise.number, record.promised, number);
                    }
                } else {
                    assert(a == acceptor && promise == made);
                    assert(c.acceptors[a].wf());
                    if let Some(p) = record.accepted {
                        lemma_order_transitive(p.number, record.promised, number);
                    }
                    assert forall|m: ProposalNumber| #[trigger]
                        d.votes.contains((a, m)) && m.lt(promise.number) implies (
                    promise.accepted matches Some(p) && m.le(p.number)) by {
                        assert(c.votes.contains((a, m)));
                    }
                }
            }
        }
        assert(d.issues_backed()) by {
            assert forall|n: ProposalNumber| #[trigger]
                d.issued.dom().contains(n) implies d.issue_backed(n, d.issued[n]) by {
                assert(c.issue_backed(n, c.issued[n]));
            }
        }
    }
}

/// Sending a proposal out keeps the invariant.
proof fn lemma_issue_keeps_inv(
    c: Cluster,
    number: ProposalNumber,
    client: Seq<char>,
    promises: Seq<Option<PromiseView>>,
)
    requires
        c.inv(),
        c.enabled(Step::Issue { number, client, promises }),
    ensures
        c.next(Step::Issue { number, client, promises }).inv(),
{
    let d = c.next(Step::Issue { number, client, promises });
    let issue = Issue { value: choose_value(promises, client), quorum: promises };
    assert(d.votes_issued()) by {
        assert forall|a: int, n: ProposalNumber| #[trigger]
            d.votes.contains((a, n)) implies 0 <= a < d.size() && d.issued.dom().contains(n) by {
            assert(c.votes.contains((a, n)));
        }
    }
    assert(d.accepted_backed()) by {
        assert forall|a: int| 0 <= a < d.size() implies {
            &&& (#[trigger] d.acceptors[a]).wf()
            &&& d.acceptors[a].accepted matches Some(p) ==> d.votes.contains((a, p.number))
                && d.issued[p.number].value == p.value
        } by {
            assert(c.acceptors[a].wf());
            if let Some(p) = c.acceptors[a].accepted {
                assert(c.votes.contains((a, p.number)));
            }
        }
    }
    assert(d.promises_kept()) by {
        assert forall|a: int, promise: PromiseView| #[trigger]
            d.promises.contains((a, promise)) implies d.promise_kept(a, promise) by {
            assert(c.promise_kept(a, promise));
            if let Some(p) = promise.accepted {
                assert(c.votes.contains((a, p.number)));
            }
        }
    }
    assert(d.issues_backed()) by {
        assert forall|n: ProposalNumber| #[trigger]
            d.issued.dom().contains(n) implies d.issue_backed(n, d.issued[n]) by {
            if n == number {
                lemma_highest_accepted(promises);
                if let Some(p) = highest_accepted(promises) {
                    let i = choose|i: int|
                        0 <= i < promises.len() && reported(#[trigger] promises[i]) == Some(p);
                    let promise = promises[i].unwrap();
                    assert(c.promises.contains((i, promise)));
                    assert(c.promise_kept(i, promise));
                    assert(c.votes.contains((i, p.number)));
                    lemma_order_total(p.number, number);
                    assert(c.issue_backed(p.number, c.issued[p.number]));
                }
            } else {
                assert(c.issue_backed(n, c.issued[n]));
            }
        }
    }
}

/// An accept request keeps the invariant.
proof fn lemma_accept_keeps_inv(c: Cluster, acceptor: int, number: ProposalNumber)
    requires
        c.inv(),
        0 <= acceptor < c.size(),
        c.issued.dom().contains(number),
    ensures
        c.next(Step::Accept { acceptor, number }).inv(),
{
    let d = c.next(Step::Accept { acceptor, number });
    let record = c.acceptors[acceptor];
    let proposal = Proposal { number, value: c.issued[number].value };
    if record.admits(number) {
        lemma_order_total(number, record.promised);
        assert(c.acceptors[acceptor].wf());
        assert(d.votes_issued()) by {
            assert forall|a: int, n: ProposalNumber| #[trigger]
                d.votes.contains((a, n)) implies 0 <= a < d.size() && d.issued.dom().contains(
                n,
            ) by {
                if !c.votes.contains((a, n)) {
                    assert(a == acceptor && n == number);
                }
            }
        }
        assert(d.accepted_backed()) by {
            assert forall|a: int| 0 <= a < d.size() implies {
                &&& (#[trigger] d.acceptors[a]).wf()
                &&& d.acceptors[a].accepted matches Some(p) ==> d.votes.contains((a, p.number))
                    && d.issued[p.number].value == p.value
            } by {
                assert(c.acceptors[a].wf());
            }
        }
        assert(d.votes_bounded()) by {
            assert forall|a: int, n: ProposalNumber| #[trigger]
                d.votes.contains((a, n)) implies (d.acceptors[a].accepted matches Some(p) && n.le(
                p.number,
            )) by {
                if c.votes.contains((a, n)) {
                    if a == acceptor {
                        let held = record.accepted.unwrap();
                        lemma_order_transitive(n, held.number, record.promised);
                        lemma_order_transitive(n, record.promised, number);
                    }
                } else {
                    assert(a == acceptor && n == number);
                }
            }
        }
        assert(d.promises_kept()) by {
            assert forall|a: int, promise: PromiseView| #[trigger]
                d.promises.contains((a, promise)) implies d.promise_kept(a, promise) by {
                assert(c.promise_kept(a, promise));
                if a == acceptor {
                    lemma_order_transitive(promise.number, record.promised, number);
                    lemma_order_total(number, promise.number);
                    assert forall|m: ProposalNumber| #[trigger]
                        d.votes.contains((a, m)) && m.lt(promise.number) implies (
                    promise.accepted matches Some(p) && m.le(p.number)) by {
                        assert(c.votes.contains((a, m)));
                    }
                } else {
                    assert forall|m: ProposalNumber| #[trigger]
                        d.votes.contains((a, m)) && m.lt(promise.number) implies (
                    promise.accepted matches Some(p) && m.le(p.number)) by {
                        assert(c.votes.contains((a, m)));
                    }
                }
            }
        }
        assert(d.issues_backed()) by {
            assert forall|n: ProposalNumber| #[trigger]
                d.issued.dom().contains(n) implies d.issue_backed(n, d.issued[n]) by {
                assert(c.issue_backed(n, c.issued[n]));
            }
        }
    }
}

/// Every step that can happen keeps the invariant and the number of
/// acceptors.
pub proof fn lemma_step_keeps_inv(c: Cluster, step: Step)
    requires
        c.inv(),
        c.enabled(step),
    ensures
        c.next(step).inv(),
        c.next(step).size() == c.size(),
{
    match step {
        Step::Prepare { acceptor, number } => lemma_prepare_keeps_inv(c, acceptor, number),
        Step::Issue { number, client, promises } => lemma_issue_keeps_inv(
            c,
            number,
            client,
            promises,
        ),
        Step::Accept { acceptor, number } => lemma_accept_keeps_inv(c, acceptor, number),
    }
}

/// Every cluster reached from a fresh one satisfies the invariant.
pub proof fn lemma_reachable_inv(n: nat, steps: Seq<Step>)
    requires
        Cluster::initial(n).admits(steps),
    ensures
        Cluster::initial(n).run(steps).inv(),
        Cluster::initial(n).run(steps).size() == n,
    decreases steps.len(),
{
    lemma_initial_inv(n);
    if steps.len() > 0 {
        lemma_reachable_inv(n, steps.drop_last());
        lemma_step_keeps_inv(Cluster::initial(n).run(steps.drop_last()), steps.last());
    }
}

/// A proposal sent out above a chosen one carries the chosen one's value.
pub proof fn lemma_chosen_carried(c: Cluster, low: ProposalNumber, high: ProposalNumber)
    requires
        c.inv(),
        c.chosen(low),
        c.issued.dom().contains(high),
        low.lt(high),
    ensures
        c.issued[high].value == c.issued[low].value,
    decreases high.round, high.proposer,
{
    let quorum = c.issued[high].quorum;
    assert(c.issue_backed(high, c.issued[high]));
    let all = set_int_range(0, c.size() as int);
    assert(c.voters(low).subset_of(all));
    assert(holders(quorum).subset_of(all));
    let a = lemma_majorities_intersect(c.size(), c.voters(low), holders(quorum));
    let promise = quorum[a].unwrap();
    assert(c.promises.contains((a, promise)));
    assert(c.promise_kept(a, promise));
    assert(c.votes.contains((a, low)));
    let seen = promise.accepted.unwrap();
    assert(reported(quorum[a]) == Some(seen));
    lemma_highest_accepted(quorum);
    let top = highest_accepted(quorum).unwrap();
    let i = choose|i: int| 0 <= i < quorum.len() && reported(#[trigger] quorum[i]) == Some(top);
    let witness = quorum[i].unwrap();
    assert(c.promises.contains((i, witness)));
    assert(c.promise_kept(i, witness));
    assert(c.votes.contains((i, top.number)));
    lemma_order_transitive(low, seen.number, top.number);
    if low != top.number {
        lemma_chosen_carried(c, low, top.number);
    }
}

/// Agreement: in a cluster that satisfies the invariant, any two chosen
/// proposals carry the same value.
pub proof fn lemma_agreement(c: Cluster, first: ProposalNumber, second: ProposalNumber)
    requires
        c.inv(),
        c.chosen(first),
        c.chosen(second),
    ensures
        c.issued[first].value == c.issued[second].value,
{
    lemma_order_total(first, second);
    if first.lt(second) {
        lemma_chosen_carried(c, first, second);
    } else if second.lt(first) {
        lemma_chosen_carried(c, second, first);
    }
}

/// Safety: whatever steps a cluster of `n` acceptors takes, in whatever
/// order, at most one value is chosen.
pub proof fn lemma_at_most_one_value_chosen(n: nat, steps: Seq<Step>, v: Seq<char>, w: Seq<char>)
    requires
        Cluster::initial(n).admits(steps),
        Cluster::initial(n).run(steps).chosen_value(v),
        Cluster::initial(n).run(steps).chosen_value(w),
    ensures
        v == w,
{
    let c = Cluster::initial(n).run(steps);
    lemma_reachable_inv(n, steps);
    let first = choose|k: ProposalNumber| #[trigger] c.chosen(k) && c.issued[k].value == v;
    let second = choose|k: ProposalNumber| #[trigger] c.chosen(k) && c.issued[k].value == w;
    lemma_agreement(c, first, second);
}

/// Contention: when clients have asked for `v1` and `v2` only, whatever is
/// reported as chosen is one of the two, and all reports name the same one.
pub proof fn lemma_contenders_agree(
    n: nat,
    steps: Seq<Step>,
    v1: Seq<char>,
    v2: Seq<char>,
    v: Seq<char>,
    w: Seq<char>,
)
    requires
        Cluster::initial(n).admits(steps),
        forall|x: Seq<char>| #[trigger]
            Cluster::initial(n).run(steps).requested.contains(x) ==> x == v1 || x == v2,
        Cluster::initial(n).run(steps).chosen_value(v),
        Cluster::initial(n).run(steps).chosen_value(w),
    ensures
        v == w,
        v == v1 || v == v2,
{
    lemma_at_most_one_value_chosen(n, steps, v, w);
    lemma_chosen_was_requested(n, steps, v);
}

/// Validity: a chosen value is one that some client asked for.
pub proof fn lemma_chosen_was_requested(n: nat, steps: Seq<Step>, v: Seq<char>)
    requires
        Cluster::initial(n).admits(steps),
        Cluster::initial(n).run(steps).chosen_value(v),
    ensures
        Cluster::initial(n).run(steps).requested.contains(v),
{
    let c = Cluster::initial(n).run(steps);
    lemma_reachable_inv(n, steps);
    let k = choose|k: ProposalNumber| #[trigger] c.chosen(k) && c.issued[k].value == v;
    assert(c.issue_backed(k, c.issued[k]));
}

/// A proposer sends a proposal out only on the promise that completes a
/// majority in Phase 1, and is then in Phase 2 of the same round: no round
/// sends two proposals.
pub proof fn lemma_one_proposal_per_round(p: ProposerView, event: crate::proposer::EventView)
    requires
        p.wf(),
        p.step(event).1 is Broadcast,
    ensures
        p.phase == Phase::Preparing,
        event is Promised,
        p.step(event).0.phase == Phase::Accepting,
        p.step(event).0.number() == p.number(),
        p.step(event).1 == ActionView::Broadcast(
            RequestView::Accept(Proposal { number: p.number(), value: p.step(event).0.value }),
        ),
{
}

/// The proposal that a proposer sends out is one that the cluster allows:
/// when the promises the proposer holds were made by the acceptors at their
/// positions and the round's number is still unused, sending the proposal is
/// a step of the cluster, and the value sent is the value that step fixes.
pub proof fn lemma_proposer_issues(
    p: ProposerView,
    peer: crate::ballot::NodeId,
    promise: PromiseView,
    c: Cluster,
)
    requires
        p.wf(),
        p.on_promised(peer, promise).1 is Broadcast,
        c.size() == p.peers(),
        !c.issued.dom().contains(p.number()),
        forall|i: int|
            0 <= i < p.peers() ==> (#[trigger] p.on_promised(
                peer,
                promise,
            ).0.promises[i] matches Some(held) ==> c.promises.contains((i, held))),
    ensures
        ({
            let after = p.on_promised(peer, promise).0;
            let step = Step::Issue {
                number: p.number(),
                client: p.value,
                promises: after.promises,
            };
            &&& c.enabled(step)
            &&& holders(after.promises).len() == majority(p.peers())
            &&& c.next(step).issued[p.number()].value == after.value
            &&& p.on_promised(peer, promise).1 == ActionView::Broadcast(
                RequestView::Accept(Proposal { number: p.number(), value: after.value }),
            )
        }),
{
    let after = p.on_promised(peer, promise).0;
    let i = p.slot(Phase::Preparing, peer, promise.number).unwrap();
    let collector = p.collector.record(i, true);
    lemma_record_wf(p.collector, i, true);
    lemma_quorum_rule(collector);
    assert(holders(after.promises) =~= supporters(collector.votes, Vote::Positive));
}

/// What a proposer reports as chosen is chosen in the cluster: when each
/// acceptance the proposer counted was given by the acceptor at its position,
/// for the proposal that the cluster has under the round's number, that
/// proposal is chosen and the reported value is its value.
pub proof fn lemma_proposer_reports_chosen(
    p: ProposerView,
    peer: crate::ballot::NodeId,
    number: ProposalNumber,
    c: Cluster,
)
    requires
        p.wf(),
        p.on_accepted(peer, number).1 is Chosen,
        c.size() == p.peers(),
        c.issued.dom().contains(p.number()),
        c.issued[p.number()].value == p.value,
        forall|i: int|
            0 <= i < p.peers() && #[trigger] p.on_accepted(peer, number).0.collector.votes[i]
                == Vote::Positive ==> c.votes.contains((i, p.number())),
    ensures
        p.on_accepted(peer, number).1 == ActionView::Chosen(p.value),
        p.on_accepted(peer, number).0.phase == Phase::Chosen,
        c.chosen(p.number()),
        c.chosen_value(p.value),
{
    let after = p.on_accepted(peer, number).0;
    let i = p.slot(Phase::Accepting, peer, number).unwrap();
    lemma_record_wf(p.collector, i, true);
    lemma_quorum_rule(after.collector);
    crate::quorum::lemma_tally_bounded(after.collector.votes, Vote::Positive);
    assert(supporters(after.collector.votes, Vote::Positive).subset_of(c.voters(p.number())));
    vstd::set_lib::lemma_int_range(0, c.size() as int);
    assert(c.voters(p.number()).subset_of(set_int_range(0, c.size() as int)));
    vstd::set_lib::lemma_len_subset(c.voters(p.number()), set_int_range(0, c.size() as int));
    vstd::set_lib::lemma_len_subset(
        supporters(after.collector.votes, Vote::Positive),
        c.voters(p.number()),
    );
}

/// What is chosen stays chosen: no step takes an acceptance back or changes
/// a proposal that was sent out.
pub proof fn lemma_chosen_is_stable(c: Cluster, step: Step, n: ProposalNumber)
    requires
        c.enabled(step),
        c.chosen(n),
    ensures
        c.next(step).chosen(n),
        c.next(step).issued[n] == c.issued[n],
{
    let d = c.next(step);
    vstd::set_lib::lemma_int_range(0, c.size() as int);
    assert(c.voters(n).subset_of(d.voters(n)));
    assert(d.voters(n).subset_of(set_int_range(0, c.size() as int)));
    vstd::set_lib::lemma_len_subset(d.voters(n), set_int_range(0, c.size() as int));
    vstd::set_lib::lemma_len_subset(c.voters(n), d.voters(n));
}

} // verus!
