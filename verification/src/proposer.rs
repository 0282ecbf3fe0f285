//! The proposer: one node's attempts to get a value chosen.
//!
//! The proposer sends nothing itself. A round starts with
//! [`Proposer::prepare`], which hands back the request to broadcast; every
//! answer, failure and deadline then goes through [`Proposer::step`], which
//! says what to do next.

use vstd::prelude::*;
use crate::ballot::{NodeId, ProposalNumber, ProposalNumberGenerator};
use crate::config::{Config, ConfigView};
use crate::error::PaxosError;
use crate::message::{Reply, ReplyView, Request, RequestView};
use crate::quorum::{lemma_fresh_wf, lemma_record_wf, CollectorView, Outcome, QuorumCollector, Vote};
use crate::value::{Promise, PromiseView, Proposal, Propose, Value};

verus! {

/// Where a proposer stands in its current round.
#[derive(Clone, Copy, Debug, PartialEq, Eq, Structural)]
pub enum Phase {
    /// No round is running.
    Idle,
    /// Phase 1: prepare requests are out, promises are coming in.
    Preparing,
    /// Phase 2: accept requests are out, acceptances are coming in.
    Accepting,
    /// A majority accepted the round's proposal.
    Chosen,
}

/// Something that happened to a round, as the contracts see it.
pub enum EventView {
    Promised { peer: NodeId, promise: PromiseView },
    PrepareFailed { peer: NodeId, number: ProposalNumber },
    Accepted { peer: NodeId, number: ProposalNumber },
    AcceptFailed { peer: NodeId, number: ProposalNumber },
    TimedOut { number: ProposalNumber },
}

/// Something that happened to a round. Every event names the round it
/// belongs to, so that what is left over from an earlier round is told apart.
#[derive(Debug)]
pub enum Event {
    /// `peer` granted the prepare request.
    Promised { peer: NodeId, promise: Promise },
    /// `peer` refused the prepare request numbered `number`, or did not
    /// answer it.
    PrepareFailed { peer: NodeId, number: ProposalNumber },
    /// `peer` accepted the proposal numbered `number`.
    Accepted { peer: NodeId, number: ProposalNumber },
    /// `peer` refused the proposal numbered `number`, or did not answer.
    AcceptFailed { peer: NodeId, number: ProposalNumber },
    /// The deadline of the round numbered `number` has passed.
    TimedOut { number: ProposalNumber },
}

impl View for Event {
    type V = EventView;

    open spec fn view(&self) -> EventView {
        match *self {
            Event::Promised { peer, promise } => EventView::Promised { peer, promise: promise@ },
            Event::PrepareFailed { peer, number } => EventView::PrepareFailed { peer, number },
            Event::Accepted { peer, number } => EventView::Accepted { peer, number },
            Event::AcceptFailed { peer, number } => EventView::AcceptFailed { peer, number },
            Event::TimedOut { number } => EventView::TimedOut { number },
        }
    }
}

/// The event that an answer amounts to: `None` stands for no answer.
pub open spec fn event_of(peer: NodeId, request: RequestView, reply: Option<ReplyView>) -> EventView {
    match request {
        RequestView::Prepare(number) => match reply {
            Some(ReplyView::Promised(promise)) if promise.number == number => EventView::Promised {
                peer,
                promise,
            },
            _ => EventView::PrepareFailed { peer, number },
        },
        RequestView::Accept(proposal) => match reply {
            Some(ReplyView::Accepted(number)) if number == proposal.number => EventView::Accepted {
                peer,
                number,
            },
            _ => EventView::AcceptFailed { peer, number: proposal.number },
        },
    }
}

/// The view of an answer that may be missing.
pub open spec fn reply_view(reply: Option<Reply>) -> Option<ReplyView> {
    match reply {
        Some(reply) => Some(reply@),
        None => None,
    }
}

impl Event {
    /// Turns what came back from `peer` for `request` into an event: `None`
    /// stands for a peer that could not be reached or did not answer in time.
    /// A refusal, no answer, and an answer that does not fit the request all
    /// count as failures of that request.
    pub fn from_reply(peer: NodeId, request: &Request, reply: Option<Reply>) -> (event: Event)
        ensures
            event@ == event_of(peer, request@, reply_view(reply)),
    {
        match request {
            Request::Prepare(number) => match reply {
                Some(Reply::Promised(promise)) => {
                    if promise.number == *number {
                        Event::Promised { peer, promise }
                    } else {
                        Event::PrepareFailed { peer, number: *number }
                    }
                },
                _ => Event::PrepareFailed { peer, number: *number },
            },
            Request::Accept(proposal) => match reply {
                Some(Reply::Accepted(number)) => {
                    if number == proposal.number {
                        Event::Accepted { peer, number }
                    } else {
                        Event::AcceptFailed { peer, number: proposal.number }
                    }
                },
                _ => Event::AcceptFailed { peer, number: proposal.number },
            },
        }
    }

    /// The number of the round that the event belongs to.
    pub fn number(&self) -> (n: ProposalNumber)
        ensures
            n == match self@ {
                EventView::Promised { promise, .. } => promise.number,
                EventView::PrepareFailed { number, .. } => number,
                EventView::Accepted { number, .. } => number,
                EventView::AcceptFailed { number, .. } => number,
                EventView::TimedOut { number } => number,
            },
    {
        match self {
            Event::Promised { promise, .. } => promise.number,
            Event::PrepareFailed { number, .. } => *number,
            Event::Accepted { number, .. } => *number,
            Event::AcceptFailed { number, .. } => *number,
            Event::TimedOut { number } => *number,
        }
    }
}

/// What a proposer asks of its node, as the contracts see it.
pub enum ActionView {
    Wait,
    Broadcast(RequestView),
    Chosen(Seq<char>),
    Aborted(PaxosError),
}

/// What a proposer asks of its node after an event.
#[derive(Debug)]
pub enum Action {
    /// Nothing yet: keep waiting for answers.
    Wait,
    /// Send this request to every acceptor and feed the answers back.
    Broadcast(Request),
    /// The decree is chosen, with this value. It need not be the value the
    /// client asked for.
    Chosen(Value),
    /// The round is given up. A new one may be started.
    Aborted(PaxosError),
}

impl View for Action {
    type V = ActionView;

    open spec fn view(&self) -> ActionView {
        match *self {
            Action::Wait => ActionView::Wait,
            Action::Broadcast(request) => ActionView::Broadcast(request@),
            Action::Chosen(value) => ActionView::Chosen(value@),
            Action::Aborted(error) => ActionView::Aborted(error),
        }
    }
}

/// The promises of a round, by the position of the peer that made them.
pub open spec fn promises_view(promises: Seq<Option<Promise>>) -> Seq<Option<PromiseView>> {
    Seq::new(
        promises.len(),
        |i: int|
            match promises[i] {
                Some(promise) => Some(promise@),
                None => None,
            },
    )
}

/// The proposal that a promise reports as accepted, if the promise is there
/// and reports one.
pub open spec fn reported(promise: Option<PromiseView>) -> Option<Proposal> {
    match promise {
        Some(promise) => promise.accepted,
        None => None,
    }
}

/// The highest-numbered proposal that any of the promises reports, the
/// earliest such where several carry that number.
pub open spec fn highest_accepted(promises: Seq<Option<PromiseView>>) -> Option<Proposal>
    decreases promises.len(),
{
    if promises.len() == 0 {
        None
    } else {
        let before = highest_accepted(promises.drop_last());
        match (before, reported(promises.last())) {
            (Some(p), Some(q)) => if p.number.lt(q.number) {
                Some(q)
            } else {
                Some(p)
            },
            (None, Some(q)) => Some(q),
            (_, None) => before,
        }
    }
}

/// The value that Phase 2 must carry: that of the highest-numbered proposal
/// reported by the promises, or the client's own where none was reported.
pub open spec fn choose_value(promises: Seq<Option<PromiseView>>, client: Seq<char>) -> Seq<char> {
    match highest_accepted(promises) {
        Some(p) => p.value,
        None => client,
    }
}

/// What [`highest_accepted`] finds: nothing exactly when no promise reports
/// a proposal; otherwise a proposal that some promise reports, numbered at
/// or above every other reported one.
pub proof fn lemma_highest_accepted(promises: Seq<Option<PromiseView>>)
    ensures
        highest_accepted(promises) is None <==> forall|i: int|
            0 <= i < promises.len() ==> reported(#[trigger] promises[i]) is None,
        highest_accepted(promises) matches Some(p) ==> {
            &&& exists|i: int|
                0 <= i < promises.len() && reported(#[trigger] promises[i]) == Some(p)
            &&& forall|i: int|
                0 <= i < promises.len() ==> (reported(#[trigger] promises[i]) matches Some(q)
                    ==> q.number.le(p.number))
        },
    decreases promises.len(),
{
    if promises.len() > 0 {
        let front = promises.drop_last();
        lemma_highest_accepted(front);
        assert(forall|i: int| 0 <= i < front.len() ==> front[i] == promises[i]);
        let last = promises.len() - 1;
        match highest_accepted(promises) {
            Some(p) => {
                if reported(promises[last]) == Some(p) {
                } else {
                    let i = choose|i: int|
                        0 <= i < front.len() && reported(#[trigger] front[i]) == Some(p);
                    assert(reported(promises[i]) == Some(p));
                }
                assert forall|i: int| 0 <= i < promises.len() implies (reported(
                    #[trigger] promises[i],
                ) matches Some(q) ==> q.number.le(p.number)) by {
                    if i < last {
                        assert(front[i] == promises[i]);
                        if let Some(q) = reported(front[i]) {
                            let h = highest_accepted(front).unwrap();
                            crate::ballot::lemma_order_transitive(q.number, h.number, p.number);
                        }
                    }
                }
            },
            None => {
                assert forall|i: int| 0 <= i < promises.len() implies reported(
                    #[trigger] promises[i],
                ) is None by {
                    if i < last {
                        assert(front[i] == promises[i]);
                    }
                }
            },
        }
    }
}

/// A proposer, as the contracts see it.
pub struct ProposerView {
    /// The membership snapshot, which names the proposer itself.
    pub config: ConfigView,
    /// The rounds started so far, which is also the round of the current number.
    pub round: usize,
    pub phase: Phase,
    /// The value in hand: the client's while preparing, the one carried
    /// forward while accepting and once chosen.
    pub value: Seq<char>,
    /// The current round's promises, by the position of the peer.
    pub promises: Seq<Option<PromiseView>>,
    /// The answers to the current phase's request.
    pub collector: CollectorView,
}

impl ProposerView {
    /// The number of the current round.
    pub open spec fn number(self) -> ProposalNumber {
        ProposalNumber { round: self.round, proposer: self.config.id }
    }

    /// The number of acceptors.
    pub open spec fn peers(self) -> nat {
        self.config.nodes.len()
    }

    /// A collection with no answers, and no promises either.
    pub open spec fn no_promises(self) -> Seq<Option<PromiseView>> {
        Seq::new(self.peers(), |i: int| None)
    }

    /// A proposer that has started no round.
    pub open spec fn initial(config: ConfigView) -> ProposerView {
        ProposerView {
            config,
            round: 0,
            phase: Phase::Idle,
            value: Seq::empty(),
            promises: Seq::new(config.nodes.len(), |i: int| None),
            collector: CollectorView::fresh(config.nodes.len()),
        }
    }

    pub open spec fn wf(self) -> bool {
        &&& self.collector.wf()
        &&& self.collector.votes.len() == self.peers()
        &&& self.promises.len() == self.peers()
        &&& forall|i: int|
            0 <= i < self.promises.len() ==> (#[trigger] self.promises[i] matches Some(promise)
                ==> promise.number == self.number())
        &&& self.phase != Phase::Idle ==> self.round >= 1
        &&& self.phase == Phase::Preparing ==> {
            &&& self.collector.outcome == Outcome::Pending
            &&& forall|i: int|
                0 <= i < self.promises.len() ==> (#[trigger] self.promises[i] is Some
                    <==> self.collector.votes[i] == Vote::Positive)
        }
        &&& self.phase == Phase::Accepting ==> self.collector.outcome == Outcome::Pending
        &&& self.phase == Phase::Chosen ==> self.collector.outcome == Outcome::Success
    }

    /// The proposer after a new round is started for `value`.
    pub open spec fn start(self, value: Seq<char>) -> ProposerView {
        ProposerView {
            round: (self.round + 1) as usize,
            phase: Phase::Preparing,
            value,
            promises: self.no_promises(),
            collector: CollectorView::fresh(self.peers()),
            ..self
        }
    }

    /// The position of `peer`, if an answer from it to the request of
    /// `phase` in round `number` still counts: that round is under way and in
    /// that phase, the peer is a member, and it has not answered before.
    pub open spec fn slot(self, phase: Phase, peer: NodeId, number: ProposalNumber) -> Option<int> {
        if self.phase == phase && self.running(number) {
            match self.config.position(peer) {
                Some(i) => if self.collector.counts(i) {
                    Some(i)
                } else {
                    None
                },
                None => None,
            }
        } else {
            None
        }
    }

    /// A promise came in. With it a majority may be complete: then the value
    /// to carry is fixed and Phase 2 begins.
    pub open spec fn on_promised(self, peer: NodeId, promise: PromiseView) -> (
        ProposerView,
        ActionView,
    ) {
        match self.slot(Phase::Preparing, peer, promise.number) {
            Some(i) => {
                let promises = self.promises.update(i, Some(promise));
                let collector = self.collector.record(i, true);
                if collector.outcome == Outcome::Success {
                    let value = choose_value(promises, self.value);
                    (
                        ProposerView {
                            phase: Phase::Accepting,
                            value,
                            promises,
                            collector: CollectorView::fresh(self.peers()),
                            ..self
                        },
                        ActionView::Broadcast(
                            RequestView::Accept(Proposal { number: self.number(), value }),
                        ),
                    )
                } else {
                    (ProposerView { promises, collector, ..self }, ActionView::Wait)
                }
            },
            None => (self, ActionView::Wait),
        }
    }

    /// An acceptance came in. With it a majority may be complete: then the
    /// decree is chosen.
    pub open spec fn on_accepted(self, peer: NodeId, number: ProposalNumber) -> (
        ProposerView,
        ActionView,
    ) {
        match self.slot(Phase::Accepting, peer, number) {
            Some(i) => {
                let collector = self.collector.record(i, true);
                if collector.outcome == Outcome::Success {
                    (
                        ProposerView { phase: Phase::Chosen, collector, ..self },
                        ActionView::Chosen(self.value),
                    )
                } else {
                    (ProposerView { collector, ..self }, ActionView::Wait)
                }
            },
            None => (self, ActionView::Wait),
        }
    }

    /// A peer refused the request of `phase`, or did not answer it. With it
    /// more than half may have failed: then the round is given up.
    pub open spec fn on_failed(self, phase: Phase, peer: NodeId, number: ProposalNumber) -> (
        ProposerView,
        ActionView,
    ) {
        match self.slot(phase, peer, number) {
            Some(i) => {
                let collector = self.collector.record(i, false);
                if collector.outcome is Failure {
                    (
                        ProposerView { phase: Phase::Idle, collector, ..self },
                        ActionView::Aborted(PaxosError::QuorumUnreachable),
                    )
                } else {
                    (ProposerView { collector, ..self }, ActionView::Wait)
                }
            },
            None => (self, ActionView::Wait),
        }
    }

    /// Whether a round numbered `number` is under way.
    pub open spec fn running(self, number: ProposalNumber) -> bool {
        (self.phase == Phase::Preparing || self.phase == Phase::Accepting) && number
            == self.number()
    }

    /// The deadline of round `number` passed: if that round is still under
    /// way, it is given up.
    pub open spec fn on_timed_out(self, number: ProposalNumber) -> (ProposerView, ActionView) {
        if self.running(number) {
            (
                ProposerView { phase: Phase::Idle, collector: self.collector.expire(), ..self },
                ActionView::Aborted(PaxosError::Timeout),
            )
        } else {
            (self, ActionView::Wait)
        }
    }

    /// The proposer after an event, and what it asks for.
    pub open spec fn step(self, event: EventView) -> (ProposerView, ActionView) {
        match event {
            EventView::Promised { peer, promise } => self.on_promised(peer, promise),
            EventView::PrepareFailed { peer, number } => self.on_failed(
                Phase::Preparing,
                peer,
                number,
            ),
            EventView::Accepted { peer, number } => self.on_accepted(peer, number),
            EventView::AcceptFailed { peer, number } => self.on_failed(
                Phase::Accepting,
                peer,
                number,
            ),
            EventView::TimedOut { number } => self.on_timed_out(number),
        }
    }
}

/// Starting a round keeps a proposer well formed and moves it to a number
/// strictly above the one before.
pub proof fn lemma_start_wf(p: ProposerView, value: Seq<char>)
    requires
        p.wf(),
        p.round < usize::MAX,
    ensures
        p.start(value).wf(),
        p.number().lt(p.start(value).number()),
        p.start(value).phase == Phase::Preparing,
{
    lemma_fresh_wf(p.peers());
}

/// No event breaks a well-formed proposer, moves it to another round or
/// changes its membership.
pub proof fn lemma_step_wf(p: ProposerView, event: EventView)
    requires
        p.wf(),
    ensures
        p.step(event).0.wf(),
        p.step(event).0.round == p.round,
        p.step(event).0.config == p.config,
{
    lemma_fresh_wf(p.peers());
    match event {
        EventView::Promised { peer, promise } => {
            if let Some(i) = p.slot(Phase::Preparing, peer, promise.number) {
                lemma_record_wf(p.collector, i, true);
            }
        },
        EventView::PrepareFailed { peer, number } => {
            if let Some(i) = p.slot(Phase::Preparing, peer, number) {
                lemma_record_wf(p.collector, i, false);
            }
        },
        EventView::Accepted { peer, number } => {
            if let Some(i) = p.slot(Phase::Accepting, peer, number) {
                lemma_record_wf(p.collector, i, true);
            }
        },
        EventView::AcceptFailed { peer, number } => {
            if let Some(i) = p.slot(Phase::Accepting, peer, number) {
                lemma_record_wf(p.collector, i, false);
            }
        },
        EventView::TimedOut { number } => {},
    }
}

/// What a proposer is given: a value to start a round for, or an event.
pub enum Input {
    Start(Seq<char>),
    Event(EventView),
}

impl ProposerView {
    /// Whether the proposer can take `input`: a round can be started while
    /// the round counter has room, and an event can always be taken.
    pub open spec fn takes(self, input: Input) -> bool {
        input is Start ==> self.round < usize::MAX
    }

    /// The proposer after `input`, and what it asks for.
    pub open spec fn feed(self, input: Input) -> (ProposerView, ActionView) {
        match input {
            Input::Start(value) => (
                self.start(value),
                ActionView::Broadcast(RequestView::Prepare(self.start(value).number())),
            ),
            Input::Event(event) => self.step(event),
        }
    }

    /// Whether the proposer can take `inputs` one after the other.
    pub open spec fn takes_all(self, inputs: Seq<Input>) -> bool
        decreases inputs.len(),
    {
        inputs.len() == 0 || (self.takes_all(inputs.drop_last()) && self.run(
            inputs.drop_last(),
        ).takes(inputs.last()))
    }

    /// The proposer after `inputs`, taken in order.
    pub open spec fn run(self, inputs: Seq<Input>) -> ProposerView
        decreases inputs.len(),
    {
        if inputs.len() == 0 {
            self
        } else {
            self.run(inputs.drop_last()).feed(inputs.last()).0
        }
    }

    /// The proposals that the proposer sends out over `inputs`, in order.
    pub open spec fn sent(self, inputs: Seq<Input>) -> Seq<Proposal>
        decreases inputs.len(),
    {
        if inputs.len() == 0 {
            Seq::empty()
        } else {
            let earlier = self.sent(inputs.drop_last());
            match self.run(inputs.drop_last()).feed(inputs.last()).1 {
                ActionView::Broadcast(RequestView::Accept(proposal)) => earlier.push(proposal),
                _ => earlier,
            }
        }
    }
}

/// Over any inputs a proposer stays well formed, and every proposal it has
/// sent is numbered at or below its current number, strictly below while it
/// is in Phase 1 of a round.
pub proof fn lemma_sent_numbers_bounded(p: ProposerView, inputs: Seq<Input>)
    requires
        p.wf(),
        p.takes_all(inputs),
    ensures
        p.run(inputs).wf(),
        p.run(inputs).config == p.config,
        forall|i: int|
            0 <= i < p.sent(inputs).len() ==> (#[trigger] p.sent(inputs)[i]).number.le(
                p.run(inputs).number(),
            ),
        p.run(inputs).phase == Phase::Preparing ==> forall|i: int|
            0 <= i < p.sent(inputs).len() ==> (#[trigger] p.sent(inputs)[i]).number.lt(
                p.run(inputs).number(),
            ),
    decreases inputs.len(),
{
    if inputs.len() > 0 {
        let front = inputs.drop_last();
        lemma_sent_numbers_bounded(p, front);
        let before = p.run(front);
        let after = p.run(inputs);
        let earlier = p.sent(front);
        let sent = p.sent(inputs);
        match inputs.last() {
            Input::Start(value) => {
                lemma_start_wf(before, value);
                assert(sent == earlier);
                assert forall|i: int| 0 <= i < sent.len() implies (#[trigger] sent[i]).number.lt(
                    after.number(),
                ) by {
                    crate::ballot::lemma_order_transitive(
                        earlier[i].number,
                        before.number(),
                        after.number(),
                    );
                }
            },
            Input::Event(event) => {
                lemma_step_wf(before, event);
                assert(after.number() == before.number());
                assert(after.phase == Phase::Preparing ==> before.phase == Phase::Preparing);
                match before.step(event).1 {
                    ActionView::Broadcast(RequestView::Accept(proposal)) => {
                        assert(sent == earlier.push(proposal));
                        assert(before.phase == Phase::Preparing);
                        assert(proposal.number == before.number());
                        assert(after.phase == Phase::Accepting);
                        assert forall|i: int| 0 <= i < sent.len() implies (
                        #[trigger] sent[i]).number.le(after.number()) by {
                            if i < earlier.len() {
                                assert(sent[i] == earlier[i]);
                            }
                        }
                    },
                    _ => {
                        assert(sent == earlier);
                    },
                }
            },
        }
    }
}

/// A proposer never sends two proposals under one number: over any inputs,
/// the proposals it sends out are numbered in strictly increasing order.
pub proof fn lemma_sent_numbers_increase(p: ProposerView, inputs: Seq<Input>, i: int, j: int)
    requires
        p.wf(),
        p.takes_all(inputs),
        0 <= i < j < p.sent(inputs).len(),
    ensures
        p.sent(inputs)[i].number.lt(p.sent(inputs)[j].number),
    decreases inputs.len(),
{
    let front = inputs.drop_last();
    lemma_sent_numbers_bounded(p, front);
    if j < p.sent(front).len() {
        lemma_sent_numbers_increase(p, front, i, j);
    }
}

/// Fixes the value that Phase 2 carries: the value of the highest-numbered
/// proposal that the promises report, or the client's where they report none.
pub fn carried_value(promises: &Vec<Option<Promise>>, client: &Value) -> (value: Value)
    ensures
        value@ == choose_value(promises_view(promises@), client@),
{
    let ghost all = promises_view(promises@);
    let mut best: Option<usize> = None;
    let mut i: usize = 0;
    while i < promises.len()
        invariant
            i <= promises.len(),
            all == promises_view(promises@),
            match best {
                Some(b) => b < i && reported(all[b as int]) is Some && highest_accepted(
                    all.take(i as int),
                ) == reported(all[b as int]),
                None => highest_accepted(all.take(i as int)) is None,
            },
        decreases promises.len() - i,
    {
        proof {
            assert(all.take(i + 1).drop_last() =~= all.take(i as int));
            assert(all.take(i + 1).last() == all[i as int]);
        }
        if let Some(promise) = &promises[i] {
            if let Some(proposal) = &promise.accepted {
                let better = match best {
                    Some(b) => match &promises[b] {
                        Some(held) => match &held.accepted {
                            Some(leader) => leader.number.precedes(&proposal.number),
                            None => true,
                        },
                        None => true,
                    },
                    None => true,
                };
                if better {
                    best = Some(i);
                }
            }
        }
        i = i + 1;
    }
    proof {
        assert(all.take(promises.len() as int) =~= all);
    }
    match best {
        Some(b) => match &promises[b] {
            Some(held) => match &held.accepted {
                Some(leader) => leader.value.clone(),
                None => client.clone(),
            },
            None => client.clone(),
        },
        None => client.clone(),
    }
}

/// An empty slot for each of `peers` peers.
fn empty_slots(peers: usize) -> (slots: Vec<Option<Promise>>)
    ensures
        promises_view(slots@) == Seq::new(peers as nat, |i: int| None::<PromiseView>),
{
    let mut slots: Vec<Option<Promise>> = Vec::new();
    let mut i: usize = 0;
    while i < peers
        invariant
            i <= peers,
            slots.len() == i,
            forall|j: int| 0 <= j < i ==> slots@[j] is None,
        decreases peers - i,
    {
        slots.push(None);
        i = i + 1;
    }
    assert(promises_view(slots@) =~= Seq::new(peers as nat, |i: int| None::<PromiseView>));
    slots
}

/// One node's proposer for the decree.
pub struct Proposer {
    numbers: ProposalNumberGenerator,
    config: Config,
    promises: Vec<Option<Promise>>,
    phase: Phase,
    value: Value,
    collector: QuorumCollector,
}

impl View for Proposer {
    type V = ProposerView;

    closed spec fn view(&self) -> ProposerView {
        ProposerView {
            config: self.config@,
            round: self.numbers.last_round(),
            phase: self.phase,
            value: self.value@,
            promises: promises_view(self.promises@),
            collector: self.collector@,
        }
    }
}

impl Proposer {
    /// The invariant of a proposer, which every function here keeps: its
    /// view is well formed, and the numbers it mints carry its own id.
    pub closed spec fn wf(&self) -> bool {
        self@.wf() && self.numbers.owner() == self.config.id
    }

    /// A well-formed proposer has a well-formed view.
    pub proof fn lemma_wf_view(&self)
        requires
            self.wf(),
        ensures
            self@.wf(),
    {
    }

    /// A proposer that has started no round, for the node that `config`
    /// names as its holder.
    pub fn new(config: Config) -> (proposer: Proposer)
        ensures
            proposer@ == ProposerView::initial(config@),
            proposer.wf(),
    {
        let peers = config.size();
        let proposer = Proposer {
            numbers: ProposalNumberGenerator::new(config.id),
            promises: empty_slots(peers),
            phase: Phase::Idle,
            value: Value::new(String::new()),
            collector: QuorumCollector::new(peers),
            config,
        };
        proof {
            lemma_fresh_wf(peers as nat);
            assert(proposer@.value =~= Seq::<char>::empty());
        }
        proposer
    }

    /// Where the proposer stands.
    pub fn phase(&self) -> (phase: Phase)
        ensures
            phase == self@.phase,
    {
        self.phase
    }

    /// The number of the current round: the last one started.
    pub fn number(&self) -> (n: ProposalNumber)
        ensures
            n == self@.number(),
    {
        ProposalNumber::new(self.numbers.current_round(), self.config.id)
    }

    /// The value in hand.
    pub fn value(&self) -> (value: &Value)
        ensures
            value@ == self@.value,
    {
        &self.value
    }

    /// The membership snapshot the proposer was made with.
    pub fn config(&self) -> (config: &Config)
        ensures
            config@ == self@.config,
    {
        &self.config
    }

    /// Whether another round can be started: the round counter has room.
    pub fn can_prepare(&self) -> (b: bool)
        ensures
            b == (self@.round < usize::MAX),
    {
        !self.numbers.exhausted()
    }

    /// Starts a round for the client's `value`, giving up any round under
    /// way: mints a number one round above the last and returns the prepare
    /// request to broadcast to every acceptor.
    pub fn prepare(&mut self, value: String) -> (request: Request)
        requires
            old(self).wf(),
            old(self)@.round < usize::MAX,
        ensures
            final(self)@ == old(self)@.start(value@),
            final(self).wf(),
            request@ == RequestView::Prepare(final(self)@.number()),
            old(self)@.number().lt(final(self)@.number()),
    {
        proof {
            lemma_start_wf(self@, value@);
        }
        let peers = self.config.size();
        let number = self.numbers.mint();
        self.phase = Phase::Preparing;
        self.value = Value::new(value);
        self.promises = empty_slots(peers);
        self.collector = QuorumCollector::new(peers);
        Request::Prepare(number)
    }

    /// The position of `peer`, if its answer to the request of `phase` in
    /// round `number` still counts.
    fn slot(&self, phase: Phase, peer: NodeId, number: ProposalNumber) -> (slot: Option<usize>)
        requires
            self.wf(),
        ensures
            match slot {
                Some(i) => self@.slot(phase, peer, number) == Some(i as int) && i
                    < self.promises.len(),
                None => self@.slot(phase, peer, number) is None,
            },
    {
        if self.phase != phase || number != self.number() {
            return None;
        }
        if phase != Phase::Preparing && phase != Phase::Accepting {
            return None;
        }
        match self.config.index_of(peer) {
            Some(i) => {
                if self.collector.outcome() == Outcome::Pending && self.collector.vote_of(i)
                    == Some(Vote::Pending) {
                    Some(i)
                } else {
                    None
                }
            },
            None => None,
        }
    }

    /// Takes in a promise. A promise for another round, from a stranger,
    /// from a peer that has answered, or outside Phase 1 is dropped. The one
    /// that completes a majority fixes the value to carry, and the accept
    /// request for it is handed back for broadcast.
    pub fn on_promised(&mut self, peer: NodeId, promise: Promise) -> (action: Action)
        requires
            old(self).wf(),
        ensures
            final(self)@ == old(self)@.on_promised(peer, promise@).0,
            action@ == old(self)@.on_promised(peer, promise@).1,
            final(self).wf(),
    {
        proof {
            lemma_step_wf(self@, EventView::Promised { peer, promise: promise@ });
        }
        match self.slot(Phase::Preparing, peer, promise.number) {
            Some(i) => {
                let ghost before = self@;
                self.promises[i] = Some(promise);
                assert(promises_view(self.promises@) =~= before.promises.update(
                    i as int,
                    Some(promise@),
                ));
                let outcome = self.collector.record(i, true);
                if outcome == Outcome::Success {
                    let value = carried_value(&self.promises, &self.value);
                    let proposal = Propose::new(self.number(), value.clone());
                    self.value = value;
                    self.phase = Phase::Accepting;
                    self.collector = QuorumCollector::new(self.config.size());
                    Action::Broadcast(Request::Accept(proposal))
                } else {
                    Action::Wait
                }
            },
            None => Action::Wait,
        }
    }

    /// Takes in an acceptance. One for another round, from a stranger, from
    /// a peer that has answered, or outside Phase 2 is dropped. The one that
    /// completes a majority makes the decree chosen.
    pub fn on_accepted(&mut self, peer: NodeId, number: ProposalNumber) -> (action: Action)
        requires
            old(self).wf(),
        ensures
            final(self)@ == old(self)@.on_accepted(peer, number).0,
            action@ == old(self)@.on_accepted(peer, number).1,
            final(self).wf(),
    {
        proof {
            lemma_step_wf(self@, EventView::Accepted { peer, number });
        }
        match self.slot(Phase::Accepting, peer, number) {
            Some(i) => {
                let outcome = self.collector.record(i, true);
                if outcome == Outcome::Success {
                    self.phase = Phase::Chosen;
                    Action::Chosen(self.value.clone())
                } else {
                    Action::Wait
                }
            },
            None => Action::Wait,
        }
    }

    /// Takes in a refusal of the request of `phase`, or the news that a peer
    /// did not answer it. Once more than half have failed the round is given
    /// up as out of reach of a quorum.
    pub fn on_failed(&mut self, phase: Phase, peer: NodeId, number: ProposalNumber) -> (action:
        Action)
        requires
            old(self).wf(),
        ensures
            final(self)@ == old(self)@.on_failed(phase, peer, number).0,
            action@ == old(self)@.on_failed(phase, peer, number).1,
            final(self).wf(),
    {
        proof {
            if phase == Phase::Preparing {
                lemma_step_wf(self@, EventView::PrepareFailed { peer, number });
            } else if phase == Phase::Accepting {
                lemma_step_wf(self@, EventView::AcceptFailed { peer, number });
            }
        }
        match self.slot(phase, peer, number) {
            Some(i) => {
                let outcome = self.collector.record(i, false);
                match outcome {
                    Outcome::Failure(_) => {
                        self.phase = Phase::Idle;
                        Action::Aborted(PaxosError::QuorumUnreachable)
                    },
                    _ => Action::Wait,
                }
            },
            None => Action::Wait,
        }
    }

    /// Takes in the passing of round `number`'s deadline. If that round is
    /// still under way it is given up; otherwise nothing happens.
    pub fn on_timed_out(&mut self, number: ProposalNumber) -> (action: Action)
        requires
            old(self).wf(),
        ensures
            final(self)@ == old(self)@.on_timed_out(number).0,
            action@ == old(self)@.on_timed_out(number).1,
            final(self).wf(),
    {
        proof {
            lemma_step_wf(self@, EventView::TimedOut { number });
        }
        if (self.phase == Phase::Preparing || self.phase == Phase::Accepting) && number
            == self.number() {
            self.collector.expire();
            self.phase = Phase::Idle;
            Action::Aborted(PaxosError::Timeout)
        } else {
            Action::Wait
        }
    }

    /// Takes in any event and says what to do next.
    pub fn step(&mut self, event: Event) -> (action: Action)
        requires
            old(self).wf(),
        ensures
            final(self)@ == old(self)@.step(event@).0,
            action@ == old(self)@.step(event@).1,
            final(self).wf(),
    {
        match event {
            Event::Promised { peer, promise } => self.on_promised(peer, promise),
            Event::PrepareFailed { peer, number } => self.on_failed(Phase::Preparing, peer, number),
            Event::Accepted { peer, number } => self.on_accepted(peer, number),
            Event::AcceptFailed { peer, number } => self.on_failed(Phase::Accepting, peer, number),
            Event::TimedOut { number } => self.on_timed_out(number),
        }
    }
}

} // verus!
