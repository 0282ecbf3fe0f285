//! The acceptor: a voter that keeps the promises it made.

use vstd::prelude::*;
use crate::ballot::ProposalNumber;
use crate::config::{Config, ConfigView};
use crate::error::PaxosError;
use crate::message::{Reply, ReplyView, Request, RequestView};
use crate::value::{copy_proposal, proposal_view, Promise, PromiseView, Proposal, Propose};

verus! {

/// What an acceptor remembers about the decree: the highest number it has
/// promised, and the highest-numbered proposal it has accepted.
pub struct PromiseRecord {
    pub promised: ProposalNumber,
    pub accepted: Option<Proposal>,
}

impl PromiseRecord {
    /// The record of an acceptor that has seen no request.
    pub open spec fn initial() -> PromiseRecord {
        PromiseRecord { promised: ProposalNumber::zero(), accepted: None }
    }

    /// The accepted proposal is never numbered above the promise.
    pub open spec fn wf(self) -> bool {
        match self.accepted {
            Some(p) => p.number.le(self.promised),
            None => true,
        }
    }

    /// Whether a request numbered `n` is granted: it must not be below the
    /// promise. A prepare request that repeats the promised number is granted
    /// again, so a duplicate delivery does no harm.
    pub open spec fn admits(self, n: ProposalNumber) -> bool {
        !n.lt(self.promised)
    }

    /// The record after a prepare request numbered `n`.
    pub open spec fn promise(self, n: ProposalNumber) -> PromiseRecord {
        if self.admits(n) {
            PromiseRecord { promised: n, accepted: self.accepted }
        } else {
            self
        }
    }

    /// The answer to a prepare request numbered `n`.
    pub open spec fn promise_reply(self, n: ProposalNumber) -> Result<PromiseView, PaxosError> {
        if self.admits(n) {
            Ok(PromiseView { number: n, accepted: self.accepted })
        } else {
            Err(PaxosError::StaleProposal)
        }
    }

    /// The record after an accept request for `p`.
    pub open spec fn accept(self, p: Proposal) -> PromiseRecord {
        if self.admits(p.number) {
            PromiseRecord { promised: self.promised.max(p.number), accepted: Some(p) }
        } else {
            self
        }
    }

    /// The answer to an accept request for `p`.
    pub open spec fn accept_reply(self, p: Proposal) -> Result<ProposalNumber, PaxosError> {
        if self.admits(p.number) {
            Ok(p.number)
        } else {
            Err(PaxosError::Superseded)
        }
    }

    /// The record after any request.
    pub open spec fn handle(self, request: RequestView) -> PromiseRecord {
        match request {
            RequestView::Prepare(n) => self.promise(n),
            RequestView::Accept(p) => self.accept(p),
        }
    }

    /// The answer to any request.
    pub open spec fn reply(self, request: RequestView) -> ReplyView {
        match request {
            RequestView::Prepare(n) => match self.promise_reply(n) {
                Ok(promise) => ReplyView::Promised(promise),
                Err(e) => ReplyView::Rejected(e),
            },
            RequestView::Accept(p) => match self.accept_reply(p) {
                Ok(n) => ReplyView::Accepted(n),
                Err(e) => ReplyView::Rejected(e),
            },
        }
    }

    /// The record after a sequence of requests, handled in order.
    pub open spec fn run(self, requests: Seq<RequestView>) -> PromiseRecord
        decreases requests.len(),
    {
        if requests.len() == 0 {
            self
        } else {
            self.run(requests.drop_last()).handle(requests.last())
        }
    }
}

/// One node's acceptor for the decree.
pub struct Acceptor {
    max_id: ProposalNumber,
    accepted_propose: Option<Propose>,
    config: Config,
}

impl View for Acceptor {
    type V = PromiseRecord;

    closed spec fn view(&self) -> PromiseRecord {
        PromiseRecord { promised: self.max_id, accepted: proposal_view(self.accepted_propose) }
    }
}

impl Acceptor {
    #[verifier::type_invariant]
    spec fn inv(&self) -> bool {
        self@.wf()
    }

    /// The membership snapshot the acceptor was made with.
    pub closed spec fn membership(&self) -> ConfigView {
        self.config@
    }

    /// An acceptor that has promised and accepted nothing.
    pub fn new(config: Config) -> (acceptor: Acceptor)
        ensures
            acceptor@ == PromiseRecord::initial(),
            acceptor.membership() == config@,
    {
        Acceptor { max_id: ProposalNumber::initial(), accepted_propose: None, config }
    }

    /// The highest number promised so far.
    pub fn promised(&self) -> (n: ProposalNumber)
        ensures
            n == self@.promised,
    {
        self.max_id
    }

    /// The proposal accepted last, which is the highest-numbered one.
    pub fn accepted(&self) -> (p: Option<Propose>)
        ensures
            proposal_view(p) == self@.accepted,
            self@.wf(),
    {
        proof {
            use_type_invariant(self);
        }
        copy_proposal(&self.accepted_propose)
    }

    /// The membership snapshot the acceptor was made with.
    pub fn config(&self) -> (config: &Config)
        ensures
            config@ == self.membership(),
    {
        &self.config
    }

    /// Phase 1. A request numbered below the promise is refused as stale and
    /// changes nothing. Any other is granted: the promise moves to `number`,
    /// and the answer carries the proposal accepted so far, if any.
    pub fn handle_prepare(&mut self, number: ProposalNumber) -> (reply: Result<
        Promise,
        PaxosError,
    >)
        ensures
            final(self)@ == old(self)@.promise(number),
            final(self).membership() == old(self).membership(),
            match reply {
                Ok(promise) => old(self)@.promise_reply(number) == Ok::<PromiseView, PaxosError>(
                    promise@,
                ),
                Err(e) => old(self)@.promise_reply(number) == Err::<PromiseView, PaxosError>(e),
            },
            reply is Err <==> number.lt(old(self)@.promised),
            reply is Err ==> *final(self) == *old(self),
            old(self)@.promised.le(final(self)@.promised),
            final(self)@.wf(),
    {
        proof {
            use_type_invariant(&*self);
        }
        if number.precedes(&self.max_id) {
            return Err(PaxosError::StaleProposal);
        }
        self.max_id = number;
        Ok(Promise::new(number, copy_proposal(&self.accepted_propose)))
    }

    /// Phase 2. A proposal numbered below the promise is refused as
    /// superseded and changes nothing. Any other is accepted: it replaces the
    /// proposal held so far, and the promise rises to its number.
    pub fn handle_accept(&mut self, proposal: Propose) -> (reply: Result<
        ProposalNumber,
        PaxosError,
    >)
        ensures
            final(self)@ == old(self)@.accept(proposal@),
            final(self).membership() == old(self).membership(),
            reply == old(self)@.accept_reply(proposal@),
            reply is Err <==> proposal@.number.lt(old(self)@.promised),
            reply is Err ==> *final(self) == *old(self),
            old(self)@.promised.le(final(self)@.promised),
            final(self)@.wf(),
    {
        proof {
            use_type_invariant(&*self);
        }
        if proposal.number.precedes(&self.max_id) {
            return Err(PaxosError::Superseded);
        }
        let number = proposal.number;
        self.max_id = self.max_id.highest(number);
        self.accepted_propose = Some(proposal);
        Ok(number)
    }

    /// Handles either request and wraps the answer for the wire.
    pub fn handle(&mut self, request: Request) -> (reply: Reply)
        ensures
            final(self)@ == old(self)@.handle(request@),
            final(self).membership() == old(self).membership(),
            reply@ == old(self)@.reply(request@),
            old(self)@.promised.le(final(self)@.promised),
            final(self)@.wf(),
    {
        match request {
            Request::Prepare(number) => match self.handle_prepare(number) {
                Ok(promise) => Reply::Promised(promise),
                Err(e) => Reply::Rejected(e),
            },
            Request::Accept(proposal) => match self.handle_accept(proposal) {
                Ok(number) => Reply::Accepted(number),
                Err(e) => Reply::Rejected(e),
            },
        }
    }
}

/// A prepare request numbered below the promise is refused as stale and
/// leaves the record as it was; every other one is granted.
pub proof fn lemma_stale_prepare_refused(record: PromiseRecord, n: ProposalNumber)
    ensures
        n.lt(record.promised) ==> record.promise_reply(n) == Err::<PromiseView, PaxosError>(
            PaxosError::StaleProposal,
        ) && record.promise(n) == record,
        !n.lt(record.promised) ==> record.promise_reply(n) is Ok && record.promise(n).promised
            == n && record.promise(n).accepted == record.accepted,
{
}

/// An accept request numbered below the promise is refused as superseded
/// and leaves the record, the accepted proposal with it, as it was; every
/// other one is granted.
pub proof fn lemma_superseded_accept_refused(record: PromiseRecord, p: Proposal)
    ensures
        p.number.lt(record.promised) ==> record.accept_reply(p) == Err::<
            ProposalNumber,
            PaxosError,
        >(PaxosError::Superseded) && record.accept(p) == record,
        !p.number.lt(record.promised) ==> record.accept_reply(p) == Ok::<
            ProposalNumber,
            PaxosError,
        >(p.number) && record.accept(p).promised == p.number && record.accept(p).accepted
            == Some(p),
{
}

/// No request lowers the promise, and none breaks the record's invariant.
pub proof fn lemma_handle_monotone(record: PromiseRecord, request: RequestView)
    ensures
        record.promised.le(record.handle(request).promised),
        record.wf() ==> record.handle(request).wf(),
{
}

/// Over any sequence of prepare and accept requests to one acceptor, the
/// promise never decreases: the record after the first `i` requests holds a
/// promise no higher than the record after the first `j`, for `i <= j`.
pub proof fn lemma_promised_never_decreases(
    start: PromiseRecord,
    requests: Seq<RequestView>,
    i: int,
    j: int,
)
    requires
        0 <= i <= j <= requests.len(),
    ensures
        start.run(requests.take(i)).promised.le(start.run(requests.take(j)).promised),
    decreases j - i,
{
    if i < j {
        lemma_promised_never_decreases(start, requests, i, j - 1);
        let prefix = requests.take(j);
        assert(prefix.drop_last() =~= requests.take(j - 1));
        lemma_handle_monotone(start.run(requests.take(j - 1)), prefix.last());
        crate::ballot::lemma_order_transitive(
            start.run(requests.take(i)).promised,
            start.run(requests.take(j - 1)).promised,
            start.run(requests.take(j)).promised,
        );
    }
}

/// The record's invariant survives any sequence of requests.
pub proof fn lemma_run_preserves_wf(start: PromiseRecord, requests: Seq<RequestView>)
    requires
        start.wf(),
    ensures
        start.run(requests).wf(),
    decreases requests.len(),
{
    if requests.len() > 0 {
        lemma_run_preserves_wf(start, requests.drop_last());
        lemma_handle_monotone(start.run(requests.drop_last()), requests.last());
    }
}

/// Once a proposal has been accepted, the acceptor holds one forever, and the
/// one it holds changes only through an accept request numbered at or above
/// the promise of that moment.
pub proof fn lemma_accepted_changes_only_by_accept(record: PromiseRecord, request: RequestView)
    ensures
        record.accepted is Some ==> record.handle(request).accepted is Some,
        record.handle(request).accepted != record.accepted ==> (request matches RequestView::Accept(
            p,
        ) && record.promised.le(p.number) && record.handle(request).accepted == Some(p)),
{
}

/// Handling a request a second time right after the first changes nothing
/// more and draws the same answer: duplicate deliveries are harmless.
pub proof fn lemma_handle_idempotent(record: PromiseRecord, request: RequestView)
    ensures
        record.handle(request).handle(request) == record.handle(request),
        record.handle(request).reply(request) == record.reply(request),
{
}

} // verus!
