//! What travels between a proposer and an acceptor.

use vstd::prelude::*;
use crate::ballot::ProposalNumber;
use crate::error::PaxosError;
use crate::value::{Promise, PromiseView, Proposal, Propose};

verus! {

/// A request, as the contracts see it.
pub enum RequestView {
    Prepare(ProposalNumber),
    Accept(Proposal),
}

/// A request to an acceptor.
#[derive(Debug)]
pub enum Request {
    /// Phase 1: promise to refuse everything below this number.
    Prepare(ProposalNumber),
    /// Phase 2: accept this proposal.
    Accept(Propose),
}

impl View for Request {
    type V = RequestView;

    open spec fn view(&self) -> RequestView {
        match *self {
            Request::Prepare(number) => RequestView::Prepare(number),
            Request::Accept(proposal) => RequestView::Accept(proposal@),
        }
    }
}

impl Clone for Request {
    fn clone(&self) -> (copy: Request)
        ensures
            copy@ == self@,
    {
        match self {
            Request::Prepare(number) => Request::Prepare(*number),
            Request::Accept(proposal) => Request::Accept(proposal.clone()),
        }
    }
}

impl Request {
    /// The number of the round that the request belongs to.
    pub fn number(&self) -> (n: ProposalNumber)
        ensures
            n == match self@ {
                RequestView::Prepare(number) => number,
                RequestView::Accept(proposal) => proposal.number,
            },
    {
        match self {
            Request::Prepare(number) => *number,
            Request::Accept(proposal) => proposal.number,
        }
    }
}

/// An acceptor's answer, as the contracts see it.
pub enum ReplyView {
    Promised(PromiseView),
    Accepted(ProposalNumber),
    Rejected(PaxosError),
}

/// An acceptor's answer to a request.
#[derive(Debug)]
pub enum Reply {
    /// The prepare request was granted.
    Promised(Promise),
    /// The proposal with this number was accepted.
    Accepted(ProposalNumber),
    /// The request was refused.
    Rejected(PaxosError),
}

impl View for Reply {
    type V = ReplyView;

    open spec fn view(&self) -> ReplyView {
        match *self {
            Reply::Promised(promise) => ReplyView::Promised(promise@),
            Reply::Accepted(number) => ReplyView::Accepted(number),
            Reply::Rejected(error) => ReplyView::Rejected(error),
        }
    }
}

impl Clone for Reply {
    fn clone(&self) -> (copy: Reply)
        ensures
            copy@ == self@,
    {
        match self {
            Reply::Promised(promise) => Reply::Promised(promise.clone()),
            Reply::Accepted(number) => Reply::Accepted(*number),
            Reply::Rejected(error) => Reply::Rejected(*error),
        }
    }
}

impl Reply {
    /// Whether the reply counts towards a majority.
    pub fn is_positive(&self) -> (b: bool)
        ensures
            b == !(self@ is Rejected),
    {
        match self {
            Reply::Rejected(_) => false,
            _ => true,
        }
    }
}

} // verus!
