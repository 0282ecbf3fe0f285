//! The values and messages that both roles share.

use vstd::prelude::*;
use crate::ballot::ProposalNumber;

verus! {

/// A client's payload. The protocol never looks inside it.
#[derive(Debug)]
pub struct Value {
    pub value: String,
}

impl View for Value {
    type V = Seq<char>;

    open spec fn view(&self) -> Seq<char> {
        self.value@
    }
}

impl Clone for Value {
    fn clone(&self) -> (copy: Value)
        ensures
            copy@ == self@,
    {
        Value { value: self.value.clone() }
    }
}

impl PartialEq for Value {
    fn eq(&self, other: &Value) -> (b: bool) {
        self.value == other.value
    }
}

impl vstd::std_specs::cmp::PartialEqSpecImpl for Value {
    open spec fn obeys_eq_spec() -> bool {
        true
    }

    open spec fn eq_spec(&self, other: &Value) -> bool {
        self.value@ == other.value@
    }
}

impl Value {
    pub fn new(value: String) -> (v: Value)
        ensures
            v@ == value@,
    {
        Value { value }
    }

    /// Whether two values hold the same payload.
    pub fn same(&self, other: &Value) -> (b: bool)
        ensures
            b == (self@ == other@),
    {
        self.value == other.value
    }
}

/// A numbered value, as the contracts see it.
pub struct Proposal {
    pub number: ProposalNumber,
    pub value: Seq<char>,
}

/// A value under the number of the round that carries it: what an accept
/// request holds and what an acceptor remembers.
#[derive(Debug)]
pub struct Propose {
    pub number: ProposalNumber,
    pub value: Value,
}

impl View for Propose {
    type V = Proposal;

    open spec fn view(&self) -> Proposal {
        Proposal { number: self.number, value: self.value@ }
    }
}

impl Clone for Propose {
    fn clone(&self) -> (copy: Propose)
        ensures
            copy@ == self@,
    {
        Propose { number: self.number, value: self.value.clone() }
    }
}

impl Propose {
    pub fn new(number: ProposalNumber, value: Value) -> (p: Propose)
        ensures
            p@ == (Proposal { number, value: value@ }),
    {
        Propose { number, value }
    }
}

/// The view of an optional proposal.
pub open spec fn proposal_view(p: Option<Propose>) -> Option<Proposal> {
    match p {
        Some(p) => Some(p@),
        None => None,
    }
}

/// Copies an optional proposal.
pub fn copy_proposal(p: &Option<Propose>) -> (copy: Option<Propose>)
    ensures
        proposal_view(copy) == proposal_view(*p),
{
    match p {
        Some(p) => Some(p.clone()),
        None => None,
    }
}

/// An acceptor's promise, as the contracts see it.
pub struct PromiseView {
    pub number: ProposalNumber,
    pub accepted: Option<Proposal>,
}

/// An acceptor's positive answer to a prepare request: the number it now
/// holds itself to, and the proposal it had accepted before, if any.
#[derive(Debug)]
pub struct Promise {
    pub number: ProposalNumber,
    pub accepted: Option<Propose>,
}

impl View for Promise {
    type V = PromiseView;

    open spec fn view(&self) -> PromiseView {
        PromiseView { number: self.number, accepted: proposal_view(self.accepted) }
    }
}

impl Clone for Promise {
    fn clone(&self) -> (copy: Promise)
        ensures
            copy@ == self@,
    {
        Promise { number: self.number, accepted: copy_proposal(&self.accepted) }
    }
}

impl Promise {
    pub fn new(number: ProposalNumber, accepted: Option<Propose>) -> (p: Promise)
        ensures
            p@ == (PromiseView { number, accepted: proposal_view(accepted) }),
    {
        Promise { number, accepted }
    }
}

} // verus!
