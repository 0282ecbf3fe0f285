//! The ways a round can fail.

use vstd::prelude::*;

verus! {

/// Why a request was refused or a round was given up. None of these is fatal:
/// a proposer may always try again with a higher number.
#[derive(Clone, Copy, Debug, PartialEq, Eq, Structural)]
pub enum PaxosError {
    /// A prepare request carried a number below the acceptor's promise.
    StaleProposal,
    /// An accept request arrived after the acceptor promised a higher number.
    Superseded,
    /// Too many peers refused or could not be reached for a majority to form.
    QuorumUnreachable,
    /// The round's deadline passed before a majority answered either way.
    Timeout,
}

impl PaxosError {
    /// A short description, for logs and replies.
    pub fn describe(&self) -> (s: &'static str)
        ensures
            s@ == match *self {
                PaxosError::StaleProposal => "stale proposal: a higher number was already promised"@,
                PaxosError::Superseded => "superseded: a higher number was promised since"@,
                PaxosError::QuorumUnreachable => "quorum unreachable: a majority refused or did not answer"@,
                PaxosError::Timeout => "timeout: no majority before the deadline"@,
            },
    {
        match self {
            PaxosError::StaleProposal => "stale proposal: a higher number was already promised",
            PaxosError::Superseded => "superseded: a higher number was promised since",
            PaxosError::QuorumUnreachable => "quorum unreachable: a majority refused or did not answer",
            PaxosError::Timeout => "timeout: no majority before the deadline",
        }
    }

    /// Whether the error is an acceptor's plain refusal, as opposed to the
    /// failure of a whole round.
    pub fn is_rejection(&self) -> (b: bool)
        ensures
            b == (*self == PaxosError::StaleProposal || *self == PaxosError::Superseded),
    {
        match self {
            PaxosError::StaleProposal => true,
            PaxosError::Superseded => true,
            PaxosError::QuorumUnreachable => false,
            PaxosError::Timeout => false,
        }
    }
}

} // verus!
