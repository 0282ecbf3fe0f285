//! A node: both roles over one membership snapshot.

use vstd::prelude::*;
use crate::acceptor::{Acceptor, PromiseRecord};
use crate::config::Config;
use crate::message::{Reply, Request};
use crate::proposer::{Proposer, ProposerView};

verus! {

/// One cluster member. It votes on the proposals of others through its
/// acceptor and drives its own rounds through its proposer; the two share
/// nothing but the membership snapshot.
pub struct Paxos {
    pub config: Config,
    pub proposer: Proposer,
    pub acceptor: Acceptor,
}

impl Paxos {
    /// A node that has seen no request and started no round. Both roles get
    /// their own copy of the snapshot.
    pub fn new(config: Config) -> (node: Paxos)
        ensures
            node.config@ == config@,
            node.proposer@ == ProposerView::initial(config@),
            node.proposer.wf(),
            node.acceptor@ == PromiseRecord::initial(),
            node.acceptor.membership() == config@,
    {
        let proposer = Proposer::new(config.clone());
        let acceptor = Acceptor::new(config.clone());
        Paxos { config, proposer, acceptor }
    }

    /// Serves a request from another node's proposer, or from this node's own.
    pub fn serve(&mut self, request: Request) -> (reply: Reply)
        ensures
            final(self).acceptor@ == old(self).acceptor@.handle(request@),
            reply@ == old(self).acceptor@.reply(request@),
            final(self).acceptor.membership() == old(self).acceptor.membership(),
            final(self).proposer == old(self).proposer,
            final(self).config == old(self).config,
    {
        self.acceptor.handle(request)
    }
}

} // verus!
