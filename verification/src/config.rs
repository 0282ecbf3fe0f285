//! Cluster membership: who the nodes are and which of them this one is.

use vstd::prelude::*;
use crate::ballot::NodeId;

verus! {

/// A cluster member, as the contracts see it.
pub struct NodeView {
    pub id: NodeId,
    pub addr: Seq<char>,
}

/// One cluster member: its identifier and the address its transport listens
/// on. The library never interprets the address.
#[derive(Debug)]
pub struct Node {
    pub id: NodeId,
    pub addr: String,
}

impl View for Node {
    type V = NodeView;

    open spec fn view(&self) -> NodeView {
        NodeView { id: self.id, addr: self.addr@ }
    }
}

impl Clone for Node {
    fn clone(&self) -> (copy: Node)
        ensures
            copy@ == self@,
    {
        Node { id: self.id, addr: self.addr.clone() }
    }
}

impl Node {
    pub fn new(id: NodeId, addr: String) -> (node: Node)
        ensures
            node@ == (NodeView { id, addr: addr@ }),
    {
        Node { id, addr }
    }
}

/// A membership snapshot, as the contracts see it.
pub struct ConfigView {
    pub id: NodeId,
    pub nodes: Seq<NodeView>,
}

impl ConfigView {
    /// Whether some member carries `id`.
    pub open spec fn has_member(self, id: NodeId) -> bool {
        exists|i: int| 0 <= i < self.nodes.len() && self.nodes[i].id == id
    }

    /// Whether `i` is the position of the first member that carries `id`.
    pub open spec fn is_first(self, id: NodeId, i: int) -> bool {
        &&& 0 <= i < self.nodes.len()
        &&& self.nodes[i].id == id
        &&& forall|j: int| 0 <= j < i ==> self.nodes[j].id != id
    }

    /// The position of the first member that carries `id`, if there is one.
    pub open spec fn position(self, id: NodeId) -> Option<int> {
        if self.has_member(id) {
            Some(choose|i: int| self.is_first(id, i))
        } else {
            None
        }
    }
}

/// The members of the cluster, in a fixed order, and the id of the member
/// that holds this snapshot. It is made once and never changes.
#[derive(Debug)]
pub struct Config {
    pub id: NodeId,
    pub nodes: Vec<Node>,
}

impl View for Config {
    type V = ConfigView;

    open spec fn view(&self) -> ConfigView {
        ConfigView { id: self.id, nodes: Seq::new(self.nodes@.len(), |i: int| self.nodes@[i]@) }
    }
}

impl Clone for Config {
    fn clone(&self) -> (copy: Config)
        ensures
            copy@ == self@,
    {
        let mut nodes: Vec<Node> = Vec::new();
        let mut i: usize = 0;
        while i < self.nodes.len()
            invariant
                i <= self.nodes.len(),
                nodes.len() == i,
                forall|j: int| 0 <= j < i ==> nodes@[j]@ == self.nodes@[j]@,
            decreases self.nodes.len() - i,
        {
            nodes.push(self.nodes[i].clone());
            i = i + 1;
        }
        let copy = Config { id: self.id, nodes };
        assert(copy@.nodes =~= self@.nodes);
        copy
    }
}

impl Config {
    /// Builds the snapshot held by node `id` from (id, address) pairs, kept
    /// in the order given.
    pub fn new(id: NodeId, addresses: Vec<(NodeId, String)>) -> (config: Config)
        ensures
            config@.id == id,
            config@.nodes.len() == addresses.len(),
            forall|i: int|
                0 <= i < addresses.len() ==> config@.nodes[i] == (NodeView {
                    id: addresses[i].0,
                    addr: addresses[i].1@,
                }),
    {
        let mut nodes: Vec<Node> = Vec::new();
        let mut i: usize = 0;
        while i < addresses.len()
            invariant
                i <= addresses.len(),
                nodes.len() == i,
                forall|j: int|
                    0 <= j < i ==> nodes@[j]@ == (NodeView {
                        id: addresses[j].0,
                        addr: addresses[j].1@,
                    }),
            decreases addresses.len() - i,
        {
            let node = Node::new(addresses[i].0, addresses[i].1.clone());
            nodes.push(node);
            i = i + 1;
        }
        Config { id, nodes }
    }

    /// The number of members.
    pub fn size(&self) -> (n: usize)
        ensures
            n == self@.nodes.len(),
    {
        self.nodes.len()
    }

    /// The position of the first member that carries `id`, if there is one.
    pub fn index_of(&self, id: NodeId) -> (found: Option<usize>)
        ensures
            match found {
                Some(i) => self@.is_first(id, i as int) && self@.position(id) == Some(i as int),
                None => !self@.has_member(id) && self@.position(id) is None,
            },
    {
        let mut i: usize = 0;
        while i < self.nodes.len()
            invariant
                i <= self.nodes.len(),
                forall|j: int| 0 <= j < i ==> self@.nodes[j].id != id,
            decreases self.nodes.len() - i,
        {
            if self.nodes[i].id == id {
                proof {
                    lemma_position_is_first(self@, id, i as int);
                }
                return Some(i);
            }
            i = i + 1;
        }
        None
    }

    /// The member that holds this snapshot: the first one that carries the
    /// snapshot's own id. `None` when the holder is not a member.
    pub fn get_current_node(&self) -> (found: Option<&Node>)
        ensures
            match found {
                Some(node) => exists|i: int|
                    self@.is_first(self@.id, i) && node@ == #[trigger] self@.nodes[i],
                None => !self@.has_member(self@.id),
            },
    {
        match self.index_of(self.id) {
            Some(i) => Some(&self.nodes[i]),
            None => None,
        }
    }
}

/// The first member with a given id is unique.
pub proof fn lemma_first_unique(config: ConfigView, id: NodeId, i: int, j: int)
    requires
        config.is_first(id, i),
        config.is_first(id, j),
    ensures
        i == j,
{
}

/// The position of an id is that of the first member that carries it.
pub proof fn lemma_position_is_first(config: ConfigView, id: NodeId, i: int)
    requires
        config.is_first(id, i),
    ensures
        config.position(id) == Some(i),
{
    assert(config.has_member(id));
    let j = choose|j: int| config.is_first(id, j);
    lemma_first_unique(config, id, i, j);
}

/// An id has a position exactly when some member carries it, and the
/// position found is a member's, the first with that id.
pub proof fn lemma_position_found(config: ConfigView, id: NodeId)
    ensures
        config.position(id) is Some <==> config.has_member(id),
        config.position(id) matches Some(i) ==> config.is_first(id, i),
    decreases config.nodes.len(),
{
    if config.has_member(id) {
        let k = choose|k: int| 0 <= k < config.nodes.len() && config.nodes[k].id == id;
        lemma_first_exists(config, id, k);
    }
}

/// Below any member that carries `id` stands the first that does.
pub proof fn lemma_first_exists(config: ConfigView, id: NodeId, k: int)
    requires
        0 <= k < config.nodes.len(),
        config.nodes[k].id == id,
    ensures
        exists|i: int| config.is_first(id, i),
    decreases k,
{
    if exists|j: int| 0 <= j < k && config.nodes[j].id == id {
        let j = choose|j: int| 0 <= j < k && config.nodes[j].id == id;
        lemma_first_exists(config, id, j);
    } else {
        assert(config.is_first(id, k));
    }
}

} // verus!
