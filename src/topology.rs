//! Topology state: the nodes of the simulated network, the edges between
//! them, and a position on the canvas for each node.
//!
//! Positions are fixed-point: one canvas unit is [`SCALE`] steps.

use vstd::prelude::*;
use crate::text::str_eq;

verus! {

/// Fixed-point steps per canvas unit.
pub const SCALE: i64 = 1000;

#[derive(Clone, Copy, Debug, PartialEq, Eq, Structural)]
pub enum NodeStatus {
    Starting,
    Running,
    Stopped,
    Error,
}

#[derive(Clone, Copy, Debug, PartialEq, Eq, Structural)]
pub enum ConnectivityStatus {
    Unknown,
    Testing,
    Connected,
    Failed,
}

#[derive(Clone, Copy, Debug, PartialEq, Eq, Structural)]
pub struct StorageStats {
    pub total_keys: usize,
    pub total_size_bytes: usize,
}

/// A simulated storage node.
#[derive(Clone, Debug)]
pub struct Homeserver {
    pub id: String,
    pub name: String,
    pub port: u16,
    pub http_url: Option<String>,
    pub status: NodeStatus,
    pub public_key: Option<String>,
    pub connectivity_status: ConnectivityStatus,
    pub storage_stats: Option<StorageStats>,
    pub x: i64,
    pub y: i64,
}

/// A client identity backed by a keypair.
#[derive(Clone, Debug)]
pub struct Client {
    pub id: String,
    pub name: String,
    pub public_key: String,
    pub status: NodeStatus,
    pub connected_homeserver: Option<String>,
    pub x: i64,
    pub y: i64,
}

#[derive(Clone, Debug)]
pub enum Node {
    Homeserver(Homeserver),
    Client(Client),
}

#[derive(Clone, Copy, Debug, PartialEq, Eq, Structural)]
pub enum EdgeType {
    Connection,
}

/// A directed edge between two node ids.
#[derive(Clone, Debug)]
pub struct Edge {
    pub from: String,
    pub to: String,
    pub edge_type: EdgeType,
}

impl Node {
    pub open spec fn spec_id(&self) -> Seq<char> {
        match self {
            Node::Homeserver(h) => h.id@,
            Node::Client(c) => c.id@,
        }
    }

    pub open spec fn spec_position(&self) -> (i64, i64) {
        match self {
            Node::Homeserver(h) => (h.x, h.y),
            Node::Client(c) => (c.x, c.y),
        }
    }

    pub open spec fn spec_status(&self) -> NodeStatus {
        match self {
            Node::Homeserver(h) => h.status,
            Node::Client(c) => c.status,
        }
    }

    pub fn id(&self) -> (r: &str)
        ensures
            r@ == self.spec_id(),
    {
        match self {
            Node::Homeserver(h) => h.id.as_str(),
            Node::Client(c) => c.id.as_str(),
        }
    }

    pub fn name(&self) -> (r: &str)
        ensures
            r@ == match self {
                Node::Homeserver(h) => h.name@,
                Node::Client(c) => c.name@,
            },
    {
        match self {
            Node::Homeserver(h) => h.name.as_str(),
            Node::Client(c) => c.name.as_str(),
        }
    }

    pub fn status(&self) -> (r: &NodeStatus)
        ensures
            *r == self.spec_status(),
    {
        match self {
            Node::Homeserver(h) => &h.status,
            Node::Client(c) => &c.status,
        }
    }

    /// The public key: a storage node has one once running, a client always.
    pub fn public_key(&self) -> (r: Option<&str>)
        ensures
            match self {
                Node::Homeserver(h) => match (r, h.public_key) {
                    (Some(k), Some(p)) => k@ == p@,
                    (None, None) => true,
                    _ => false,
                },
                Node::Client(c) => r is Some && r->0@ == c.public_key@,
            },
    {
        match self {
            Node::Homeserver(h) => match &h.public_key {
                Some(k) => Some(k.as_str()),
                None => None,
            },
            Node::Client(c) => Some(c.public_key.as_str()),
        }
    }

    pub fn position(&self) -> (r: (i64, i64))
        ensures
            r == self.spec_position(),
    {
        match self {
            Node::Homeserver(h) => (h.x, h.y),
            Node::Client(c) => (c.x, c.y),
        }
    }

    /// Moves the node; nothing else of it changes.
    pub fn set_position(&mut self, x: i64, y: i64)
        ensures
            *final(self) == match *old(self) {
                Node::Homeserver(h) => Node::Homeserver(Homeserver { x, y, ..h }),
                Node::Client(c) => Node::Client(Client { x, y, ..c }),
            },
    {
        match self {
            Node::Homeserver(h) => {
                h.x = x;
                h.y = y;
            },
            Node::Client(c) => {
                c.x = x;
                c.y = y;
            },
        }
    }
}

/// Whether some node of `nodes` has the id `id`.
pub open spec fn has_id(nodes: Seq<Node>, id: Seq<char>) -> bool {
    exists|i: int| 0 <= i < nodes.len() && (#[trigger] nodes[i]).spec_id() == id
}

/// No two nodes share an id.
pub open spec fn ids_unique(nodes: Seq<Node>) -> bool {
    forall|i: int, j: int|
        0 <= i < nodes.len() && 0 <= j < nodes.len() && i != j ==> (#[trigger] nodes[i]).spec_id()
            != (#[trigger] nodes[j]).spec_id()
}

/// Every edge joins two nodes that exist.
pub open spec fn edges_attached(nodes: Seq<Node>, edges: Seq<Edge>) -> bool {
    forall|e: int|
        0 <= e < edges.len() ==> has_id(nodes, (#[trigger] edges[e]).from@) && has_id(
            nodes,
            edges[e].to@,
        )
}

/// Position in `nodes` of the node with id `id`.
pub fn find_node(nodes: &Vec<Node>, id: &str) -> (r: Option<usize>)
    ensures
        match r {
            Some(i) => i < nodes@.len() && nodes@[i as int].spec_id() == id@,
            None => !has_id(nodes@, id@),
        },
{
    let mut i: usize = 0;
    while i < nodes.len()
        invariant
            i <= nodes@.len(),
            forall|j: int| 0 <= j < i ==> (#[trigger] nodes@[j]).spec_id() != id@,
        decreases nodes@.len() - i,
    {
        if str_eq(nodes[i].id(), id) {
            return Some(i);
        }
        i = i + 1;
    }
    None
}


/// The position of the node with id `id`, where there is one.
pub open spec fn node_index(nodes: Seq<Node>, id: Seq<char>) -> int {
    choose|i: int| 0 <= i < nodes.len() && (#[trigger] nodes[i]).spec_id() == id
}

pub proof fn lemma_node_index(nodes: Seq<Node>, i: int)
    requires
        ids_unique(nodes),
        0 <= i < nodes.len(),
    ensures
        has_id(nodes, nodes[i].spec_id()),
        node_index(nodes, nodes[i].spec_id()) == i,
{
    assert(has_id(nodes, nodes[i].spec_id()));
}

pub proof fn lemma_has_id_push(nodes: Seq<Node>, n: Node)
    ensures
        forall|k: Seq<char>|
            #[trigger] has_id(nodes.push(n), k) == (has_id(nodes, k) || n.spec_id() == k),
{
    let m = nodes.push(n);
    assert forall|k: Seq<char>| #[trigger] has_id(m, k) == (has_id(nodes, k) || n.spec_id() == k) by {
        if has_id(m, k) {
            let j = choose|j: int| 0 <= j < m.len() && (#[trigger] m[j]).spec_id() == k;
            if j < nodes.len() {
                assert(m[j] == nodes[j]);
            }
        }
        if has_id(nodes, k) {
            let j = choose|j: int| 0 <= j < nodes.len() && (#[trigger] nodes[j]).spec_id() == k;
            assert(m[j] == nodes[j]);
        }
        if n.spec_id() == k {
            assert(m[nodes.len() as int] == n);
        }
    }
}

pub proof fn lemma_has_id_update(nodes: Seq<Node>, i: int, n: Node)
    requires
        0 <= i < nodes.len(),
        n.spec_id() == nodes[i].spec_id(),
    ensures
        forall|k: Seq<char>| #[trigger] has_id(nodes.update(i, n), k) == has_id(nodes, k),
        ids_unique(nodes) ==> ids_unique(nodes.update(i, n)),
{
    let m = nodes.update(i, n);
    assert forall|k: Seq<char>| #[trigger] has_id(m, k) == has_id(nodes, k) by {
        if has_id(m, k) {
            let j = choose|j: int| 0 <= j < m.len() && (#[trigger] m[j]).spec_id() == k;
            assert(nodes[j].spec_id() == k);
        }
        if has_id(nodes, k) {
            let j = choose|j: int| 0 <= j < nodes.len() && (#[trigger] nodes[j]).spec_id() == k;
            assert(m[j].spec_id() == k);
        }
    }
    if ids_unique(nodes) {
        assert forall|a: int, b: int|
            0 <= a < m.len() && 0 <= b < m.len() && a != b implies (#[trigger] m[a]).spec_id()
            != (#[trigger] m[b]).spec_id() by {
            assert(m[a].spec_id() == nodes[a].spec_id());
            assert(m[b].spec_id() == nodes[b].spec_id());
        }
    }
}

/// Whether `e` touches the node `id`.
pub open spec fn incident(e: Edge, id: Seq<char>) -> bool {
    e.from@ == id || e.to@ == id
}

/// `edges` without those that touch the node `id`, order kept.
pub open spec fn detached(edges: Seq<Edge>, id: Seq<char>) -> Seq<Edge>
    decreases edges.len(),
{
    if edges.len() == 0 {
        Seq::empty()
    } else if incident(edges[0], id) {
        detached(edges.drop_first(), id)
    } else {
        seq![edges[0]] + detached(edges.drop_first(), id)
    }
}

pub proof fn lemma_detached_members(edges: Seq<Edge>, id: Seq<char>)
    ensures
        forall|k: int|
            0 <= k < detached(edges, id).len() ==> !incident(#[trigger] detached(edges, id)[k], id)
                && edges.contains(detached(edges, id)[k]),
    decreases edges.len(),
{
    if edges.len() > 0 {
        let t = edges.drop_first();
        lemma_detached_members(t, id);
        let d = detached(edges, id);
        assert forall|k: int| 0 <= k < d.len() implies !incident(#[trigger] d[k], id)
            && edges.contains(d[k]) by {
            if incident(edges[0], id) {
                assert(d == detached(t, id));
                assert(t.contains(detached(t, id)[k]));
                let j = choose|j: int| 0 <= j < t.len() && t[j] == d[k];
                assert(edges[j + 1] == d[k]);
            } else if k == 0 {
                assert(edges[0] == d[k]);
            } else {
                assert(d[k] == detached(t, id)[k - 1]);
                assert(t.contains(detached(t, id)[k - 1]));
                let j = choose|j: int| 0 <= j < t.len() && t[j] == detached(t, id)[k - 1];
                assert(edges[j + 1] == d[k]);
            }
        }
    }
}


pub proof fn lemma_has_id_remove(nodes: Seq<Node>, i: int)
    requires
        ids_unique(nodes),
        0 <= i < nodes.len(),
    ensures
        ids_unique(nodes.remove(i)),
        forall|k: Seq<char>|
            #[trigger] has_id(nodes.remove(i), k) == (has_id(nodes, k) && k != nodes[i].spec_id()),
{
    let m = nodes.remove(i);
    assert forall|a: int, b: int|
        0 <= a < m.len() && 0 <= b < m.len() && a != b implies (#[trigger] m[a]).spec_id()
        != (#[trigger] m[b]).spec_id() by {
        let a2 = if a < i { a } else { a + 1 };
        let b2 = if b < i { b } else { b + 1 };
        assert(m[a] == nodes[a2] && m[b] == nodes[b2]);
    }
    assert forall|k: Seq<char>| #[trigger]
        has_id(m, k) == (has_id(nodes, k) && k != nodes[i].spec_id()) by {
        if has_id(m, k) {
            let j = choose|j: int| 0 <= j < m.len() && (#[trigger] m[j]).spec_id() == k;
            let j2 = if j < i { j } else { j + 1 };
            assert(m[j] == nodes[j2]);
        }
        if has_id(nodes, k) && k != nodes[i].spec_id() {
            let j = choose|j: int| 0 <= j < nodes.len() && (#[trigger] nodes[j]).spec_id() == k;
            let j2 = if j < i { j } else { j - 1 };
            assert(m[j2] == nodes[j]);
        }
    }
}

/// Whether the node `id` exists and is a storage node.
pub open spec fn is_homeserver(nodes: Seq<Node>, id: Seq<char>) -> bool {
    has_id(nodes, id) && nodes[node_index(nodes, id)] is Homeserver
}

/// Whether the node `id` exists and is a client identity.
pub open spec fn is_client(nodes: Seq<Node>, id: Seq<char>) -> bool {
    has_id(nodes, id) && nodes[node_index(nodes, id)] is Client
}

/// The storage node `id` (meaningful where `is_homeserver(nodes, id)`).
pub open spec fn homeserver_of(nodes: Seq<Node>, id: Seq<char>) -> Homeserver {
    nodes[node_index(nodes, id)]->Homeserver_0
}

/// The client identity `id` (meaningful where `is_client(nodes, id)`).
pub open spec fn client_of(nodes: Seq<Node>, id: Seq<char>) -> Client {
    nodes[node_index(nodes, id)]->Client_0
}

} // verus!
