//! The node registry: sole owner of the topology, of the keypair of each
//! client identity and of the session of each connected client.
//!
//! Calls to the storage collaborator happen outside: the registry decides
//! what each operation needs, fails fast where it cannot go on, and records
//! what the collaborator handed back.

use vstd::prelude::*;
use crate::text::str_eq;
use crate::assoc::{as_map, find_key, insert_key, keys_unique, remove_key};
use crate::topology::{
    client_of, detached, edges_attached, find_node, has_id, homeserver_of, ids_unique, incident,
    is_client, is_homeserver, lemma_detached_members, lemma_has_id_push, lemma_has_id_remove,
    lemma_has_id_update, lemma_node_index, node_index, Client, ConnectivityStatus, Edge, EdgeType,
    Homeserver, Node, NodeStatus,
};

verus! {

/// Why an operation of the simulation did not complete.
#[derive(Clone, Copy, Debug, PartialEq, Eq, Structural)]
pub enum RegistryError {
    /// The collaborator could not provision a storage node.
    ProvisionFailure,
    /// An unknown client or node id.
    NotFound,
    /// The target storage node is not running.
    NotReady,
    /// A read or write by a client that has not connected.
    NoSession,
    /// A collaborator call returned an error.
    RemoteFailure,
    /// A wait for readiness ran out of time.
    Timeout,
    /// A node with that id already exists.
    DuplicateId,
}

/// What the collaborator reports of a newly provisioned storage node.
pub struct HomeserverInfo {
    pub port: u16,
    pub public_key: String,
    pub http_url: String,
}

/// Nodes, edges, keypairs (`K`) and sessions (`S`) of one simulation.
pub struct NodeRegistry<K, S> {
    nodes: Vec<Node>,
    edges: Vec<Edge>,
    keypairs: Vec<(String, K)>,
    sessions: Vec<(String, S)>,
}

/// The ids of the nodes that `nodes` lists.
pub open spec fn node_ids(nodes: Seq<Node>) -> Set<Seq<char>> {
    Set::new(|k: Seq<char>| has_id(nodes, k))
}


/// The endpoints of the storage nodes of `nodes` that have one, in order.
pub open spec fn endpoints(nodes: Seq<Node>) -> Seq<Seq<char>>
    decreases nodes.len(),
{
    if nodes.len() == 0 {
        Seq::empty()
    } else {
        let rest = endpoints(nodes.drop_last());
        match nodes.last() {
            Node::Homeserver(h) => match h.http_url {
                Some(u) => rest.push(u@),
                None => rest,
            },
            Node::Client(_) => rest,
        }
    }
}

/// `n` at the position `(x, y)`, all else kept.
pub open spec fn moved(n: Node, x: i64, y: i64) -> Node {
    match n {
        Node::Homeserver(h) => Node::Homeserver(Homeserver { x, y, ..h }),
        Node::Client(c) => Node::Client(Client { x, y, ..c }),
    }
}

/// `nodes` after the first `m` of `positions` were applied in turn.
pub open spec fn placed(nodes: Seq<Node>, positions: Seq<(String, i64, i64)>, m: int) -> Seq<Node>
    decreases m,
{
    if m <= 0 {
        nodes
    } else {
        let prev = placed(nodes, positions, m - 1);
        let p = positions[m - 1];
        if has_id(prev, p.0@) {
            let i = node_index(prev, p.0@);
            prev.update(i, moved(prev[i], p.1, p.2))
        } else {
            prev
        }
    }
}

/// How many of `nodes` are storage nodes.
pub open spec fn count_homeservers(nodes: Seq<Node>) -> nat
    decreases nodes.len(),
{
    if nodes.len() == 0 {
        0
    } else {
        count_homeservers(nodes.drop_last()) + if nodes.last() is Homeserver {
            1nat
        } else {
            0nat
        }
    }
}

proof fn lemma_count_bound(nodes: Seq<Node>)
    ensures
        count_homeservers(nodes) <= nodes.len(),
    decreases nodes.len(),
{
    if nodes.len() > 0 {
        lemma_count_bound(nodes.drop_last());
    }
}

impl RegistryError {
    pub fn name(&self) -> (r: &'static str)
        ensures
            r@ == error_name(*self),
    {
        match self {
            RegistryError::ProvisionFailure => "ProvisionFailure",
            RegistryError::NotFound => "NotFound",
            RegistryError::NotReady => "NotReady",
            RegistryError::NoSession => "NoSession",
            RegistryError::RemoteFailure => "RemoteFailure",
            RegistryError::Timeout => "Timeout",
            RegistryError::DuplicateId => "DuplicateId",
        }
    }
}

/// The name of an error, as event log messages give it.
pub open spec fn error_name(e: RegistryError) -> Seq<char> {
    match e {
        RegistryError::ProvisionFailure => "ProvisionFailure"@,
        RegistryError::NotFound => "NotFound"@,
        RegistryError::NotReady => "NotReady"@,
        RegistryError::NoSession => "NoSession"@,
        RegistryError::RemoteFailure => "RemoteFailure"@,
        RegistryError::Timeout => "Timeout"@,
        RegistryError::DuplicateId => "DuplicateId"@,
    }
}

impl<K, S> NodeRegistry<K, S> {
    pub closed spec fn spec_nodes(&self) -> Seq<Node> {
        self.nodes@
    }

    pub closed spec fn spec_edges(&self) -> Seq<Edge> {
        self.edges@
    }

    pub closed spec fn spec_keypairs(&self) -> Map<Seq<char>, K> {
        as_map(self.keypairs@)
    }

    pub closed spec fn spec_sessions(&self) -> Map<Seq<char>, S> {
        as_map(self.sessions@)
    }

    pub closed spec fn lists_wf(&self) -> bool {
        keys_unique(self.keypairs@) && keys_unique(self.sessions@)
    }

    /// Node ids are unique, every edge joins existing nodes, every keypair
    /// belongs to an existing node and every session to a keypair.
    pub open spec fn wf(&self) -> bool {
        &&& self.lists_wf()
        &&& ids_unique(self.spec_nodes())
        &&& edges_attached(self.spec_nodes(), self.spec_edges())
        &&& self.spec_keypairs().dom().subset_of(node_ids(self.spec_nodes()))
        &&& self.spec_sessions().dom().subset_of(self.spec_keypairs().dom())
    }

    /// Edges, keypairs and sessions of `self` and `other` agree.
    pub open spec fn same_links(&self, other: &Self) -> bool {
        &&& self.spec_edges() == other.spec_edges()
        &&& self.spec_keypairs() == other.spec_keypairs()
        &&& self.spec_sessions() == other.spec_sessions()
    }

    /// The outcome of a connect between `client` and `node`, decided before
    /// any remote call.
    pub open spec fn connect_check(&self, client: Seq<char>, node: Seq<char>) -> Result<
        (),
        RegistryError,
    > {
        if !self.spec_keypairs().contains_key(client) || !is_homeserver(self.spec_nodes(), node) {
            Err(RegistryError::NotFound)
        } else if homeserver_of(self.spec_nodes(), node).status != NodeStatus::Running
            || homeserver_of(self.spec_nodes(), node).public_key is None {
            Err(RegistryError::NotReady)
        } else {
            Ok(())
        }
    }

    pub fn new() -> (r: Self)
        ensures
            r.wf(),
            r.spec_nodes().len() == 0,
            r.spec_edges().len() == 0,
            r.spec_keypairs().is_empty(),
            r.spec_sessions().is_empty(),
    {
        let r = NodeRegistry {
            nodes: Vec::new(),
            edges: Vec::new(),
            keypairs: Vec::new(),
            sessions: Vec::new(),
        };
        proof {
            assert(as_map(r.keypairs@) =~= Map::<Seq<char>, K>::empty());
            assert(as_map(r.sessions@) =~= Map::<Seq<char>, S>::empty());
        }
        r
    }

    /// A point-in-time snapshot of the nodes.
    pub fn nodes(&self) -> (r: &Vec<Node>)
        ensures
            r@ == self.spec_nodes(),
    {
        &self.nodes
    }

    /// A point-in-time snapshot of the edges.
    pub fn edges(&self) -> (r: &Vec<Edge>)
        ensures
            r@ == self.spec_edges(),
    {
        &self.edges
    }

    proof fn lemma_dom_after_nodes_change(&self, other: &Self)
        requires
            self.wf(),
            forall|k: Seq<char>| #[trigger] has_id(self.spec_nodes(), k) ==> has_id(other.spec_nodes(), k),
            self.spec_keypairs() == other.spec_keypairs(),
        ensures
            other.spec_keypairs().dom().subset_of(node_ids(other.spec_nodes())),
    {
        assert forall|k: Seq<char>| other.spec_keypairs().dom().contains(k) implies #[trigger] node_ids(
            other.spec_nodes(),
        ).contains(k) by {
            assert(node_ids(self.spec_nodes()).contains(k));
        }
    }

    /// Inserts a storage node with status `Starting`, before provisioning.
    pub fn add_storage_node(&mut self, id: String, name: String, x: i64, y: i64) -> (r: Result<
        (),
        RegistryError,
    >)
        requires
            old(self).wf(),
        ensures
            final(self).wf(),
            final(self).same_links(old(self)),
            r is Err <==> has_id(old(self).spec_nodes(), id@),
            r is Err ==> r == Err::<(), _>(RegistryError::DuplicateId) && final(self).spec_nodes()
                == old(self).spec_nodes(),
            r is Ok ==> final(self).spec_nodes() == old(self).spec_nodes().push(
                Node::Homeserver(
                    Homeserver {
                        id,
                        name,
                        port: 0,
                        http_url: None,
                        status: NodeStatus::Starting,
                        public_key: None,
                        connectivity_status: ConnectivityStatus::Unknown,
                        storage_stats: None,
                        x,
                        y,
                    },
                ),
            ),
    {
        if find_node(&self.nodes, id.as_str()).is_some() {
            return Err(RegistryError::DuplicateId);
        }
        let node = Node::Homeserver(
            Homeserver {
                id,
                name,
                port: 0,
                http_url: None,
                status: NodeStatus::Starting,
                public_key: None,
                connectivity_status: ConnectivityStatus::Unknown,
                storage_stats: None,
                x,
                y,
            },
        );
        let ghost pre = *self;
        self.nodes.push(node);
        proof {
            self.lemma_push_keeps_wf(&pre, node);
        }
        Ok(())
    }

    proof fn lemma_push_keeps_wf(&self, pre: &Self, n: Node)
        requires
            pre.wf(),
            !has_id(pre.spec_nodes(), n.spec_id()),
            self.spec_nodes() == pre.spec_nodes().push(n),
            self.same_links(pre),
            self.lists_wf() == pre.lists_wf(),
        ensures
            self.wf(),
    {
        let o = pre.spec_nodes();
        let m = self.spec_nodes();
        lemma_has_id_push(o, n);
        assert forall|a: int, b: int|
            0 <= a < m.len() && 0 <= b < m.len() && a != b implies (#[trigger] m[a]).spec_id()
            != (#[trigger] m[b]).spec_id() by {
            if a < o.len() && b < o.len() {
                assert(m[a] == o[a] && m[b] == o[b]);
            } else if a < o.len() {
                assert(m[a] == o[a]);
                assert(has_id(o, o[a].spec_id()));
            } else {
                assert(m[b] == o[b]);
                assert(has_id(o, o[b].spec_id()));
            }
        }
        pre.lemma_dom_after_nodes_change(self);
    }

    /// Records a successful provisioning: the storage node `id` gets its
    /// port, endpoint and public key, and becomes `Running`.
    pub fn storage_node_ready(&mut self, id: &str, info: HomeserverInfo) -> (r: Result<
        (),
        RegistryError,
    >)
        requires
            old(self).wf(),
        ensures
            final(self).wf(),
            final(self).same_links(old(self)),
            r is Err <==> !is_homeserver(old(self).spec_nodes(), id@),
            r is Err ==> r == Err::<(), _>(RegistryError::NotFound) && final(self).spec_nodes()
                == old(self).spec_nodes(),
            r is Ok ==> final(self).spec_nodes() == old(self).spec_nodes().update(
                node_index(old(self).spec_nodes(), id@),
                Node::Homeserver(
                    Homeserver {
                        port: info.port,
                        http_url: Some(info.http_url),
                        public_key: Some(info.public_key),
                        status: NodeStatus::Running,
                        ..homeserver_of(old(self).spec_nodes(), id@)
                    },
                ),
            ),
    {
        match find_node(&self.nodes, id) {
            None => Err(RegistryError::NotFound),
            Some(i) => {
                proof {
                    lemma_node_index(self.nodes@, i as int);
                }
                if !matches!(self.nodes[i], Node::Homeserver(_)) {
                    return Err(RegistryError::NotFound);
                }
                let ghost pre = *self;
                let node = self.nodes.remove(i);
                match node {
                    Node::Homeserver(mut h) => {
                        h.port = info.port;
                        h.http_url = Some(info.http_url);
                        h.public_key = Some(info.public_key);
                        h.status = NodeStatus::Running;
                        self.nodes.insert(i, Node::Homeserver(h));
                    },
                    Node::Client(c) => {
                        self.nodes.insert(i, Node::Client(c));
                    },
                }
                proof {
                    assert(self.nodes@ =~= pre.nodes@.update(i as int, self.nodes@[i as int]));
                    lemma_has_id_update(pre.nodes@, i as int, self.nodes@[i as int]);
                    pre.lemma_dom_after_nodes_change(self);
                }
                Ok(())
            },
        }
    }

    /// Records a failed provisioning: the storage node `id` becomes `Error`.
    pub fn storage_node_failed(&mut self, id: &str) -> (r: Result<(), RegistryError>)
        requires
            old(self).wf(),
        ensures
            final(self).wf(),
            final(self).same_links(old(self)),
            r is Err <==> !is_homeserver(old(self).spec_nodes(), id@),
            r is Err ==> r == Err::<(), _>(RegistryError::NotFound) && final(self).spec_nodes()
                == old(self).spec_nodes(),
            r is Ok ==> final(self).spec_nodes() == old(self).spec_nodes().update(
                node_index(old(self).spec_nodes(), id@),
                Node::Homeserver(
                    Homeserver {
                        status: NodeStatus::Error,
                        ..homeserver_of(old(self).spec_nodes(), id@)
                    },
                ),
            ),
    {
        match find_node(&self.nodes, id) {
            None => Err(RegistryError::NotFound),
            Some(i) => {
                proof {
                    lemma_node_index(self.nodes@, i as int);
                }
                if !matches!(self.nodes[i], Node::Homeserver(_)) {
                    return Err(RegistryError::NotFound);
                }
                let ghost pre = *self;
                let node = self.nodes.remove(i);
                match node {
                    Node::Homeserver(mut h) => {
                        h.status = NodeStatus::Error;
                        self.nodes.insert(i, Node::Homeserver(h));
                    },
                    Node::Client(c) => {
                        self.nodes.insert(i, Node::Client(c));
                    },
                }
                proof {
                    assert(self.nodes@ =~= pre.nodes@.update(i as int, self.nodes@[i as int]));
                    lemma_has_id_update(pre.nodes@, i as int, self.nodes@[i as int]);
                    pre.lemma_dom_after_nodes_change(self);
                }
                Ok(())
            },
        }
    }

    /// Records the state of a connectivity test of the storage node `id`.
    pub fn set_connectivity(&mut self, id: &str, status: ConnectivityStatus) -> (r: Result<
        (),
        RegistryError,
    >)
        requires
            old(self).wf(),
        ensures
            final(self).wf(),
            final(self).same_links(old(self)),
            r is Err <==> !is_homeserver(old(self).spec_nodes(), id@),
            r is Err ==> r == Err::<(), _>(RegistryError::NotFound) && final(self).spec_nodes()
                == old(self).spec_nodes(),
            r is Ok ==> final(self).spec_nodes() == old(self).spec_nodes().update(
                node_index(old(self).spec_nodes(), id@),
                Node::Homeserver(
                    Homeserver {
                        connectivity_status: status,
                        ..homeserver_of(old(self).spec_nodes(), id@)
                    },
                ),
            ),
    {
        match find_node(&self.nodes, id) {
            None => Err(RegistryError::NotFound),
            Some(i) => {
                proof {
                    lemma_node_index(self.nodes@, i as int);
                }
                if !matches!(self.nodes[i], Node::Homeserver(_)) {
                    return Err(RegistryError::NotFound);
                }
                let ghost pre = *self;
                let node = self.nodes.remove(i);
                match node {
                    Node::Homeserver(mut h) => {
                        h.connectivity_status = status;
                        self.nodes.insert(i, Node::Homeserver(h));
                    },
                    Node::Client(c) => {
                        self.nodes.insert(i, Node::Client(c));
                    },
                }
                proof {
                    assert(self.nodes@ =~= pre.nodes@.update(i as int, self.nodes@[i as int]));
                    lemma_has_id_update(pre.nodes@, i as int, self.nodes@[i as int]);
                    pre.lemma_dom_after_nodes_change(self);
                }
                Ok(())
            },
        }
    }

    /// Inserts a client identity, `Running` at once, and stores its keypair.
    pub fn add_client_identity(
        &mut self,
        id: String,
        name: String,
        public_key: String,
        keypair: K,
        x: i64,
        y: i64,
    ) -> (r: Result<(), RegistryError>)
        requires
            old(self).wf(),
        ensures
            final(self).wf(),
            r is Err <==> has_id(old(self).spec_nodes(), id@),
            r is Err ==> r == Err::<(), _>(RegistryError::DuplicateId) && *final(self) == *old(
                self,
            ),
            r is Ok ==> final(self).spec_nodes() == old(self).spec_nodes().push(
                Node::Client(
                    Client {
                        id,
                        name,
                        public_key,
                        status: NodeStatus::Running,
                        connected_homeserver: None,
                        x,
                        y,
                    },
                ),
            ) && final(self).spec_keypairs() == old(self).spec_keypairs().insert(id@, keypair)
                && final(self).spec_edges() == old(self).spec_edges() && final(self).spec_sessions()
                == old(self).spec_sessions(),
    {
        if find_node(&self.nodes, id.as_str()).is_some() {
            return Err(RegistryError::DuplicateId);
        }
        let key = id.clone();
        let node = Node::Client(
            Client {
                id,
                name,
                public_key,
                status: NodeStatus::Running,
                connected_homeserver: None,
                x,
                y,
            },
        );
        let ghost pre = *self;
        self.nodes.push(node);
        insert_key(&mut self.keypairs, key, keypair);
        proof {
            let o = pre.spec_nodes();
            let m = self.spec_nodes();
            lemma_has_id_push(o, node);
            assert forall|a: int, b: int|
                0 <= a < m.len() && 0 <= b < m.len() && a != b implies (#[trigger] m[a]).spec_id()
                != (#[trigger] m[b]).spec_id() by {
                if a < o.len() && b < o.len() {
                    assert(m[a] == o[a] && m[b] == o[b]);
                } else if a < o.len() {
                    assert(m[a] == o[a]);
                    assert(has_id(o, o[a].spec_id()));
                } else {
                    assert(m[b] == o[b]);
                    assert(has_id(o, o[b].spec_id()));
                }
            }
            assert forall|k: Seq<char>| self.spec_keypairs().dom().contains(k) implies #[trigger] node_ids(
                m,
            ).contains(k) by {
                if k != node.spec_id() {
                    assert(node_ids(o).contains(k));
                }
            }
        }
        Ok(())
    }

    /// The keypair of `client` and the public key of the storage node `node`,
    /// where a connect between them may go ahead.
    pub fn connect_target(&self, client: &str, node: &str) -> (r: Result<(&K, &str), RegistryError>)
        requires
            self.wf(),
        ensures
            r is Ok <==> self.connect_check(client@, node@) is Ok,
            r is Err ==> r->Err_0 == self.connect_check(client@, node@)->Err_0,
            r is Ok ==> *r->Ok_0.0 == self.spec_keypairs()[client@] && r->Ok_0.1@ == homeserver_of(
                self.spec_nodes(),
                node@,
            ).public_key->0@,
    {
        let k = match find_key(&self.keypairs, client) {
            None => {
                return Err(RegistryError::NotFound);
            },
            Some(k) => k,
        };
        let i = match find_node(&self.nodes, node) {
            None => {
                return Err(RegistryError::NotFound);
            },
            Some(i) => i,
        };
        proof {
            lemma_node_index(self.nodes@, i as int);
        }
        match &self.nodes[i] {
            Node::Client(_) => Err(RegistryError::NotFound),
            Node::Homeserver(h) => {
                if h.status != NodeStatus::Running {
                    return Err(RegistryError::NotReady);
                }
                match &h.public_key {
                    None => Err(RegistryError::NotReady),
                    Some(pk) => Ok((&self.keypairs[k].1, pk.as_str())),
                }
            },
        }
    }

    /// Records a successful connect: the session is stored for `client`,
    /// replacing any earlier one, the client notes `node`, and an edge from
    /// `client` to `node` is added.
    pub fn complete_connect(&mut self, client: &str, node: &str, session: S) -> (r: Result<
        (),
        RegistryError,
    >)
        requires
            old(self).wf(),
        ensures
            final(self).wf(),
            r is Err <==> !(old(self).spec_keypairs().contains_key(client@) && is_client(
                old(self).spec_nodes(),
                client@,
            ) && is_homeserver(old(self).spec_nodes(), node@)),
            r is Err ==> r == Err::<(), _>(RegistryError::NotFound) && *final(self) == *old(self),
            r is Ok ==> final(self).spec_sessions() == old(self).spec_sessions().insert(
                client@,
                session,
            ) && final(self).spec_keypairs() == old(self).spec_keypairs() && final(self).spec_nodes()
                == old(self).spec_nodes().update(
                node_index(old(self).spec_nodes(), client@),
                Node::Client(
                    Client {
                        connected_homeserver: Some(final(self).spec_edges().last().to),
                        ..client_of(old(self).spec_nodes(), client@)
                    },
                ),
            ) && final(self).spec_edges().drop_last() == old(self).spec_edges()
                && final(self).spec_edges().last().from@ == client@
                && final(self).spec_edges().last().to@ == node@
                && final(self).spec_edges().last().edge_type == EdgeType::Connection,
    {
        if find_key(&self.keypairs, client).is_none() {
            return Err(RegistryError::NotFound);
        }
        let ci = match find_node(&self.nodes, client) {
            None => {
                return Err(RegistryError::NotFound);
            },
            Some(i) => i,
        };
        let hi = match find_node(&self.nodes, node) {
            None => {
                return Err(RegistryError::NotFound);
            },
            Some(i) => i,
        };
        proof {
            lemma_node_index(self.nodes@, ci as int);
            lemma_node_index(self.nodes@, hi as int);
        }
        if !matches!(self.nodes[ci], Node::Client(_)) || !matches!(self.nodes[hi], Node::Homeserver(_)) {
            return Err(RegistryError::NotFound);
        }
        let ghost pre = *self;
        let to = node.to_owned();
        let edge = Edge { from: client.to_owned(), to: to.clone(), edge_type: EdgeType::Connection };
        let n = self.nodes.remove(ci);
        match n {
            Node::Client(mut c) => {
                c.connected_homeserver = Some(to);
                self.nodes.insert(ci, Node::Client(c));
            },
            Node::Homeserver(h) => {
                self.nodes.insert(ci, Node::Homeserver(h));
            },
        }
        self.edges.push(edge);
        insert_key(&mut self.sessions, client.to_owned(), session);
        proof {
            assert(self.nodes@ =~= pre.nodes@.update(ci as int, self.nodes@[ci as int]));
            lemma_has_id_update(pre.nodes@, ci as int, self.nodes@[ci as int]);
            pre.lemma_dom_after_nodes_change(self);
            assert(self.edges@.drop_last() =~= pre.edges@);
            let m = self.nodes@;
            assert forall|e: int| 0 <= e < self.edges@.len() implies has_id(
                m,
                (#[trigger] self.edges@[e]).from@,
            ) && has_id(m, self.edges@[e].to@) by {
                if e < pre.edges@.len() {
                    assert(self.edges@[e] == pre.edges@[e]);
                    assert(has_id(pre.nodes@, pre.edges@[e].from@));
                    assert(has_id(pre.nodes@, pre.edges@[e].to@));
                } else {
                    assert(has_id(pre.nodes@, client@));
                    assert(has_id(pre.nodes@, node@));
                }
            }
            assert forall|k: Seq<char>| self.spec_sessions().dom().contains(k) implies #[trigger] self.spec_keypairs().dom().contains(k) by {
                if k != client@ {
                    assert(pre.spec_sessions().dom().contains(k));
                }
            }
        }
        Ok(())
    }

    /// The session stored for `client`.
    pub fn session(&self, client: &str) -> (r: Result<&S, RegistryError>)
        requires
            self.wf(),
        ensures
            r is Err <==> !self.spec_sessions().contains_key(client@),
            r is Err ==> r->Err_0 == RegistryError::NoSession,
            r is Ok ==> *r->Ok_0 == self.spec_sessions()[client@],
    {
        match find_key(&self.sessions, client) {
            None => Err(RegistryError::NoSession),
            Some(i) => Ok(&self.sessions[i].1),
        }
    }

    /// Removes the node `id`, the edges that touch it, and its keypair and
    /// session. Returns whether there was such a node.
    pub fn remove_node(&mut self, id: &str) -> (r: bool)
        requires
            old(self).wf(),
        ensures
            final(self).wf(),
            r == has_id(old(self).spec_nodes(), id@),
            !r ==> *final(self) == *old(self),
            r ==> final(self).spec_nodes() == old(self).spec_nodes().remove(
                node_index(old(self).spec_nodes(), id@),
            ),
            r ==> final(self).spec_edges() == detached(old(self).spec_edges(), id@),
            r ==> final(self).spec_keypairs() == old(self).spec_keypairs().remove(id@),
            r ==> final(self).spec_sessions() == old(self).spec_sessions().remove(id@),
    {
        let i = match find_node(&self.nodes, id) {
            None => {
                return false;
            },
            Some(i) => i,
        };
        proof {
            lemma_node_index(self.nodes@, i as int);
        }
        let ghost pre = *self;
        let _ = self.nodes.remove(i);
        let mut j: usize = self.edges.len();
        proof {
            assert(pre.edges@.subrange(j as int, j as int) =~= Seq::<Edge>::empty());
            assert(pre.edges@.subrange(0, j as int) =~= pre.edges@);
            assert(self.edges@ =~= pre.edges@.subrange(0, j as int) + detached(
                pre.edges@.subrange(j as int, pre.edges@.len() as int),
                id@,
            ));
        }
        while j > 0
            invariant
                j <= pre.edges@.len(),
                self.keypairs@ == pre.keypairs@,
                self.sessions@ == pre.sessions@,
                self.nodes@ == pre.nodes@.remove(i as int),
                keys_unique(pre.keypairs@),
                keys_unique(pre.sessions@),
                self.edges@ == pre.edges@.subrange(0, j as int) + detached(
                    pre.edges@.subrange(j as int, pre.edges@.len() as int),
                    id@,
                ),
            decreases j,
        {
            let ghost tail = pre.edges@.subrange(j as int, pre.edges@.len() as int);
            let ghost tail2 = pre.edges@.subrange(j - 1, pre.edges@.len() as int);
            proof {
                assert(tail2.drop_first() =~= tail);
                assert(tail2[0] == pre.edges@[j - 1]);
                assert(self.edges@[j - 1] == pre.edges@[j - 1]);
            }
            let e = &self.edges[j - 1];
            if str_eq(e.from.as_str(), id) || str_eq(e.to.as_str(), id) {
                let _ = self.edges.remove(j - 1);
                proof {
                    assert(self.edges@ =~= pre.edges@.subrange(0, j - 1) + detached(tail2, id@));
                }
            } else {
                proof {
                    assert(self.edges@ =~= pre.edges@.subrange(0, j - 1) + detached(tail2, id@));
                }
            }
            j = j - 1;
        }
        remove_key(&mut self.keypairs, id);
        remove_key(&mut self.sessions, id);
        proof {
            assert(pre.edges@.subrange(0, 0) =~= Seq::<Edge>::empty());
            assert(pre.edges@.subrange(0, pre.edges@.len() as int) =~= pre.edges@);
            assert(self.edges@ =~= detached(pre.edges@, id@));
            lemma_has_id_remove(pre.nodes@, i as int);
            lemma_detached_members(pre.edges@, id@);
            let m = self.nodes@;
            assert forall|e: int| 0 <= e < self.edges@.len() implies has_id(
                m,
                (#[trigger] self.edges@[e]).from@,
            ) && has_id(m, self.edges@[e].to@) by {
                let ed = self.edges@[e];
                assert(!incident(ed, id@));
                let k = choose|k: int| 0 <= k < pre.edges@.len() && pre.edges@[k] == ed;
                assert(has_id(pre.nodes@, pre.edges@[k].from@));
                assert(has_id(pre.nodes@, pre.edges@[k].to@));
            }
            assert forall|k: Seq<char>| self.spec_keypairs().dom().contains(k) implies #[trigger] node_ids(
                m,
            ).contains(k) by {
                assert(node_ids(pre.nodes@).contains(k));
            }
        }
        true
    }

    /// Clears nodes, edges, keypairs and sessions.
    pub fn teardown(&mut self)
        ensures
            final(self).wf(),
            final(self).spec_nodes().len() == 0,
            final(self).spec_edges().len() == 0,
            final(self).spec_keypairs().is_empty(),
            final(self).spec_sessions().is_empty(),
    {
        self.nodes.clear();
        self.edges.clear();
        self.keypairs.clear();
        self.sessions.clear();
        proof {
            assert(as_map(self.keypairs@) =~= Map::<Seq<char>, K>::empty());
            assert(as_map(self.sessions@) =~= Map::<Seq<char>, S>::empty());
        }
    }

    /// Moves the node `id`. Returns whether there is such a node.
    pub fn set_position(&mut self, id: &str, x: i64, y: i64) -> (r: bool)
        requires
            old(self).wf(),
        ensures
            final(self).wf(),
            final(self).same_links(old(self)),
            r == has_id(old(self).spec_nodes(), id@),
            !r ==> final(self).spec_nodes() == old(self).spec_nodes(),
            r ==> {
                let i = node_index(old(self).spec_nodes(), id@);
                let n = final(self).spec_nodes()[i];
                &&& final(self).spec_nodes() == old(self).spec_nodes().update(i, n)
                &&& n.spec_position() == (x, y)
                &&& n == moved(old(self).spec_nodes()[i], x, y)
            },
    {
        let i = match find_node(&self.nodes, id) {
            None => {
                return false;
            },
            Some(i) => i,
        };
        proof {
            lemma_node_index(self.nodes@, i as int);
        }
        let ghost pre = *self;
        let mut n = self.nodes.remove(i);
        n.set_position(x, y);
        self.nodes.insert(i, n);
        proof {
            assert(self.nodes@ =~= pre.nodes@.update(i as int, self.nodes@[i as int]));
            lemma_has_id_update(pre.nodes@, i as int, self.nodes@[i as int]);
            pre.lemma_dom_after_nodes_change(self);
        }
        true
    }


    /// The endpoint of the storage node `id`, where it exists and has one.
    pub fn endpoint_of(&self, id: &str) -> (r: Option<&String>)
        requires
            self.wf(),
        ensures
            r is Some <==> is_homeserver(self.spec_nodes(), id@) && homeserver_of(
                self.spec_nodes(),
                id@,
            ).http_url is Some,
            r is Some ==> *r->0 == homeserver_of(self.spec_nodes(), id@).http_url->0,
    {
        match find_node(&self.nodes, id) {
            None => None,
            Some(i) => {
                proof {
                    lemma_node_index(self.nodes@, i as int);
                }
                match &self.nodes[i] {
                    Node::Homeserver(h) => match &h.http_url {
                        Some(u) => Some(u),
                        None => None,
                    },
                    Node::Client(_) => None,
                }
            },
        }
    }

    /// Writes back positions from a layout: each `(id, x, y)` in turn moves
    /// the node `id`, if there is one. Nothing but positions changes.
    pub fn apply_positions(&mut self, positions: &Vec<(String, i64, i64)>)
        requires
            old(self).wf(),
        ensures
            final(self).wf(),
            final(self).same_links(old(self)),
            final(self).spec_nodes() == placed(old(self).spec_nodes(), positions@, positions@.len() as int),
    {
        let mut i: usize = 0;
        while i < positions.len()
            invariant
                self.wf(),
                self.same_links(old(self)),
                i <= positions@.len(),
                self.spec_nodes() == placed(old(self).spec_nodes(), positions@, i as int),
            decreases positions@.len() - i,
        {
            let p = &positions[i];
            self.set_position(p.0.as_str(), p.1, p.2);
            i = i + 1;
        }
    }

    /// The endpoints of the storage nodes that have one, in node order.
    pub fn homeserver_urls(&self) -> (r: Vec<String>)
        ensures
            r@.map_values(|u: String| u@) == endpoints(self.spec_nodes()),
    {
        let mut out: Vec<String> = Vec::new();
        let mut i: usize = 0;
        while i < self.nodes.len()
            invariant
                i <= self.nodes@.len(),
                out@.map_values(|u: String| u@) == endpoints(self.nodes@.subrange(0, i as int)),
            decreases self.nodes@.len() - i,
        {
            proof {
                assert(self.nodes@.subrange(0, i + 1).drop_last() =~= self.nodes@.subrange(0, i as int));
            }
            match &self.nodes[i] {
                Node::Homeserver(h) => match &h.http_url {
                    Some(u) => {
                        out.push(u.clone());
                        proof {
                            assert(out@.map_values(|u: String| u@) =~= endpoints(
                                self.nodes@.subrange(0, i + 1),
                            ));
                        }
                    },
                    None => {},
                },
                Node::Client(_) => {},
            }
            i = i + 1;
        }
        proof {
            assert(self.nodes@.subrange(0, self.nodes@.len() as int) =~= self.nodes@);
        }
        out
    }

    /// How many storage nodes there are.
    pub fn homeserver_count(&self) -> (r: usize)
        ensures
            r == count_homeservers(self.spec_nodes()),
    {
        let mut c: usize = 0;
        let mut i: usize = 0;
        while i < self.nodes.len()
            invariant
                i <= self.nodes@.len(),
                c == count_homeservers(self.nodes@.subrange(0, i as int)),
                c <= i,
            decreases self.nodes@.len() - i,
        {
            proof {
                assert(self.nodes@.subrange(0, i + 1).drop_last() =~= self.nodes@.subrange(0, i as int));
            }
            if matches!(self.nodes[i], Node::Homeserver(_)) {
                c = c + 1;
            }
            i = i + 1;
        }
        proof {
            assert(self.nodes@.subrange(0, self.nodes@.len() as int) =~= self.nodes@);
        }
        c
    }

    /// How many client identities there are.
    pub fn client_count(&self) -> (r: usize)
        ensures
            r == self.spec_nodes().len() - count_homeservers(self.spec_nodes()),
    {
        let h = self.homeserver_count();
        proof {
            lemma_count_bound(self.nodes@);
        }
        self.nodes.len() - h
    }
}

/// Every edge of a well-formed registry joins two nodes that exist at the
/// time it is read. Each operation of the registry keeps `wf`, so this holds
/// after any sequence of creations, connects and removals.
pub proof fn lemma_edges_have_endpoints<K, S>(r: &NodeRegistry<K, S>, e: int)
    requires
        r.wf(),
        0 <= e < r.spec_edges().len(),
    ensures
        has_id(r.spec_nodes(), r.spec_edges()[e].from@),
        has_id(r.spec_nodes(), r.spec_edges()[e].to@),
{
}

/// Connecting the same client twice leaves the second session stored for it:
/// a later read or write of that client uses the second session.
pub proof fn lemma_session_replaced<K, S>(
    r0: &NodeRegistry<K, S>,
    r1: &NodeRegistry<K, S>,
    r2: &NodeRegistry<K, S>,
    client: Seq<char>,
    s1: S,
    s2: S,
)
    requires
        r1.spec_sessions() == r0.spec_sessions().insert(client, s1),
        r2.spec_sessions() == r1.spec_sessions().insert(client, s2),
    ensures
        r2.spec_sessions().contains_key(client),
        r2.spec_sessions()[client] == s2,
        r2.spec_sessions().dom() == r1.spec_sessions().dom(),
{
    assert(r2.spec_sessions().dom() =~= r1.spec_sessions().dom());
}

} // verus!
