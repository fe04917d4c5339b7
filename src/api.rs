//! What the local HTTP API reports: the endpoints of the storage nodes.

use vstd::prelude::*;
use crate::registry::{endpoints, NodeRegistry};

verus! {

/// Body of the answer to `GET /homeservers`.
pub struct HomeserversResponse {
    pub homeservers: Vec<String>,
}

impl HomeserversResponse {
    /// The endpoints of the registry's storage nodes, in node order.
    pub fn from_registry<K, S>(registry: &NodeRegistry<K, S>) -> (r: Self)
        ensures
            r.homeservers@.map_values(|u: String| u@) == endpoints(registry.spec_nodes()),
    {
        HomeserversResponse { homeservers: registry.homeserver_urls() }
    }
}

} // verus!
