use publar::registry::{HomeserverInfo, NodeRegistry, RegistryError};
use publar::topology::{ConnectivityStatus, Node, NodeStatus};

fn info(port: u16, key: &str) -> HomeserverInfo {
    HomeserverInfo {
        port,
        public_key: key.to_string(),
        http_url: format!("http://localhost:{}/", port),
    }
}

fn edges_attached(r: &NodeRegistry<u32, u32>) -> bool {
    r.edges().iter().all(|e| {
        r.nodes().iter().any(|n| n.id() == e.from) && r.nodes().iter().any(|n| n.id() == e.to)
    })
}

fn running_pair() -> NodeRegistry<u32, u32> {
    let mut r: NodeRegistry<u32, u32> = NodeRegistry::new();
    r.add_storage_node("hs1".to_string(), "Homeserver hs1".to_string(), 0, 0).unwrap();
    r.storage_node_ready("hs1", info(6286, "key1")).unwrap();
    r.add_client_identity("c1".to_string(), "Client c1".to_string(), "pk1".to_string(), 7, 0, 0)
        .unwrap();
    r
}

#[test]
fn storage_node_starts_then_runs() {
    let mut r: NodeRegistry<u32, u32> = NodeRegistry::new();
    r.add_storage_node("hs1".to_string(), "H".to_string(), 1, 2).unwrap();
    assert_eq!(*r.nodes()[0].status(), NodeStatus::Starting);
    r.storage_node_ready("hs1", info(80, "k")).unwrap();
    assert_eq!(*r.nodes()[0].status(), NodeStatus::Running);
    assert_eq!(r.nodes()[0].public_key(), Some("k"));
    assert_eq!(r.homeserver_urls(), vec!["http://localhost:80/".to_string()]);
}

#[test]
fn failed_provisioning_marks_error() {
    let mut r: NodeRegistry<u32, u32> = NodeRegistry::new();
    r.add_storage_node("hs1".to_string(), "H".to_string(), 1, 2).unwrap();
    r.storage_node_failed("hs1").unwrap();
    assert_eq!(*r.nodes()[0].status(), NodeStatus::Error);
    assert_eq!(r.storage_node_failed("nope"), Err(RegistryError::NotFound));
}

#[test]
fn duplicate_ids_are_refused() {
    let mut r = running_pair();
    assert_eq!(
        r.add_storage_node("c1".to_string(), "X".to_string(), 0, 0),
        Err(RegistryError::DuplicateId)
    );
    assert_eq!(r.nodes().len(), 2);
}

#[test]
fn connect_checks_ids_and_readiness() {
    let mut r = running_pair();
    assert_eq!(r.connect_target("nobody", "hs1").err(), Some(RegistryError::NotFound));
    assert_eq!(r.connect_target("c1", "nowhere").err(), Some(RegistryError::NotFound));
    r.add_storage_node("hs2".to_string(), "H2".to_string(), 0, 0).unwrap();
    assert_eq!(r.connect_target("c1", "hs2").err(), Some(RegistryError::NotReady));
    let (kp, pk) = r.connect_target("c1", "hs1").unwrap();
    assert_eq!((*kp, pk), (7, "key1"));
}

#[test]
fn read_or_write_without_session_fails() {
    let r = running_pair();
    assert_eq!(r.session("c1").err(), Some(RegistryError::NoSession));
}

#[test]
fn second_connect_replaces_session() {
    let mut r = running_pair();
    r.complete_connect("c1", "hs1", 100).unwrap();
    assert_eq!(r.session("c1"), Ok(&100));
    r.complete_connect("c1", "hs1", 200).unwrap();
    assert_eq!(r.session("c1"), Ok(&200));
    assert_eq!(r.edges().len(), 2);
}

#[test]
fn connect_adds_edge_and_notes_node() {
    let mut r = running_pair();
    r.complete_connect("c1", "hs1", 1).unwrap();
    assert_eq!(r.edges()[0].from, "c1");
    assert_eq!(r.edges()[0].to, "hs1");
    match &r.nodes()[1] {
        Node::Client(c) => assert_eq!(c.connected_homeserver.as_deref(), Some("hs1")),
        _ => panic!("expected a client"),
    }
    assert_eq!(r.complete_connect("c1", "ghost", 2), Err(RegistryError::NotFound));
}

#[test]
fn edges_stay_attached_through_removals() {
    let mut r = running_pair();
    r.add_client_identity("c2".to_string(), "C2".to_string(), "pk2".to_string(), 8, 0, 0)
        .unwrap();
    r.complete_connect("c1", "hs1", 1).unwrap();
    r.complete_connect("c2", "hs1", 2).unwrap();
    assert!(edges_attached(&r));
    assert!(r.remove_node("c1"));
    assert!(edges_attached(&r));
    assert_eq!(r.edges().len(), 1);
    assert_eq!(r.session("c1").err(), Some(RegistryError::NoSession));
    assert!(r.remove_node("hs1"));
    assert!(edges_attached(&r));
    assert!(r.edges().is_empty());
    assert!(!r.remove_node("hs1"));
}

#[test]
fn teardown_clears_everything() {
    let mut r = running_pair();
    r.complete_connect("c1", "hs1", 1).unwrap();
    r.teardown();
    assert!(r.nodes().is_empty());
    assert!(r.edges().is_empty());
    assert!(r.session("c1").is_err());
    r.teardown();
    assert!(r.nodes().is_empty());
}

#[test]
fn positions_are_written_back() {
    let mut r = running_pair();
    assert!(r.set_position("c1", 5, 6));
    assert_eq!(r.nodes()[1].position(), (5, 6));
    r.apply_positions(&vec![("hs1".to_string(), 9, 10), ("missing".to_string(), 1, 1)]);
    assert_eq!(r.nodes()[0].position(), (9, 10));
    assert_eq!(r.homeserver_count(), 1);
    assert_eq!(r.client_count(), 1);
}

#[test]
fn connectivity_tests_are_recorded_on_storage_nodes_only() {
    let mut r = running_pair();
    r.set_connectivity("hs1", ConnectivityStatus::Testing).unwrap();
    match &r.nodes()[0] {
        Node::Homeserver(h) => assert_eq!(h.connectivity_status, ConnectivityStatus::Testing),
        _ => panic!("expected a storage node"),
    }
    assert_eq!(r.set_connectivity("c1", ConnectivityStatus::Connected), Err(RegistryError::NotFound));
}
