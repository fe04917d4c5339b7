use publar::layout::{
    isqrt, repulsion_force, ForceLayout, ForceNode, CANVAS_MAX_X, CANVAS_MAX_Y, CANVAS_MIN_X,
    CANVAS_MIN_Y, IDEAL_EDGE_LENGTH,
};
use publar::topology::{Client, Node, NodeStatus};

fn node(id: &str, x: i64, y: i64) -> ForceNode {
    ForceNode { id: id.to_string(), x, y, vx: 0, vy: 0 }
}

fn on_canvas(l: &ForceLayout) -> bool {
    l.nodes.iter().all(|n| {
        CANVAS_MIN_X <= n.x && n.x <= CANVAS_MAX_X && CANVAS_MIN_Y <= n.y && n.y <= CANVAS_MAX_Y
    })
}

#[test]
fn connected_pair_settles_near_the_ideal_length() {
    let mut l = ForceLayout {
        nodes: vec![node("a", 100_000, 400_000), node("b", 1_100_000, 400_000)],
        edges: vec![("a".to_string(), "b".to_string())],
    };
    let mut gaps = Vec::new();
    for _ in 0..300 {
        l.tick();
        assert!(on_canvas(&l));
        let d = (l.nodes[1].x - l.nodes[0].x).abs();
        assert!(d <= 1_000_000);
        gaps.push((d - IDEAL_EDGE_LENGTH).abs());
    }
    let window = |from: usize, to: usize| *gaps[from..to].iter().max().unwrap();
    assert!(window(0, 50) > window(50, 100));
    assert!(window(50, 100) > window(100, 150));
    assert_eq!(gaps[0], 777_760);
    assert!(gaps[299] <= 5_000);
}

#[test]
fn repulsion_shrinks_with_distance() {
    assert_eq!(repulsion_force(50_000), 2000);
    assert_eq!(repulsion_force(100_000), 500);
    assert_eq!(repulsion_force(150_000), 222);
    let mut last = repulsion_force(50_000);
    for d in (50_001..400_000).step_by(997) {
        let f = repulsion_force(d);
        assert!(f <= last);
        last = f;
    }
    assert!(repulsion_force(60_000) > repulsion_force(70_000));
}

#[test]
fn unconnected_nodes_push_apart() {
    let mut l = ForceLayout {
        nodes: vec![node("a", 500_000, 400_000), node("b", 520_000, 400_000)],
        edges: vec![],
    };
    l.tick();
    assert_eq!(l.nodes[0].vx, -680);
    assert_eq!(l.nodes[1].vx, 680);
    assert_eq!(l.nodes[0].x, 499_320);
    assert_eq!(l.nodes[1].x, 520_680);
    assert_eq!(l.nodes[0].vy, 0);
}

#[test]
fn positions_are_kept_on_the_canvas() {
    let mut l = ForceLayout {
        nodes: vec![ForceNode { id: "a".to_string(), x: 0, y: 5_000_000, vx: -9_000_000, vy: 0 }],
        edges: vec![("a".to_string(), "ghost".to_string())],
    };
    l.run(3);
    assert!(on_canvas(&l));
    assert_eq!(l.get_positions(), vec![("a".to_string(), CANVAS_MIN_X, CANVAS_MAX_Y)]);
}

#[test]
fn layout_from_nodes_starts_at_rest() {
    let nodes = vec![Node::Client(Client {
        id: "c".to_string(),
        name: "C".to_string(),
        public_key: "k".to_string(),
        status: NodeStatus::Running,
        connected_homeserver: None,
        x: 300_000,
        y: 200_000,
    })];
    let l = ForceLayout::from_nodes(&nodes, &[("c".to_string(), "c".to_string())]);
    assert_eq!(l.nodes[0].x, 300_000);
    assert_eq!(l.nodes[0].vx, 0);
    assert_eq!(l.edges.len(), 1);
    assert!(ForceLayout::new().nodes.is_empty());
}

#[test]
fn integer_square_roots() {
    assert_eq!(isqrt(0), 0);
    assert_eq!(isqrt(15), 3);
    assert_eq!(isqrt(16), 4);
    assert_eq!(isqrt(u64::MAX), 4_294_967_295);
}
