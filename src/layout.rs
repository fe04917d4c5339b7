//! Force-directed layout: one `tick` pushes every pair of nodes apart,
//! pulls the ends of every edge toward an ideal length, damps the
//! velocities and moves each node, keeping it on the canvas.
//!
//! Coordinates are fixed-point, [`SCALE`](crate::topology::SCALE) steps per canvas unit; forces and
//! velocities are in steps per tick. Divisions round toward zero.

use vstd::prelude::*;
use vstd::arithmetic::div_mod::{lemma_div_is_ordered, lemma_div_is_ordered_by_denominator};
use crate::topology::Node;

verus! {

/// Repulsion between two nodes: 5000 units³, in steps³.
pub const REPULSION_STRENGTH: i64 = 5_000_000_000_000;

/// A stretched edge pulls with its excess length divided by this (0.05).
pub const ATTRACTION_DIVISOR: i64 = 20;

/// Velocities keep this many hundredths of themselves each tick (0.85).
pub const DAMPING_PERCENT: i64 = 85;

/// Distance below which repulsion stops growing: 50 units.
pub const MIN_DISTANCE: i64 = 50_000;

/// Smallest distance an edge's pull is computed at: 1 unit.
pub const MIN_EDGE_DISTANCE: i64 = 1_000;

/// Target length of an edge: 150 units.
pub const IDEAL_EDGE_LENGTH: i64 = 150_000;

/// The canvas: x from 100 to 1100 units, y from 100 to 700 units.
pub const CANVAS_MIN_X: i64 = 100_000;
pub const CANVAS_MAX_X: i64 = 1_100_000;
pub const CANVAS_MIN_Y: i64 = 100_000;
pub const CANVAS_MAX_Y: i64 = 700_000;

/// Largest coordinate magnitude a tick accepts.
pub const COORD_LIMIT: i64 = 1_000_000_000;

/// Largest velocity magnitude a tick accepts, and keeps.
pub const VELOCITY_LIMIT: i64 = 1_000_000_000_000_000;

/// Most nodes and edges a tick accepts.
pub const MAX_NODES: usize = 10_000;
pub const MAX_EDGES: usize = 100_000;

/// `a / b` rounded toward zero.
pub open spec fn trunc_div(a: int, b: int) -> int {
    if a >= 0 {
        a / b
    } else {
        -((-a) / b)
    }
}

/// `r` is the integer square root of `n`.
pub open spec fn is_floor_sqrt(n: int, r: int) -> bool {
    0 <= r && r * r <= n < (r + 1) * (r + 1)
}

/// The integer square root of `n`.
pub open spec fn floor_sqrt(n: int) -> int {
    choose|r: int| is_floor_sqrt(n, r)
}

proof fn lemma_floor_sqrt_unique(n: int, r: int, s: int)
    requires
        is_floor_sqrt(n, r),
        is_floor_sqrt(n, s),
    ensures
        r == s,
{
    if r < s {
        assert((r + 1) * (r + 1) <= s * s) by (nonlinear_arith)
            requires
                0 <= r + 1 <= s,
        ;
    } else if s < r {
        assert((s + 1) * (s + 1) <= r * r) by (nonlinear_arith)
            requires
                0 <= s + 1 <= r,
        ;
    }
}

/// The integer square root: the `r` with `r * r <= n < (r + 1) * (r + 1)`.
pub fn isqrt(n: u64) -> (r: u64)
    ensures
        is_floor_sqrt(n as int, r as int),
        r == floor_sqrt(n as int),
{
    let mut lo: u64 = 0;
    let mut hi: u64 = 0x1_0000_0000;
    assert((hi as int) * (hi as int) > n) by (nonlinear_arith)
        requires
            hi == 0x1_0000_0000,
            n <= u64::MAX,
    ;
    while hi - lo > 1
        invariant
            lo < hi <= 0x1_0000_0000,
            (lo as int) * (lo as int) <= n,
            n < (hi as int) * (hi as int),
        decreases hi - lo,
    {
        let mid = lo + (hi - lo) / 2;
        assert((mid as int) * (mid as int) <= 0xffff_ffff * 0xffff_ffff) by (nonlinear_arith)
            requires
                0 <= mid < 0x1_0000_0000,
        ;
        if mid * mid <= n {
            lo = mid;
        } else {
            hi = mid;
        }
    }
    proof {
        assert(hi == lo + 1);
        assert(is_floor_sqrt(n as int, lo as int));
        let c = choose|r: int| is_floor_sqrt(n as int, r);
        lemma_floor_sqrt_unique(n as int, lo as int, c);
    }
    lo
}

/// `a / b` rounded toward zero.
pub fn div_toward_zero(a: i64, b: i64) -> (r: i64)
    requires
        b > 0,
        a > i64::MIN,
    ensures
        r == trunc_div(a as int, b as int),
{
    if a >= 0 {
        a / b
    } else {
        -((-a) / b)
    }
}

proof fn lemma_trunc_div_bound(a: int, f: int, d: int)
    requires
        -d <= a <= d,
        d > 0,
    ensures
        -(if f >= 0 { f } else { -f }) <= trunc_div(a * f, d) <= (if f >= 0 { f } else { -f }),
{
    let af = if f >= 0 { f } else { -f };
    let aa = if a >= 0 { a } else { -a };
    assert(aa * af <= d * af) by (nonlinear_arith)
        requires
            0 <= aa <= d,
            0 <= af,
    ;
    assert((d * af) / d == af) by (nonlinear_arith)
        requires
            d > 0,
    ;
    assert(0 <= aa * af) by (nonlinear_arith)
        requires
            0 <= aa,
            0 <= af,
    ;
    lemma_div_is_ordered(aa * af, d * af, d);
    assert((aa * af) / d >= 0) by (nonlinear_arith)
        requires
            aa * af >= 0,
            d > 0,
    ;
    if a * f >= 0 {
        assert(a * f == aa * af) by (nonlinear_arith)
            requires
                a * f >= 0,
                aa == (if a >= 0 { a } else { -a }),
                af == (if f >= 0 { f } else { -f }),
        ;
    } else {
        assert(-(a * f) == aa * af) by (nonlinear_arith)
            requires
                a * f < 0,
                aa == (if a >= 0 { a } else { -a }),
                af == (if f >= 0 { f } else { -f }),
        ;
    }
}

/// Straight-line distance for the offset `(dx, dy)`, rounded down.
pub open spec fn spec_distance(dx: int, dy: int) -> int {
    floor_sqrt(dx * dx + dy * dy)
}

/// The distance for an offset, with the facts callers need of it.
fn distance(dx: i64, dy: i64) -> (r: i64)
    requires
        -2 * COORD_LIMIT <= dx <= 2 * COORD_LIMIT,
        -2 * COORD_LIMIT <= dy <= 2 * COORD_LIMIT,
    ensures
        r == spec_distance(dx as int, dy as int),
        -r <= dx <= r,
        -r <= dy <= r,
        r <= 2_900_000_000,
{
    assert(dx * dx <= 4_000_000_000_000_000_000 && dy * dy <= 4_000_000_000_000_000_000
        && 0 <= dx * dx && 0 <= dy * dy) by (nonlinear_arith)
        requires
            -2_000_000_000 <= dx <= 2_000_000_000,
            -2_000_000_000 <= dy <= 2_000_000_000,
    ;
    let s = (dx * dx) as u64 + (dy * dy) as u64;
    let r = isqrt(s);
    proof {
        let ri = r as int;
        assert(-ri <= dx <= ri) by (nonlinear_arith)
            requires
                dx * dx <= s,
                s < (ri + 1) * (ri + 1),
                ri >= 0,
        ;
        assert(-ri <= dy <= ri) by (nonlinear_arith)
            requires
                dy * dy <= s,
                s < (ri + 1) * (ri + 1),
                ri >= 0,
        ;
        assert(ri <= 2_900_000_000) by (nonlinear_arith)
            requires
                ri * ri <= s,
                s <= 8_000_000_000_000_000_000,
                ri >= 0,
        ;
    }
    r as i64
}

/// Magnitude of the repulsion between two nodes `d` steps apart.
pub open spec fn repulsion(d: int) -> int {
    (REPULSION_STRENGTH as int) / (d * d)
}

pub fn repulsion_force(d: i64) -> (r: i64)
    requires
        MIN_DISTANCE <= d <= 2_900_000_000,
    ensures
        r == repulsion(d as int),
        0 <= r <= 2000,
{
    assert(MIN_DISTANCE * MIN_DISTANCE <= d * d <= 2_900_000_000 * 2_900_000_000) by (nonlinear_arith)
        requires
            MIN_DISTANCE <= d <= 2_900_000_000,
    ;
    proof {
        lemma_div_is_ordered_by_denominator(REPULSION_STRENGTH as int, MIN_DISTANCE * MIN_DISTANCE, d * d);
        assert((REPULSION_STRENGTH as int) / (MIN_DISTANCE * MIN_DISTANCE) == 2000) by (nonlinear_arith)
            requires
                REPULSION_STRENGTH == 5_000_000_000_000,
                MIN_DISTANCE == 50_000,
        ;
        assert((REPULSION_STRENGTH as int) / (d * d) >= 0) by (nonlinear_arith)
            requires
                d * d > 0,
        ;
    }
    REPULSION_STRENGTH / (d * d)
}

/// Larger of `a` and `b`.
pub open spec fn max_int(a: int, b: int) -> int {
    if a >= b {
        a
    } else {
        b
    }
}

/// The push of a node at `(xk, yk)` on a node at `(xj, yj)`: the repulsion
/// along the line from the first to the second. The first node gets the
/// opposite push.
pub open spec fn pair_push(xk: int, yk: int, xj: int, yj: int) -> (int, int) {
    let dx = xj - xk;
    let dy = yj - yk;
    let d = max_int(spec_distance(dx, dy), MIN_DISTANCE as int);
    let f = repulsion(d);
    (trunc_div(dx * f, d), trunc_div(dy * f, d))
}

/// The pull of an edge from `(xa, ya)` to `(xb, yb)` on its first end: the
/// spring force along the edge, positive when stretched. The second end gets
/// the opposite pull.
pub open spec fn spring_pull(xa: int, ya: int, xb: int, yb: int) -> (int, int) {
    let dx = xb - xa;
    let dy = yb - ya;
    let d = max_int(spec_distance(dx, dy), MIN_EDGE_DISTANCE as int);
    let f = trunc_div(d - IDEAL_EDGE_LENGTH, ATTRACTION_DIVISOR as int);
    (trunc_div(dx * f, d), trunc_div(dy * f, d))
}

pub open spec fn in_coord_range(v: int) -> bool {
    -COORD_LIMIT <= v <= COORD_LIMIT
}

fn compute_pair_push(xk: i64, yk: i64, xj: i64, yj: i64) -> (r: (i64, i64))
    requires
        in_coord_range(xk as int),
        in_coord_range(yk as int),
        in_coord_range(xj as int),
        in_coord_range(yj as int),
    ensures
        (r.0 as int, r.1 as int) == pair_push(xk as int, yk as int, xj as int, yj as int),
        -2000 <= r.0 <= 2000,
        -2000 <= r.1 <= 2000,
{
    let dx = xj - xk;
    let dy = yj - yk;
    let r0 = distance(dx, dy);
    let d = if r0 >= MIN_DISTANCE {
        r0
    } else {
        MIN_DISTANCE
    };
    let f = repulsion_force(d);
    proof {
        lemma_trunc_div_bound(dx as int, f as int, d as int);
        lemma_trunc_div_bound(dy as int, f as int, d as int);
    }
    assert(-2000 * 2_900_000_000 <= dx * f <= 2000 * 2_900_000_000) by (nonlinear_arith)
        requires
            -2_000_000_000 <= dx <= 2_000_000_000,
            0 <= f <= 2000,
    ;
    assert(-2000 * 2_900_000_000 <= dy * f <= 2000 * 2_900_000_000) by (nonlinear_arith)
        requires
            -2_000_000_000 <= dy <= 2_000_000_000,
            0 <= f <= 2000,
    ;
    (div_toward_zero(dx * f, d), div_toward_zero(dy * f, d))
}

fn compute_spring_pull(xa: i64, ya: i64, xb: i64, yb: i64) -> (r: (i64, i64))
    requires
        in_coord_range(xa as int),
        in_coord_range(ya as int),
        in_coord_range(xb as int),
        in_coord_range(yb as int),
    ensures
        (r.0 as int, r.1 as int) == spring_pull(xa as int, ya as int, xb as int, yb as int),
        -150_000_000 <= r.0 <= 150_000_000,
        -150_000_000 <= r.1 <= 150_000_000,
{
    let dx = xb - xa;
    let dy = yb - ya;
    let r0 = distance(dx, dy);
    let d = if r0 >= MIN_EDGE_DISTANCE {
        r0
    } else {
        MIN_EDGE_DISTANCE
    };
    let f = div_toward_zero(d - IDEAL_EDGE_LENGTH, ATTRACTION_DIVISOR);
    proof {
        lemma_trunc_div_bound(dx as int, f as int, d as int);
        lemma_trunc_div_bound(dy as int, f as int, d as int);
        let e = d - IDEAL_EDGE_LENGTH;
        if e >= 0 {
            lemma_div_is_ordered(e as int, 3_000_000_000, 20);
        } else {
            lemma_div_is_ordered((-e) as int, 3_000_000_000, 20);
        }
    }
    assert(-150_000_000 * 2_000_000_000 <= dx * f <= 150_000_000 * 2_000_000_000) by (nonlinear_arith)
        requires
            -2_000_000_000 <= dx <= 2_000_000_000,
            -150_000_000 <= f <= 150_000_000,
    ;
    assert(-150_000_000 * 2_000_000_000 <= dy * f <= 150_000_000 * 2_000_000_000) by (nonlinear_arith)
        requires
            -2_000_000_000 <= dy <= 2_000_000_000,
            -150_000_000 <= f <= 150_000_000,
    ;
    (div_toward_zero(dx * f, d), div_toward_zero(dy * f, d))
}

/// A node as the layout sees it: position and velocity.
#[derive(Clone, Debug)]
pub struct ForceNode {
    pub id: String,
    pub x: i64,
    pub y: i64,
    pub vx: i64,
    pub vy: i64,
}

/// The nodes being laid out and the edges between them, as id pairs.
pub struct ForceLayout {
    pub nodes: Vec<ForceNode>,
    pub edges: Vec<(String, String)>,
}

/// The sum of the pushes on node `k` from the nodes before index `m`.
pub open spec fn push_sum(nodes: Seq<ForceNode>, k: int, m: int) -> (int, int)
    decreases m,
{
    if m <= 0 {
        (0, 0)
    } else {
        let p = push_sum(nodes, k, m - 1);
        if m - 1 == k {
            p
        } else {
            let f = pair_push(
                nodes[k].x as int,
                nodes[k].y as int,
                nodes[m - 1].x as int,
                nodes[m - 1].y as int,
            );
            (p.0 - f.0, p.1 - f.1)
        }
    }
}

/// Position of the first node with id `id`, or -1 where there is none.
pub open spec fn position_of(nodes: Seq<ForceNode>, id: Seq<char>) -> int
    decreases nodes.len(),
{
    if nodes.len() == 0 {
        -1
    } else if nodes[0].id@ == id {
        0
    } else {
        let k = position_of(nodes.drop_first(), id);
        if k < 0 {
            -1
        } else {
            k + 1
        }
    }
}

/// The ends of edge `e` and its pull on the first end; none where an end is
/// not among the nodes.
pub open spec fn edge_pull(nodes: Seq<ForceNode>, e: (String, String)) -> Option<(int, int, (int, int))> {
    let a = position_of(nodes, e.0@);
    let b = position_of(nodes, e.1@);
    if a < 0 || b < 0 {
        None
    } else {
        Some(
            (
                a,
                b,
                spring_pull(nodes[a].x as int, nodes[a].y as int, nodes[b].x as int, nodes[b].y as int),
            ),
        )
    }
}

/// The sum of the pulls on node `k` from the edges before index `m`.
pub open spec fn pull_sum(nodes: Seq<ForceNode>, edges: Seq<(String, String)>, k: int, m: int) -> (
    int,
    int,
)
    decreases m,
{
    if m <= 0 {
        (0, 0)
    } else {
        let p = pull_sum(nodes, edges, k, m - 1);
        match edge_pull(nodes, edges[m - 1]) {
            None => p,
            Some((a, b, f)) => {
                let p1 = if a == k {
                    (p.0 + f.0, p.1 + f.1)
                } else {
                    p
                };
                if b == k {
                    (p1.0 - f.0, p1.1 - f.1)
                } else {
                    p1
                }
            },
        }
    }
}

/// A velocity after damping.
pub open spec fn damp(v: int) -> int {
    trunc_div(v * DAMPING_PERCENT, 100)
}

/// `v` brought into `lo..=hi`.
pub open spec fn clamp(v: int, lo: int, hi: int) -> int {
    if v < lo {
        lo
    } else if v > hi {
        hi
    } else {
        v
    }
}

/// Node `k` after one tick, as `(x, y, vx, vy)`: every other node pushes it,
/// every edge at it pulls, the velocity is damped, the position moves by
/// the velocity and is kept on the canvas.
pub open spec fn ticked(nodes: Seq<ForceNode>, edges: Seq<(String, String)>, k: int) -> (
    int,
    int,
    int,
    int,
) {
    let r = push_sum(nodes, k, nodes.len() as int);
    let s = pull_sum(nodes, edges, k, edges.len() as int);
    let vx = damp(nodes[k].vx + r.0 + s.0);
    let vy = damp(nodes[k].vy + r.1 + s.1);
    (
        clamp(nodes[k].x + vx, CANVAS_MIN_X as int, CANVAS_MAX_X as int),
        clamp(nodes[k].y + vy, CANVAS_MIN_Y as int, CANVAS_MAX_Y as int),
        vx,
        vy,
    )
}

/// Whether a position lies on the canvas.
pub open spec fn on_canvas(x: int, y: int) -> bool {
    CANVAS_MIN_X <= x <= CANVAS_MAX_X && CANVAS_MIN_Y <= y <= CANVAS_MAX_Y
}

proof fn lemma_position_of(nodes: Seq<ForceNode>, id: Seq<char>, i: int)
    requires
        0 <= i <= nodes.len(),
        forall|j: int| 0 <= j < i ==> (#[trigger] nodes[j]).id@ != id,
        i < nodes.len() ==> nodes[i].id@ == id,
    ensures
        position_of(nodes, id) == (if i == nodes.len() { -1 } else { i }),
    decreases i,
{
    if i > 0 {
        let t = nodes.drop_first();
        assert(nodes[0].id@ != id);
        assert forall|j: int| 0 <= j < i - 1 implies (#[trigger] t[j]).id@ != id by {
            assert(t[j] == nodes[j + 1]);
        }
        if i < nodes.len() {
            assert(t[i - 1] == nodes[i]);
        }
        lemma_position_of(t, id, i - 1);
    }
}

fn find_force_node(nodes: &Vec<ForceNode>, id: &str) -> (r: Option<usize>)
    ensures
        match r {
            Some(i) => i < nodes@.len() && position_of(nodes@, id@) == i,
            None => position_of(nodes@, id@) == -1,
        },
{
    let mut i: usize = 0;
    while i < nodes.len()
        invariant
            i <= nodes@.len(),
            forall|j: int| 0 <= j < i ==> (#[trigger] nodes@[j]).id@ != id@,
        decreases nodes@.len() - i,
    {
        if crate::text::str_eq(nodes[i].id.as_str(), id) {
            proof {
                lemma_position_of(nodes@, id@, i as int);
            }
            return Some(i);
        }
        i = i + 1;
    }
    proof {
        lemma_position_of(nodes@, id@, nodes@.len() as int);
    }
    None
}

/// All nodes after one tick.
pub open spec fn ticked_nodes(nodes: Seq<ForceNode>, edges: Seq<(String, String)>) -> Seq<ForceNode> {
    Seq::new(
        nodes.len(),
        |k: int|
            ForceNode {
                id: nodes[k].id,
                x: ticked(nodes, edges, k).0 as i64,
                y: ticked(nodes, edges, k).1 as i64,
                vx: ticked(nodes, edges, k).2 as i64,
                vy: ticked(nodes, edges, k).3 as i64,
            },
    )
}

/// All nodes after `m` ticks.
pub open spec fn ticked_times(nodes: Seq<ForceNode>, edges: Seq<(String, String)>, m: nat) -> Seq<
    ForceNode,
>
    decreases m,
{
    if m == 0 {
        nodes
    } else {
        ticked_nodes(ticked_times(nodes, edges, (m - 1) as nat), edges)
    }
}

/// Repulsion never grows with distance. It strictly shrinks from `d1` to
/// `d2` wherever the exact magnitudes `REPULSION_STRENGTH / d²` differ by at
/// least one step, that is where `REPULSION_STRENGTH * (d2² - d1²) >= d1² * d2²`.
pub proof fn lemma_repulsion_monotone(d1: int, d2: int)
    requires
        MIN_DISTANCE <= d1 < d2,
    ensures
        repulsion(d1) >= repulsion(d2),
        (REPULSION_STRENGTH as int) * (d2 * d2 - d1 * d1) >= (d1 * d1) * (d2 * d2) ==> repulsion(d1)
            > repulsion(d2),
{
    let k = REPULSION_STRENGTH as int;
    let a = d1 * d1;
    let b = d2 * d2;
    assert(0 < a < b) by (nonlinear_arith)
        requires
            50_000 <= d1 < d2,
            a == d1 * d1,
            b == d2 * d2,
    ;
    lemma_div_is_ordered_by_denominator(k, a, b);
    if k * (b - a) >= a * b {
        let q = k / b;
        assert(q * b <= k) by (nonlinear_arith)
            requires
                b > 0,
                q == k / b,
                k >= 0,
        ;
        assert((q + 1) * a * b <= k * b) by (nonlinear_arith)
            requires
                q * b <= k,
                k * (b - a) >= a * b,
                0 < a < b,
        ;
        assert((q + 1) * a <= k) by (nonlinear_arith)
            requires
                (q + 1) * a * b <= k * b,
                b > 0,
        ;
        lemma_div_is_ordered((q + 1) * a, k, a);
        assert(((q + 1) * a) / a == q + 1) by (nonlinear_arith)
            requires
                a > 0,
        ;
    }
}

impl ForceLayout {
    /// Sizes within bounds, positions within the coordinate limit,
    /// velocities within the velocity limit.
    pub open spec fn wf(&self) -> bool {
        &&& self.nodes@.len() <= MAX_NODES
        &&& self.edges@.len() <= MAX_EDGES
        &&& forall|k: int|
            0 <= k < self.nodes@.len() ==> {
                let n = #[trigger] self.nodes@[k];
                &&& in_coord_range(n.x as int)
                &&& in_coord_range(n.y as int)
                &&& -VELOCITY_LIMIT <= n.vx <= VELOCITY_LIMIT
                &&& -VELOCITY_LIMIT <= n.vy <= VELOCITY_LIMIT
            }
    }

    /// An empty layout.
    pub fn new() -> (r: Self)
        ensures
            r.wf(),
            r.nodes@.len() == 0,
            r.edges@.len() == 0,
    {
        ForceLayout { nodes: Vec::new(), edges: Vec::new() }
    }

    /// A layout of `nodes` at their positions, at rest, with `edges`.
    pub fn from_nodes(nodes: &[Node], edges: &[(String, String)]) -> (r: Self)
        requires
            nodes@.len() <= MAX_NODES,
            edges@.len() <= MAX_EDGES,
            forall|k: int|
                0 <= k < nodes@.len() ==> in_coord_range((#[trigger] nodes@[k]).spec_position().0 as int)
                    && in_coord_range(nodes@[k].spec_position().1 as int),
        ensures
            r.wf(),
            r.edges@ == edges@,
            r.nodes@.len() == nodes@.len(),
            forall|k: int|
                0 <= k < nodes@.len() ==> {
                    let f = #[trigger] r.nodes@[k];
                    &&& f.id@ == nodes@[k].spec_id()
                    &&& (f.x, f.y) == nodes@[k].spec_position()
                    &&& f.vx == 0 && f.vy == 0
                },
    {
        let mut out: Vec<ForceNode> = Vec::new();
        let mut i: usize = 0;
        while i < nodes.len()
            invariant
                i <= nodes@.len() <= MAX_NODES,
                out@.len() == i,
                forall|k: int|
                    0 <= k < nodes@.len() ==> in_coord_range((#[trigger] nodes@[k]).spec_position().0 as int)
                        && in_coord_range(nodes@[k].spec_position().1 as int),
                forall|k: int|
                    0 <= k < i ==> {
                        let f = #[trigger] out@[k];
                        &&& f.id@ == nodes@[k].spec_id()
                        &&& (f.x, f.y) == nodes@[k].spec_position()
                        &&& f.vx == 0 && f.vy == 0
                    },
            decreases nodes@.len() - i,
        {
            let (x, y) = nodes[i].position();
            out.push(ForceNode { id: nodes[i].id().to_owned(), x, y, vx: 0, vy: 0 });
            i = i + 1;
        }
        let mut es: Vec<(String, String)> = Vec::new();
        let mut j: usize = 0;
        while j < edges.len()
            invariant
                j <= edges@.len(),
                es@ == edges@.subrange(0, j as int),
            decreases edges@.len() - j,
        {
            es.push((edges[j].0.clone(), edges[j].1.clone()));
            proof {
                assert(es@ =~= edges@.subrange(0, j + 1));
            }
            j = j + 1;
        }
        proof {
            assert(edges@.subrange(0, edges@.len() as int) =~= edges@);
        }
        ForceLayout { nodes: out, edges: es }
    }

    /// `iterations` ticks.
    pub fn run(&mut self, iterations: usize)
        requires
            old(self).wf(),
        ensures
            final(self).wf(),
            final(self).edges@ == old(self).edges@,
            final(self).nodes@ == ticked_times(old(self).nodes@, old(self).edges@, iterations as nat),
    {
        let mut i: usize = 0;
        while i < iterations
            invariant
                self.wf(),
                i <= iterations,
                self.edges@ == old(self).edges@,
                self.nodes@ == ticked_times(old(self).nodes@, old(self).edges@, i as nat),
            decreases iterations - i,
        {
            self.tick();
            i = i + 1;
        }
    }

    /// Each node's id and position, in node order.
    pub fn get_positions(&self) -> (r: Vec<(String, i64, i64)>)
        ensures
            r@.len() == self.nodes@.len(),
            forall|k: int|
                0 <= k < r@.len() ==> (#[trigger] r@[k]).0 == self.nodes@[k].id && r@[k].1
                    == self.nodes@[k].x && r@[k].2 == self.nodes@[k].y,
    {
        let mut out: Vec<(String, i64, i64)> = Vec::new();
        let mut i: usize = 0;
        while i < self.nodes.len()
            invariant
                i <= self.nodes@.len(),
                out@.len() == i,
                forall|k: int|
                    0 <= k < i ==> (#[trigger] out@[k]).0 == self.nodes@[k].id && out@[k].1
                        == self.nodes@[k].x && out@[k].2 == self.nodes@[k].y,
            decreases self.nodes@.len() - i,
        {
            let n = &self.nodes[i];
            out.push((n.id.clone(), n.x, n.y));
            i = i + 1;
        }
        out
    }

    fn edge_pulls(&self) -> (r: Vec<Option<(usize, usize, i64, i64)>>)
        requires
            self.wf(),
        ensures
            r@.len() == self.edges@.len(),
            forall|e: int|
                0 <= e < r@.len() ==> match (#[trigger] r@[e], edge_pull(self.nodes@, self.edges@[e])) {
                    (None, None) => true,
                    (Some(p), Some(q)) => p.0 == q.0 && p.1 == q.1 && p.2 == q.2.0 && p.3 == q.2.1
                        && -150_000_000 <= p.2 <= 150_000_000 && -150_000_000 <= p.3 <= 150_000_000,
                    _ => false,
                },
    {
        let mut out: Vec<Option<(usize, usize, i64, i64)>> = Vec::new();
        let mut e: usize = 0;
        while e < self.edges.len()
            invariant
                self.wf(),
                e <= self.edges@.len(),
                out@.len() == e,
                forall|i: int|
                    0 <= i < e ==> match (#[trigger] out@[i], edge_pull(self.nodes@, self.edges@[i])) {
                        (None, None) => true,
                        (Some(p), Some(q)) => p.0 == q.0 && p.1 == q.1 && p.2 == q.2.0 && p.3
                            == q.2.1 && -150_000_000 <= p.2 <= 150_000_000 && -150_000_000 <= p.3
                            <= 150_000_000,
                        _ => false,
                    },
            decreases self.edges@.len() - e,
        {
            let a = find_force_node(&self.nodes, self.edges[e].0.as_str());
            let b = find_force_node(&self.nodes, self.edges[e].1.as_str());
            let item = match (a, b) {
                (Some(a), Some(b)) => {
                    let na = &self.nodes[a];
                    let nb = &self.nodes[b];
                    let f = compute_spring_pull(na.x, na.y, nb.x, nb.y);
                    Some((a, b, f.0, f.1))
                },
                _ => None,
            };
            out.push(item);
            e = e + 1;
        }
        out
    }

    /// One step of the simulation; see [`ticked`].
    pub fn tick(&mut self)
        requires
            old(self).wf(),
        ensures
            final(self).wf(),
            final(self).edges@ == old(self).edges@,
            final(self).nodes@.len() == old(self).nodes@.len(),
            final(self).nodes@ == ticked_nodes(old(self).nodes@, old(self).edges@),
            forall|k: int|
                0 <= k < final(self).nodes@.len() ==> {
                    let n = #[trigger] final(self).nodes@[k];
                    &&& n.id == old(self).nodes@[k].id
                    &&& (n.x as int, n.y as int, n.vx as int, n.vy as int) == ticked(
                        old(self).nodes@,
                        old(self).edges@,
                        k,
                    )
                    &&& on_canvas(n.x as int, n.y as int)
                },
    {
        let pulls = self.edge_pulls();
        let count = self.nodes.len();
        let mut next: Vec<ForceNode> = Vec::new();
        let mut k: usize = 0;
        while k < count
            invariant
                self.wf(),
                count == self.nodes@.len(),
                pulls@.len() == self.edges@.len(),
                forall|e: int|
                    0 <= e < pulls@.len() ==> match (#[trigger] pulls@[e], edge_pull(self.nodes@, self.edges@[e])) {
                        (None, None) => true,
                        (Some(p), Some(q)) => p.0 == q.0 && p.1 == q.1 && p.2 == q.2.0 && p.3
                            == q.2.1 && -150_000_000 <= p.2 <= 150_000_000 && -150_000_000 <= p.3
                            <= 150_000_000,
                        _ => false,
                    },
                k <= count,
                next@.len() == k,
                forall|i: int|
                    0 <= i < k ==> {
                        let n = #[trigger] next@[i];
                        &&& n.id == self.nodes@[i].id
                        &&& (n.x as int, n.y as int, n.vx as int, n.vy as int) == ticked(
                            self.nodes@,
                            self.edges@,
                            i,
                        )
                        &&& on_canvas(n.x as int, n.y as int)
                        &&& -VELOCITY_LIMIT <= n.vx <= VELOCITY_LIMIT
                        &&& -VELOCITY_LIMIT <= n.vy <= VELOCITY_LIMIT
                    },
            decreases count - k,
        {
            let me = &self.nodes[k];
            let mut rx: i64 = 0;
            let mut ry: i64 = 0;
            let mut j: usize = 0;
            while j < count
                invariant
                    self.wf(),
                    count == self.nodes@.len() <= MAX_NODES,
                    k < count,
                    *me == self.nodes@[k as int],
                    j <= count,
                    (rx as int, ry as int) == push_sum(self.nodes@, k as int, j as int),
                    -2000 * j <= rx <= 2000 * j,
                    -2000 * j <= ry <= 2000 * j,
                decreases count - j,
            {
                if j != k {
                    let other = &self.nodes[j];
                    let f = compute_pair_push(me.x, me.y, other.x, other.y);
                    rx = rx - f.0;
                    ry = ry - f.1;
                }
                j = j + 1;
            }
            let mut sx: i64 = 0;
            let mut sy: i64 = 0;
            let mut e: usize = 0;
            while e < pulls.len()
                invariant
                    self.wf(),
                    pulls@.len() == self.edges@.len() <= MAX_EDGES,
                    forall|e: int|
                        0 <= e < pulls@.len() ==> match (#[trigger] pulls@[e], edge_pull(self.nodes@, self.edges@[e])) {
                            (None, None) => true,
                            (Some(p), Some(q)) => p.0 == q.0 && p.1 == q.1 && p.2 == q.2.0 && p.3
                                == q.2.1 && -150_000_000 <= p.2 <= 150_000_000 && -150_000_000
                                <= p.3 <= 150_000_000,
                            _ => false,
                        },
                    e <= pulls@.len(),
                    (sx as int, sy as int) == pull_sum(self.nodes@, self.edges@, k as int, e as int),
                    -300_000_000 * e <= sx <= 300_000_000 * e,
                    -300_000_000 * e <= sy <= 300_000_000 * e,
                decreases pulls@.len() - e,
            {
                match pulls[e] {
                    None => {},
                    Some((a, b, fx, fy)) => {
                        if a == k {
                            sx = sx + fx;
                            sy = sy + fy;
                        }
                        if b == k {
                            sx = sx - fx;
                            sy = sy - fy;
                        }
                    },
                }
                e = e + 1;
            }
            let wx = me.vx + rx + sx;
            let wy = me.vy + ry + sy;
            let vx = damped(wx);
            let vy = damped(wy);
            let x = clamp_to(me.x + vx, CANVAS_MIN_X, CANVAS_MAX_X);
            let y = clamp_to(me.y + vy, CANVAS_MIN_Y, CANVAS_MAX_Y);
            next.push(ForceNode { id: me.id.clone(), x, y, vx, vy });
            k = k + 1;
        }
        proof {
            assert(next@ =~= ticked_nodes(self.nodes@, self.edges@));
        }
        self.nodes = next;
    }
}

/// Bound on what the forces of one tick add to a velocity.
pub const FORCE_SUM_LIMIT: i64 = 30_100_000_000_000;

fn damped(w: i64) -> (r: i64)
    requires
        -(VELOCITY_LIMIT + FORCE_SUM_LIMIT) <= w <= VELOCITY_LIMIT + FORCE_SUM_LIMIT,
    ensures
        r == damp(w as int),
        -VELOCITY_LIMIT <= r <= VELOCITY_LIMIT,
{
    let a = w * DAMPING_PERCENT;
    proof {
        let lim = (VELOCITY_LIMIT + FORCE_SUM_LIMIT) * 85;
        if a >= 0 {
            lemma_div_is_ordered(a as int, lim, 100);
        } else {
            lemma_div_is_ordered(-a as int, lim, 100);
        }
        assert(lim / 100 <= VELOCITY_LIMIT) by (nonlinear_arith)
            requires
                lim == (VELOCITY_LIMIT + FORCE_SUM_LIMIT) * 85,
                VELOCITY_LIMIT == 1_000_000_000_000_000,
                FORCE_SUM_LIMIT == 30_100_000_000_000,
        ;
    }
    div_toward_zero(a, 100)
}

fn clamp_to(v: i64, lo: i64, hi: i64) -> (r: i64)
    requires
        lo <= hi,
    ensures
        r == clamp(v as int, lo as int, hi as int),
        lo <= r <= hi,
{
    if v < lo {
        lo
    } else if v > hi {
        hi
    } else {
        v
    }
}

} // verus!
