//! The composition graph: nodes joined by directed connections, kept acyclic by
//! `connect`, and ordered by `topological_sort`.

use vstd::prelude::*;
use crate::refs::{AetherError, Ref};
use crate::text::{decimal, owned, push_str, u64_decimal};

verus! {

/// Unique identifier for a graph node.
pub type NodeId = u64;

/// A blend mode for overlapping visual elements.
#[derive(Debug, Clone, Copy, PartialEq, Eq, Structural)]
pub enum BlendMode {
    Normal,
    Multiply,
    Screen,
    Overlay,
    SoftLight,
}

/// A type of visual transition.
#[derive(Debug, Clone, Copy, PartialEq, Eq, Structural)]
pub enum TransitionKind {
    Crossfade,
    Dissolve,
    WipeLeft,
    WipeRight,
    WipeUp,
    WipeDown,
    SlideLeft,
    SlideRight,
}

/// A filter applied to a node. Each parameter is an IEEE-754 single-precision value,
/// held by its bit pattern.
#[derive(Debug, Clone, Copy, PartialEq, Eq, Structural)]
pub enum FilterKind {
    GaussianBlur { radius_bits: u32 },
    Contrast { factor_bits: u32 },
    Brightness { delta_bits: u32 },
}

/// The kind of a composition node. `opacity_bits` is the bit pattern of a single-precision
/// opacity.
#[derive(Debug, Clone, Copy, PartialEq, Eq, Structural)]
pub enum NodeKind {
    Source(Ref),
    Blend { mode: BlendMode, opacity_bits: u32 },
    Transition { kind: TransitionKind, duration_ms: u32 },
    Filter { kind: FilterKind },
    Output,
}

/// A composition node with its id.
#[derive(Debug, Clone, Copy, PartialEq, Eq, Structural)]
pub struct Node {
    pub id: NodeId,
    pub kind: NodeKind,
}

/// A directed connection between two ports of the graph.
#[derive(Debug, Clone, Copy, PartialEq, Eq, Structural)]
pub struct Connection {
    pub from_node: NodeId,
    pub from_port: u8,
    pub to_node: NodeId,
    pub to_port: u8,
}

/// A directed graph of composition nodes.
#[derive(Debug)]
pub struct CompositionGraph {
    nodes: Vec<Node>,
    connections: Vec<Connection>,
    output_node: Option<NodeId>,
}

// ---------------------------------------------------------------------------
// Paths, reachability, cycles
// ---------------------------------------------------------------------------

/// Some connection goes from `a` to `b`.
pub open spec fn edge(conns: Seq<Connection>, a: NodeId, b: NodeId) -> bool {
    exists|k: int| 0 <= k < conns.len() && conns[k].from_node == a && conns[k].to_node == b
}

/// `p` is a nonempty walk along connections.
pub open spec fn is_path(conns: Seq<Connection>, p: Seq<NodeId>) -> bool {
    &&& p.len() >= 1
    &&& forall|i: int| 0 <= i < p.len() - 1 ==> #[trigger] edge(conns, p[i], p[i + 1])
}

/// A walk of zero or more connections leads from `a` to `b`.
pub open spec fn reachable(conns: Seq<Connection>, a: NodeId, b: NodeId) -> bool {
    exists|p: Seq<NodeId>| is_path(conns, p) && p[0] == a && p.last() == b
}

/// No walk of one or more connections returns to where it started.
pub open spec fn acyclic(conns: Seq<Connection>) -> bool {
    forall|p: Seq<NodeId>| is_path(conns, p) && p.len() >= 2 ==> p[0] != p.last()
}

// ---------------------------------------------------------------------------
// Topological orders
// ---------------------------------------------------------------------------

/// Every connection into `v` starts at a node of `placed`.
pub open spec fn ready(conns: Seq<Connection>, placed: Set<NodeId>, v: NodeId) -> bool {
    forall|k: int| 0 <= k < conns.len() && conns[k].to_node == v ==> placed.contains(#[trigger] conns[k].from_node)
}

/// `v` is a node not yet in `prefix` whose incoming connections all start in `prefix`.
pub open spec fn available(ids: Set<NodeId>, conns: Seq<Connection>, prefix: Seq<NodeId>, v: NodeId) -> bool {
    ids.contains(v) && !prefix.contains(v) && ready(conns, prefix.to_set(), v)
}

/// `s` lists every node once, each after the starting node of every connection into it.
pub open spec fn is_topo_order(ids: Set<NodeId>, conns: Seq<Connection>, s: Seq<NodeId>) -> bool {
    &&& s.no_duplicates()
    &&& s.to_set() == ids
    &&& forall|i: int| 0 <= i < s.len() ==> #[trigger] ready(conns, s.take(i).to_set(), s[i])
}

/// `s` is the topological order that always takes the greatest available node next.
pub open spec fn greedy_topo_order(ids: Set<NodeId>, conns: Seq<Connection>, s: Seq<NodeId>) -> bool {
    &&& s.len() == ids.len()
    &&& forall|i: int| 0 <= i < s.len() ==> #[trigger] available(ids, conns, s.take(i), s[i])
    &&& forall|i: int, v: NodeId| #![trigger available(ids, conns, s.take(i), v)] 0 <= i < s.len() && available(ids, conns, s.take(i), v) ==> v <= s[i]
}

/// The ids of a sequence of nodes.
pub open spec fn ids_of(nodes: Seq<Node>) -> Set<NodeId> {
    nodes.map_values(|n: Node| n.id).to_set()
}

/// The ids of a sequence of nodes are pairwise distinct.
pub open spec fn distinct_ids(nodes: Seq<Node>) -> bool {
    forall|i: int, j: int| 0 <= i < nodes.len() && 0 <= j < nodes.len() && i != j ==> nodes[i].id != nodes[j].id
}

/// The nodes of a sequence, by id.
pub open spec fn node_map(nodes: Seq<Node>) -> Map<NodeId, Node> {
    Map::new(
        |id: NodeId| exists|i: int| 0 <= i < nodes.len() && nodes[i].id == id,
        |id: NodeId| nodes[choose|i: int| 0 <= i < nodes.len() && nodes[i].id == id],
    )
}

pub open spec fn msg_source_missing(id: NodeId) -> Seq<char> {
    "Source node "@ + decimal(id as nat) + " not found"@
}

pub open spec fn msg_target_missing(id: NodeId) -> Seq<char> {
    "Target node "@ + decimal(id as nat) + " not found"@
}

pub open spec fn msg_would_cycle() -> Seq<char> {
    "Connecting these nodes would introduce a cycle"@
}

pub open spec fn msg_cycle_detected() -> Seq<char> {
    "Cycle detected during topological sorting"@
}

/// `e` is `OperationFailed` with message `m`.
pub open spec fn op_failed(e: AetherError, m: Seq<char>) -> bool {
    match e {
        AetherError::OperationFailed(s) => s@ == m,
        _ => false,
    }
}

// ---------------------------------------------------------------------------
// Lemmas
// ---------------------------------------------------------------------------

proof fn lemma_node_map_index(nodes: Seq<Node>, i: int)
    requires
        distinct_ids(nodes),
        0 <= i < nodes.len(),
    ensures
        node_map(nodes).contains_key(nodes[i].id),
        node_map(nodes)[nodes[i].id] == nodes[i],
{
    let id = nodes[i].id;
    assert(exists|j: int| 0 <= j < nodes.len() && nodes[j].id == id);
    let j = choose|j: int| 0 <= j < nodes.len() && nodes[j].id == id;
    assert(j == i);
}

proof fn lemma_ids_of_dom(nodes: Seq<Node>)
    ensures
        ids_of(nodes) == node_map(nodes).dom(),
{
    assert forall|id: NodeId| #[trigger] ids_of(nodes).contains(id) == node_map(nodes).dom().contains(id) by {
        let m = nodes.map_values(|n: Node| n.id);
        if ids_of(nodes).contains(id) {
            assert(m.contains(id));
            let j = choose|j: int| 0 <= j < m.len() && m[j] == id;
            assert(nodes[j].id == id);
        }
        if node_map(nodes).dom().contains(id) {
            let j = choose|j: int| 0 <= j < nodes.len() && nodes[j].id == id;
            assert(m[j] == id);
            assert(m.contains(id));
        }
    }
    assert(ids_of(nodes) =~= node_map(nodes).dom());
}

proof fn lemma_ids_len(nodes: Seq<Node>)
    requires
        distinct_ids(nodes),
    ensures
        ids_of(nodes).finite(),
        ids_of(nodes).len() == nodes.len(),
{
    let m = nodes.map_values(|n: Node| n.id);
    assert(m.no_duplicates()) by {
        assert forall|a: int, b: int| 0 <= a < m.len() && 0 <= b < m.len() && a != b implies m[a] != m[b] by {}
    }
    m.unique_seq_to_set();
    vstd::seq_lib::seq_to_set_is_finite(m);
}

/// A path from a node of a set closed under connections stays in the set.
proof fn lemma_closed_path(conns: Seq<Connection>, closed: Set<NodeId>, p: Seq<NodeId>)
    requires
        is_path(conns, p),
        closed.contains(p[0]),
        forall|k: int| 0 <= k < conns.len() && closed.contains(#[trigger] conns[k].from_node) ==> closed.contains(conns[k].to_node),
    ensures
        forall|i: int| 0 <= i < p.len() ==> closed.contains(#[trigger] p[i]),
    decreases p.len(),
{
    if p.len() > 1 {
        let q = p.drop_last();
        assert(is_path(conns, q)) by {
            assert forall|i: int| 0 <= i < q.len() - 1 implies #[trigger] edge(conns, q[i], q[i + 1]) by {
                assert(edge(conns, p[i], p[i + 1]));
            }
        }
        lemma_closed_path(conns, closed, q);
        assert forall|i: int| 0 <= i < p.len() implies closed.contains(#[trigger] p[i]) by {
            if i < p.len() - 1 {
                assert(q[i] == p[i]);
            } else {
                let a = i - 1;
                assert(edge(conns, p[a], p[a + 1]));
                let k = choose|k: int| 0 <= k < conns.len() && conns[k].from_node == p[a] && conns[k].to_node == p[a + 1];
                assert(q[i - 1] == p[i - 1]);
                assert(closed.contains(conns[k].from_node));
            }
        }
    }
}

/// Extending a path by one connection.
proof fn lemma_path_push(conns: Seq<Connection>, p: Seq<NodeId>, k: int)
    requires
        is_path(conns, p),
        0 <= k < conns.len(),
        conns[k].from_node == p.last(),
    ensures
        is_path(conns, p.push(conns[k].to_node)),
{
    let q = p.push(conns[k].to_node);
    assert forall|i: int| 0 <= i < q.len() - 1 implies #[trigger] edge(conns, q[i], q[i + 1]) by {
        if i < p.len() - 1 {
            assert(edge(conns, p[i], p[i + 1]));
        } else {
            assert(q[i] == conns[k].from_node && q[i + 1] == conns[k].to_node);
        }
    }
}

/// A sub-walk of a walk is a walk.
proof fn lemma_subpath(conns: Seq<Connection>, p: Seq<NodeId>, a: int, b: int)
    requires
        is_path(conns, p),
        0 <= a < b <= p.len(),
    ensures
        is_path(conns, p.subrange(a, b)),
{
    let q = p.subrange(a, b);
    assert forall|i: int| 0 <= i < q.len() - 1 implies #[trigger] edge(conns, q[i], q[i + 1]) by {
        assert(edge(conns, p[a + i], p[a + i + 1]));
    }
}

/// Joining two walks that meet.
proof fn lemma_path_concat(conns: Seq<Connection>, p: Seq<NodeId>, q: Seq<NodeId>)
    requires
        is_path(conns, p),
        is_path(conns, q),
        p.last() == q[0],
    ensures
        is_path(conns, p + q.drop_first()),
        (p + q.drop_first())[0] == p[0],
        (p + q.drop_first()).last() == q.last(),
{
    let r = p + q.drop_first();
    assert forall|i: int| 0 <= i < r.len() - 1 implies #[trigger] edge(conns, r[i], r[i + 1]) by {
        if i < p.len() - 1 {
            assert(edge(conns, p[i], p[i + 1]));
        } else if i == p.len() - 1 {
            assert(r[i] == q[0]);
            assert(r[i + 1] == q[1]);
            assert(edge(conns, q[0], q[1]));
        } else {
            let j = i - p.len() + 1;
            assert(r[i] == q[j]);
            assert(r[i + 1] == q[j + 1]);
            assert(edge(conns, q[j], q[j + 1]));
        }
    }
    if q.len() > 1 {
        assert(r.last() == q.drop_first().last());
    }
}

/// Adding a connection `c` to an acyclic graph keeps it acyclic when no walk leads
/// from `c.to_node` back to `c.from_node`.
pub proof fn law_connect_keeps_acyclic(conns: Seq<Connection>, c: Connection)
    requires
        acyclic(conns),
        !reachable(conns, c.to_node, c.from_node),
    ensures
        acyclic(conns.push(c)),
{
    let nc = conns.push(c);
    assert forall|p: Seq<NodeId>| is_path(nc, p) && p.len() >= 2 implies p[0] != p.last() by {
        if p[0] == p.last() {
            // Steps of p that no old connection realises are the new connection.
            if forall|i: int| 0 <= i < p.len() - 1 ==> #[trigger] edge(conns, p[i], p[i + 1]) {
                assert(is_path(conns, p));
            } else {
                let i = choose|i: int| 0 <= i < p.len() - 1 && !#[trigger] edge(conns, p[i], p[i + 1]);
                assert(edge(nc, p[i], p[i + 1]));
                let k = choose|k: int| 0 <= k < nc.len() && nc[k].from_node == p[i] && nc[k].to_node == p[i + 1];
                if k < conns.len() {
                    assert(conns[k] == nc[k]);
                }
                assert(p[i] == c.from_node && p[i + 1] == c.to_node);
                // Rotate: q runs from c.to_node around the cycle back to c.from_node.
                let a = p.subrange(i + 1, p.len() as int);
                let b = p.subrange(0, i + 1);
                lemma_subpath(nc, p, i + 1, p.len() as int);
                lemma_subpath(nc, p, 0, i + 1);
                assert(a.last() == p.last());
                assert(b[0] == p[0]);
                lemma_path_concat(nc, a, b);
                let q = a + b.drop_first();
                assert(q[0] == c.to_node);
                assert(q.last() == c.from_node);
                lemma_first_new_step(conns, c, q);
            }
        }
    }
}

/// A walk with the new connection from `c.to_node` to `c.from_node` gives an old walk
/// between the same two nodes.
proof fn lemma_first_new_step(conns: Seq<Connection>, c: Connection, q: Seq<NodeId>)
    requires
        is_path(conns.push(c), q),
        q[0] == c.to_node,
        q.last() == c.from_node,
    ensures
        reachable(conns, c.to_node, c.from_node),
    decreases q.len(),
{
    let nc = conns.push(c);
    if forall|i: int| 0 <= i < q.len() - 1 ==> #[trigger] edge(conns, q[i], q[i + 1]) {
        assert(is_path(conns, q)) by {
            assert forall|i: int| 0 <= i < q.len() - 1 implies #[trigger] edge(conns, q[i], q[i + 1]) by {}
        }
        assert(is_path(conns, q) && q[0] == c.to_node && q.last() == c.from_node);
        assert(reachable(conns, c.to_node, c.from_node));
    } else {
        let j = choose|j: int| 0 <= j < q.len() - 1 && !#[trigger] edge(conns, q[j], q[j + 1]);
        assert(edge(nc, q[j], q[j + 1]));
        let k = choose|k: int| 0 <= k < nc.len() && nc[k].from_node == q[j] && nc[k].to_node == q[j + 1];
        if k < conns.len() {
            assert(conns[k] == nc[k]);
        }
        assert(q[j] == c.from_node);
        // The prefix up to j ends at c.from_node and is shorter.
        lemma_subpath(nc, q, 0, j + 1);
        let r = q.subrange(0, j + 1);
        if j == 0 {
            // c.to_node == c.from_node: the one-node walk reaches it.
            let w = seq![c.to_node];
            assert(is_path(conns, w) && w[0] == c.to_node && w.last() == c.from_node);
            assert(reachable(conns, c.to_node, c.from_node));
        } else {
            lemma_first_new_step(conns, c, r);
        }
    }
}

/// A topological order never runs along a cycle: in it, each connection between
/// listed nodes goes forward.
pub proof fn law_topo_order_forward(ids: Set<NodeId>, conns: Seq<Connection>, s: Seq<NodeId>, k: int)
    requires
        is_topo_order(ids, conns, s),
        0 <= k < conns.len(),
        ids.contains(conns[k].to_node),
    ensures
        exists|i: int, j: int| 0 <= i < j < s.len() && s[i] == conns[k].from_node && s[j] == conns[k].to_node,
{
    assert(s.to_set().contains(conns[k].to_node));
    assert(s.contains(conns[k].to_node));
    let j = choose|j: int| 0 <= j < s.len() && s[j] == conns[k].to_node;
    assert(ready(conns, s.take(j).to_set(), s[j]));
    assert(s.take(j).to_set().contains(conns[k].from_node));
    assert(s.take(j).contains(conns[k].from_node));
    let i = choose|i: int| 0 <= i < s.take(j).len() && s.take(j)[i] == conns[k].from_node;
    assert(s[i] == conns[k].from_node);
}

/// The greedy order is a topological order.
pub proof fn lemma_greedy_is_topo(ids: Set<NodeId>, conns: Seq<Connection>, s: Seq<NodeId>)
    requires
        ids.finite(),
        greedy_topo_order(ids, conns, s),
    ensures
        is_topo_order(ids, conns, s),
{
    assert(s.no_duplicates()) by {
        assert forall|a: int, b: int| 0 <= a < s.len() && 0 <= b < s.len() && a != b implies s[a] != s[b] by {
            if a < b {
                assert(available(ids, conns, s.take(b), s[b]));
                assert(s.take(b)[a] == s[a]);
                assert(s.take(b).contains(s[a]));
            } else {
                assert(available(ids, conns, s.take(a), s[a]));
                assert(s.take(a)[b] == s[b]);
                assert(s.take(a).contains(s[b]));
            }
        }
    }
    assert(s.to_set().subset_of(ids)) by {
        assert forall|v: NodeId| s.to_set().contains(v) implies ids.contains(v) by {
            assert(s.contains(v));
            let i = choose|i: int| 0 <= i < s.len() && s[i] == v;
            assert(available(ids, conns, s.take(i), s[i]));
        }
    }
    s.unique_seq_to_set();
    vstd::set_lib::lemma_len_subset(s.to_set(), ids);
    assert(s.to_set() =~= ids) by {
        if !(s.to_set() =~= ids) {
            let v = choose|v: NodeId| ids.contains(v) && !s.to_set().contains(v);
            vstd::set_lib::lemma_len_subset(s.to_set(), ids.remove(v));
        }
    }
    assert forall|i: int| 0 <= i < s.len() implies #[trigger] ready(conns, s.take(i).to_set(), s[i]) by {
        assert(available(ids, conns, s.take(i), s[i]));
    }
}

/// When some nodes are left over and none of them is available, there is no topological order.
proof fn lemma_stuck_no_order(ids: Set<NodeId>, conns: Seq<Connection>, placed: Seq<NodeId>, w: NodeId)
    requires
        ids.contains(w),
        !placed.contains(w),
        forall|v: NodeId| ids.contains(v) && !placed.contains(v) ==> !ready(conns, placed.to_set(), v),
        forall|v: NodeId| placed.contains(v) ==> ids.contains(v),
    ensures
        forall|t: Seq<NodeId>| !is_topo_order(ids, conns, t),
{
    assert forall|t: Seq<NodeId>| !is_topo_order(ids, conns, t) by {
        if is_topo_order(ids, conns, t) {
            // The first position of t holding a node left over.
            assert(t.to_set().contains(w));
            assert(t.contains(w));
            let left = |i: int| 0 <= i < t.len() && !placed.contains(t[i]);
            let i0 = choose|i: int| 0 <= i < t.len() && t[i] == w;
            assert(left(i0));
            let m = lemma_first_index(left, i0);
            let v = t[m];
            assert(ids.contains(v)) by {
                assert(t.to_set().contains(v));
            }
            assert(!ready(conns, placed.to_set(), v));
            let k = choose|k: int| 0 <= k < conns.len() && conns[k].to_node == v && !placed.to_set().contains(#[trigger] conns[k].from_node);
            assert(ready(conns, t.take(m).to_set(), t[m]));
            assert(t.take(m).to_set().contains(conns[k].from_node));
            assert(t.take(m).contains(conns[k].from_node));
            let j = choose|j: int| 0 <= j < t.take(m).len() && t.take(m)[j] == conns[k].from_node;
            assert(t[j] == conns[k].from_node);
            assert(!placed.contains(t[j]));
            assert(left(j));
        }
    }
}

/// The least index satisfying a predicate, given one that does.
proof fn lemma_first_index(pred: spec_fn(int) -> bool, i: int) -> (m: int)
    requires
        i >= 0,
        pred(i),
    ensures
        0 <= m <= i,
        pred(m),
        forall|j: int| 0 <= j < m ==> !#[trigger] pred(j),
    decreases i,
{
    if exists|j: int| 0 <= j < i && #[trigger] pred(j) {
        let j = choose|j: int| 0 <= j < i && #[trigger] pred(j);
        lemma_first_index(pred, j)
    } else {
        i
    }
}

/// Some connection into `v` starts at a node of `left`.
#[verifier::opaque]
spec fn entered_from(conns: Seq<Connection>, left: Set<NodeId>, v: NodeId) -> bool {
    exists|k: int| 0 <= k < conns.len() && conns[k].to_node == v && left.contains(#[trigger] conns[k].from_node)
}

/// A walk of `n + 1` nodes of `left` ending at `w`, when every node of `left` has a
/// connection into it from a node of `left`.
proof fn lemma_walk_back(conns: Seq<Connection>, left: Set<NodeId>, w: NodeId, n: nat) -> (p: Seq<NodeId>)
    requires
        left.contains(w),
        forall|v: NodeId| #[trigger] left.contains(v) ==> entered_from(conns, left, v),
    ensures
        p.len() == n + 1,
        is_path(conns, p),
        p.last() == w,
        forall|i: int| 0 <= i < p.len() ==> left.contains(#[trigger] p[i]),
    decreases n,
{
    if n == 0 {
        let p = seq![w];
        assert(p[0] == w);
        p
    } else {
        let q = lemma_walk_back(conns, left, w, (n - 1) as nat);
        let v = q[0];
        assert(entered_from(conns, left, v));
        reveal(entered_from);
        let k = choose|k: int| 0 <= k < conns.len() && conns[k].to_node == v && left.contains(#[trigger] conns[k].from_node);
        let u = conns[k].from_node;
        let p = seq![u] + q;
        assert forall|i: int| 0 <= i < p.len() - 1 implies #[trigger] edge(conns, p[i], p[i + 1]) by {
            if i == 0 {
                assert(p[0] == u && p[1] == q[0]);
            } else {
                let a = i - 1;
                assert(p[i] == q[a] && p[i + 1] == q[a + 1]);
                assert(edge(conns, q[a], q[a + 1]));
            }
        }
        assert forall|i: int| 0 <= i < p.len() implies left.contains(#[trigger] p[i]) by {
            if i > 0 {
                assert(p[i] == q[i - 1]);
            }
        }
        assert(p.last() == q.last());
        p
    }
}

/// A sequence longer than a finite set it lies in repeats an element.
proof fn lemma_repeat(p: Seq<NodeId>, left: Set<NodeId>)
    requires
        left.finite(),
        p.len() > left.len(),
        forall|i: int| 0 <= i < p.len() ==> left.contains(#[trigger] p[i]),
    ensures
        exists|i: int, j: int| 0 <= i < j < p.len() && p[i] == p[j],
{
    if p.no_duplicates() {
        p.unique_seq_to_set();
        assert(p.to_set().subset_of(left)) by {
            assert forall|v: NodeId| p.to_set().contains(v) implies left.contains(v) by {
                assert(p.contains(v));
                let i = choose|i: int| 0 <= i < p.len() && p[i] == v;
                assert(left.contains(p[i]));
            }
        }
        vstd::set_lib::lemma_len_subset(p.to_set(), left);
    } else {
        let (i, j) = choose|i: int, j: int| 0 <= i < p.len() && 0 <= j < p.len() && i != j && p[i] == p[j];
        if j < i {
            assert(0 <= j < i < p.len() && p[j] == p[i]);
        } else {
            assert(0 <= i < j < p.len() && p[i] == p[j]);
        }
    }
}

/// The nodes left over when `placed` is placed.
spec fn left_over(ids: Set<NodeId>, placed: Seq<NodeId>) -> Set<NodeId> {
    ids.filter(|v: NodeId| !placed.contains(v))
}

/// When none of the nodes left over is available, each has a connection into it
/// from another left-over node.
proof fn lemma_left_preds(ids: Set<NodeId>, conns: Seq<Connection>, placed: Seq<NodeId>)
    requires
        forall|v: NodeId| ids.contains(v) && !placed.contains(v) ==> !ready(conns, placed.to_set(), v),
        forall|k: int| 0 <= k < conns.len() ==> ids.contains(#[trigger] conns[k].from_node),
    ensures
        forall|v: NodeId| #[trigger] left_over(ids, placed).contains(v) ==> entered_from(conns, left_over(ids, placed), v),
{
    let left = left_over(ids, placed);
    assert forall|v: NodeId| #[trigger] left.contains(v) implies entered_from(conns, left, v) by {
        reveal(entered_from);
        assert(!ready(conns, placed.to_set(), v));
        let k = choose|k: int| 0 <= k < conns.len() && conns[k].to_node == v && !placed.to_set().contains(#[trigger] conns[k].from_node);
        assert(ids.contains(conns[k].from_node));
        assert(!placed.contains(conns[k].from_node));
        assert(left.contains(conns[k].from_node));
    }
}

/// When some nodes are left over and none of them is available, the connections
/// run along a cycle.
proof fn lemma_stuck_cycle(ids: Set<NodeId>, conns: Seq<Connection>, placed: Seq<NodeId>, w: NodeId)
    requires
        ids.finite(),
        ids.contains(w),
        !placed.contains(w),
        forall|v: NodeId| ids.contains(v) && !placed.contains(v) ==> !ready(conns, placed.to_set(), v),
        forall|k: int| 0 <= k < conns.len() ==> ids.contains(#[trigger] conns[k].from_node),
    ensures
        !acyclic(conns),
{
    let left = left_over(ids, placed);
    ids.lemma_len_filter(|v: NodeId| !placed.contains(v));
    lemma_left_preds(ids, conns, placed);
    assert(left.contains(w));
    let p = lemma_walk_back(conns, left, w, left.len());
    lemma_repeat(p, left);
    let (a, b) = choose|i: int, j: int| 0 <= i < j < p.len() && p[i] == p[j];
    lemma_subpath(conns, p, a, b + 1);
    let c = p.subrange(a, b + 1);
    assert(c.len() >= 2 && c[0] == c.last());
}

/// Along a walk of two or more nodes, a topological order lists the first node
/// before the last.
proof fn lemma_path_forward(ids: Set<NodeId>, conns: Seq<Connection>, s: Seq<NodeId>, p: Seq<NodeId>)
    requires
        is_topo_order(ids, conns, s),
        is_path(conns, p),
        p.len() >= 2,
        forall|k: int| 0 <= k < conns.len() ==> ids.contains(#[trigger] conns[k].to_node),
    ensures
        exists|i: int, j: int| 0 <= i < j < s.len() && s[i] == p[0] && s[j] == p.last(),
    decreases p.len(),
{
    let n = p.len() as int;
    let a = n - 2;
    assert(edge(conns, p[a], p[a + 1]));
    let k = choose|k: int| 0 <= k < conns.len() && conns[k].from_node == p[a] && conns[k].to_node == p[a + 1];
    law_topo_order_forward(ids, conns, s, k);
    let (i2, j2) = choose|i: int, j: int| 0 <= i < j < s.len() && s[i] == conns[k].from_node && s[j] == conns[k].to_node;
    if n > 2 {
        lemma_subpath(conns, p, 0, n - 1);
        let q = p.subrange(0, n - 1);
        lemma_path_forward(ids, conns, s, q);
        let (i1, j1) = choose|i: int, j: int| 0 <= i < j < s.len() && s[i] == q[0] && s[j] == q.last();
        assert(s[j1] == s[i2]);
        assert(j1 == i2);
        assert(0 <= i1 < j2 < s.len() && s[i1] == p[0] && s[j2] == p.last());
    }
}

/// A graph whose connections end at listed nodes and that has a topological order
/// has no cycle.
pub proof fn law_topo_order_acyclic(ids: Set<NodeId>, conns: Seq<Connection>, s: Seq<NodeId>)
    requires
        is_topo_order(ids, conns, s),
        forall|k: int| 0 <= k < conns.len() ==> ids.contains(#[trigger] conns[k].to_node),
    ensures
        acyclic(conns),
{
    assert forall|p: Seq<NodeId>| is_path(conns, p) && p.len() >= 2 implies p[0] != p.last() by {
        lemma_path_forward(ids, conns, s, p);
        let (i, j) = choose|i: int, j: int| 0 <= i < j < s.len() && s[i] == p[0] && s[j] == p.last();
        assert(s[i] != s[j]);
    }
}

// ---------------------------------------------------------------------------
// Executable graph operations
// ---------------------------------------------------------------------------

fn vec_contains(v: &Vec<NodeId>, x: NodeId) -> (r: bool)
    ensures
        r == v@.contains(x),
{
    let mut i: usize = 0;
    while i < v.len()
        invariant
            i <= v.len(),
            forall|j: int| 0 <= j < i ==> v@[j] != x,
        decreases v.len() - i,
    {
        if v[i] == x {
            return true;
        }
        i = i + 1;
    }
    false
}

impl View for CompositionGraph {
    type V = Map<NodeId, Node>;

    closed spec fn view(&self) -> Map<NodeId, Node> {
        node_map(self.nodes@)
    }
}

impl CompositionGraph {
    /// The graph's internal invariant: node ids are distinct, and every connection
    /// joins two nodes of the graph.
    pub closed spec fn wf(&self) -> bool {
        &&& distinct_ids(self.nodes@)
        &&& forall|k: int| 0 <= k < self.connections@.len() ==> {
            &&& node_map(self.nodes@).contains_key(#[trigger] self.connections@[k].from_node)
            &&& node_map(self.nodes@).contains_key(self.connections@[k].to_node)
        }
    }

    /// Every connection of a well-formed graph joins two of its nodes.
    pub proof fn lemma_edges_join_nodes(&self)
        requires
            self.wf(),
        ensures
            forall|k: int| 0 <= k < self.edges().len() ==> {
                &&& self@.contains_key(#[trigger] self.edges()[k].from_node)
                &&& self@.contains_key(self.edges()[k].to_node)
            },
    {
    }

    /// The connections, in the order they were made.
    pub closed spec fn edges(&self) -> Seq<Connection> {
        self.connections@
    }

    /// The node marked as the graph's output, if any.
    pub closed spec fn output(&self) -> Option<NodeId> {
        self.output_node
    }

    /// A copy of the graph: the same nodes, connections and output node.
    pub fn duplicate(&self) -> (c: Self)
        ensures
            c@ == self@,
            c.edges() == self.edges(),
            c.output() == self.output(),
            c.wf() == self.wf(),
    {
        let mut nodes: Vec<Node> = Vec::new();
        let mut i: usize = 0;
        while i < self.nodes.len()
            invariant
                i <= self.nodes.len(),
                nodes@ == self.nodes@.take(i as int),
            decreases self.nodes.len() - i,
        {
            nodes.push(self.nodes[i]);
            i = i + 1;
            assert(nodes@ =~= self.nodes@.take(i as int));
        }
        let mut connections: Vec<Connection> = Vec::new();
        let mut j: usize = 0;
        while j < self.connections.len()
            invariant
                j <= self.connections.len(),
                connections@ == self.connections@.take(j as int),
            decreases self.connections.len() - j,
        {
            connections.push(self.connections[j]);
            j = j + 1;
            assert(connections@ =~= self.connections@.take(j as int));
        }
        assert(nodes@ =~= self.nodes@);
        assert(connections@ =~= self.connections@);
        CompositionGraph { nodes, connections, output_node: self.output_node }
    }

    /// The connections, in the order they were made.
    pub fn connections(&self) -> (r: &Vec<Connection>)
        ensures
            r@ == self.edges(),
    {
        &self.connections
    }

    /// The node marked as the graph's output, if any.
    pub fn output_node(&self) -> (r: Option<NodeId>)
        ensures
            r == self.output(),
    {
        self.output_node
    }

    /// Marks a node (or none) as the graph's output.
    pub fn set_output_node(&mut self, o: Option<NodeId>)
        ensures
            final(self).output() == o,
            final(self)@ == old(self)@,
            final(self).edges() == old(self).edges(),
            final(self).wf() == old(self).wf(),
    {
        self.output_node = o;
        assert(self.nodes@ == old(self).nodes@ && self.connections@ == old(self).connections@);
    }

    /// A new empty graph.
    pub fn new() -> (g: Self)
        ensures
            g.wf(),
            g@ == Map::<NodeId, Node>::empty(),
            g.edges() == Seq::<Connection>::empty(),
            g.output() == None::<NodeId>,
    {
        let g = CompositionGraph { nodes: Vec::new(), connections: Vec::new(), output_node: None };
        assert(g@ =~= Map::<NodeId, Node>::empty());
        g
    }

    fn index_of(&self, id: NodeId) -> (r: Option<usize>)
        requires
            self.wf(),
        ensures
            match r {
                Some(i) => i < self.nodes@.len() && self.nodes@[i as int].id == id,
                None => !self@.contains_key(id),
            },
    {
        let mut i: usize = 0;
        while i < self.nodes.len()
            invariant
                i <= self.nodes@.len(),
                forall|j: int| 0 <= j < i ==> self.nodes@[j].id != id,
            decreases self.nodes.len() - i,
        {
            if self.nodes[i].id == id {
                return Some(i);
            }
            i = i + 1;
        }
        None
    }

    /// The node with this id, if the graph has one.
    pub fn node(&self, id: NodeId) -> (r: Option<Node>)
        requires
            self.wf(),
        ensures
            r == (if self@.contains_key(id) { Some(self@[id]) } else { None::<Node> }),
    {
        match self.index_of(id) {
            Some(i) => {
                proof {
                    lemma_node_map_index(self.nodes@, i as int);
                }
                Some(self.nodes[i])
            },
            None => None,
        }
    }

    /// Whether a node with this id is in the graph.
    pub fn contains_node(&self, id: NodeId) -> (r: bool)
        requires
            self.wf(),
        ensures
            r == self@.contains_key(id),
    {
        match self.index_of(id) {
            Some(i) => {
                proof {
                    lemma_node_map_index(self.nodes@, i as int);
                }
                true
            },
            None => false,
        }
    }

    /// The ids of the graph's nodes, each once.
    pub fn node_ids(&self) -> (v: Vec<NodeId>)
        requires
            self.wf(),
        ensures
            v@.no_duplicates(),
            v@.to_set() == self@.dom(),
    {
        let mut v: Vec<NodeId> = Vec::new();
        let mut i: usize = 0;
        while i < self.nodes.len()
            invariant
                i <= self.nodes@.len(),
                v@ == self.nodes@.subrange(0, i as int).map_values(|n: Node| n.id),
            decreases self.nodes.len() - i,
        {
            v.push(self.nodes[i].id);
            i = i + 1;
            assert(v@ =~= self.nodes@.subrange(0, i as int).map_values(|n: Node| n.id));
        }
        assert(self.nodes@.subrange(0, i as int) =~= self.nodes@);
        proof {
            assert(v@.no_duplicates()) by {
                assert forall|a: int, b: int| 0 <= a < v@.len() && 0 <= b < v@.len() && a != b implies v@[a] != v@[b] by {}
            }
            lemma_ids_of_dom(self.nodes@);
        }
        v
    }

    /// Adds a node, replacing any node with the same id.
    pub fn add_node(&mut self, node: Node)
        requires
            old(self).wf(),
        ensures
            final(self).wf(),
            final(self)@ == old(self)@.insert(node.id, node),
            final(self).edges() == old(self).edges(),
            final(self).output() == old(self).output(),
    {
        let ghost old_nodes = self.nodes@;
        match self.index_of(node.id) {
            Some(i) => {
                self.nodes.set(i, node);
                proof {
                    let s = self.nodes@;
                    assert(s == old_nodes.update(i as int, node));
                    assert(distinct_ids(s));
                    assert forall|id: NodeId| #[trigger] node_map(s).contains_key(id) == old(self)@.insert(node.id, node).contains_key(id) by {
                        if exists|j: int| 0 <= j < s.len() && s[j].id == id {
                            let j = choose|j: int| 0 <= j < s.len() && s[j].id == id;
                            if j != i {
                                assert(old_nodes[j].id == id);
                            }
                        }
                        if exists|j: int| 0 <= j < old_nodes.len() && old_nodes[j].id == id {
                            let j = choose|j: int| 0 <= j < old_nodes.len() && old_nodes[j].id == id;
                            assert(s[j].id == id);
                        }
                        if id == node.id {
                            assert(s[i as int].id == id);
                        }
                    }
                    assert forall|id: NodeId| #[trigger] node_map(s).contains_key(id) implies node_map(s)[id] == old(self)@.insert(node.id, node)[id] by {
                        let j = choose|j: int| 0 <= j < s.len() && s[j].id == id;
                        lemma_node_map_index(s, j);
                        if j != i {
                            lemma_node_map_index(old_nodes, j);
                        }
                    }
                    assert(node_map(s) =~= old(self)@.insert(node.id, node));
                }
            },
            None => {
                self.nodes.push(node);
                proof {
                    let s = self.nodes@;
                    assert(s == old_nodes.push(node));
                    assert(distinct_ids(s));
                    assert forall|id: NodeId| #[trigger] node_map(s).contains_key(id) == old(self)@.insert(node.id, node).contains_key(id) by {
                        if exists|j: int| 0 <= j < s.len() && s[j].id == id {
                            let j = choose|j: int| 0 <= j < s.len() && s[j].id == id;
                            if j < old_nodes.len() {
                                assert(old_nodes[j].id == id);
                            }
                        }
                        if exists|j: int| 0 <= j < old_nodes.len() && old_nodes[j].id == id {
                            let j = choose|j: int| 0 <= j < old_nodes.len() && old_nodes[j].id == id;
                            assert(s[j].id == id);
                        }
                        if id == node.id {
                            assert(s[s.len() - 1].id == id);
                        }
                    }
                    assert forall|id: NodeId| #[trigger] node_map(s).contains_key(id) implies node_map(s)[id] == old(self)@.insert(node.id, node)[id] by {
                        let j = choose|j: int| 0 <= j < s.len() && s[j].id == id;
                        lemma_node_map_index(s, j);
                        if j < old_nodes.len() {
                            lemma_node_map_index(old_nodes, j);
                        }
                    }
                    assert(node_map(s) =~= old(self)@.insert(node.id, node));
                }
            },
        }
    }

    /// Whether a walk along connections leads from `start` to `end` (always true when
    /// they are the same node).
    pub fn is_reachable(&self, start: NodeId, end: NodeId) -> (r: bool)
        ensures
            r == reachable(self.edges(), start, end),
    {
        let ghost conns = self.connections@;
        let ghost cands: Set<NodeId> = conns.map_values(|c: Connection| c.to_node).to_set().insert(start);
        proof {
            vstd::seq_lib::seq_to_set_is_finite(conns.map_values(|c: Connection| c.to_node));
        }
        let mut visited: Vec<NodeId> = Vec::new();
        let mut stack: Vec<NodeId> = Vec::new();
        stack.push(start);
        proof {
            let p = seq![start];
            assert(is_path(conns, p) && p[0] == start && p.last() == start);
            assert(reachable(conns, start, start));
            assert(stack@[0] == start);
            let tos = conns.map_values(|c: Connection| c.to_node);
            assert forall|k: int| 0 <= k < conns.len() implies cands.contains(#[trigger] conns[k].to_node) by {
                assert(tos[k] == conns[k].to_node);
                assert(tos.contains(conns[k].to_node));
            }
        }
        loop
            invariant_except_break
                conns == self.connections@,
                cands.finite(),
                cands.contains(start),
                forall|k: int| 0 <= k < conns.len() ==> cands.contains(#[trigger] conns[k].to_node),
                visited@.no_duplicates(),
                forall|i: int| 0 <= i < visited@.len() ==> cands.contains(#[trigger] visited@[i]),
                forall|i: int| 0 <= i < stack@.len() ==> cands.contains(#[trigger] stack@[i]),
                forall|i: int| 0 <= i < visited@.len() ==> reachable(conns, start, #[trigger] visited@[i]),
                forall|i: int| 0 <= i < stack@.len() ==> reachable(conns, start, #[trigger] stack@[i]),
                !visited@.contains(end),
                visited@.contains(start) || stack@.contains(start),
                forall|k: int| 0 <= k < conns.len() && visited@.contains(#[trigger] conns[k].from_node) ==> visited@.contains(conns[k].to_node) || stack@.contains(conns[k].to_node),
            ensures
                !reachable(conns, start, end),
            decreases cands.len() - visited@.len(), stack@.len(),
        {
            proof {
                visited@.unique_seq_to_set();
                vstd::set_lib::lemma_len_subset(visited@.to_set(), cands);
            }
            let ghost prev = stack@;
            match stack.pop() {
                None => {
                    proof {
                        assert(visited@.contains(start));
                        let closed = visited@.to_set();
                        assert forall|k: int| 0 <= k < conns.len() && closed.contains(#[trigger] conns[k].from_node) implies closed.contains(conns[k].to_node) by {
                            assert(visited@.contains(conns[k].from_node));
                        }
                        if reachable(conns, start, end) {
                            let p = choose|p: Seq<NodeId>| is_path(conns, p) && p[0] == start && p.last() == end;
                            lemma_closed_path(conns, closed, p);
                            assert(closed.contains(p[p.len() - 1]));
                        }
                    }
                    break;
                },
                Some(node) => {
                    let ghost old_stack = prev;
                    assert(prev =~= stack@.push(node));
                    assert(old_stack[old_stack.len() - 1] == node);
                    if node == end {
                        return true;
                    }
                    if !vec_contains(&visited, node) {
                        let ghost old_visited = visited@;
                        visited.push(node);
                        proof {
                            assert(visited@.no_duplicates()) by {
                                assert forall|a: int, b: int| 0 <= a < visited@.len() && 0 <= b < visited@.len() && a != b implies visited@[a] != visited@[b] by {
                                    if a == visited@.len() - 1 {
                                        assert(old_visited.contains(visited@[b]) || b == a);
                                    }
                                    if b == visited@.len() - 1 {
                                        assert(old_visited.contains(visited@[a]) || b == a);
                                    }
                                }
                            }
                            vstd::seq_lib::lemma_seq_contains_after_push(old_visited, node, start);
                        }
                        let mut j: usize = 0;
                        while j < self.connections.len()
                            invariant
                                conns == self.connections@,
                                j <= conns.len(),
                                forall|k: int| 0 <= k < conns.len() ==> cands.contains(#[trigger] conns[k].to_node),
                                reachable(conns, start, node),
                                visited@ == old_visited.push(node),
                                forall|i: int| 0 <= i < stack@.len() ==> cands.contains(#[trigger] stack@[i]),
                                forall|i: int| 0 <= i < stack@.len() ==> reachable(conns, start, #[trigger] stack@[i]),
                                forall|i: int| 0 <= i < old_stack.len() - 1 ==> stack@.contains(#[trigger] old_stack[i]),
                                forall|k: int| 0 <= k < j && conns[k].from_node == node ==> stack@.contains(#[trigger] conns[k].to_node),
                            decreases conns.len() - j,
                        {
                            let c = self.connections[j];
                            if c.from_node == node {
                                proof {
                                    let p = choose|p: Seq<NodeId>| is_path(conns, p) && p[0] == start && p.last() == node;
                                    lemma_path_push(conns, p, j as int);
                                    let q = p.push(c.to_node);
                                    assert(is_path(conns, q) && q[0] == start && q.last() == c.to_node);
                                }
                                let ghost before = stack@;
                                stack.push(c.to_node);
                                proof {
                                    assert forall|i: int| 0 <= i < old_stack.len() - 1 implies stack@.contains(#[trigger] old_stack[i]) by {
                                        let t = choose|t: int| 0 <= t < before.len() && before[t] == old_stack[i];
                                        assert(stack@[t] == old_stack[i]);
                                    }
                                    assert forall|k: int| 0 <= k < j + 1 && conns[k].from_node == node implies stack@.contains(#[trigger] conns[k].to_node) by {
                                        if k < j {
                                            let t = choose|t: int| 0 <= t < before.len() && before[t] == conns[k].to_node;
                                            assert(stack@[t] == conns[k].to_node);
                                        } else {
                                            assert(stack@[stack@.len() - 1] == conns[k].to_node);
                                        }
                                    }
                                }
                            }
                            j = j + 1;
                        }
                        proof {
                            assert forall|k: int| 0 <= k < conns.len() && visited@.contains(#[trigger] conns[k].from_node) implies visited@.contains(conns[k].to_node) || stack@.contains(conns[k].to_node) by {
                                let f = conns[k].from_node;
                                let t = conns[k].to_node;
                                let vi = choose|vi: int| 0 <= vi < visited@.len() && visited@[vi] == f;
                                if f != node {
                                    assert(old_visited[vi] == f);
                                    assert(old_visited.contains(f));
                                    if old_visited.contains(t) {
                                        let ti = choose|ti: int| 0 <= ti < old_visited.len() && old_visited[ti] == t;
                                        assert(visited@[ti] == t);
                                    } else {
                                        assert(old_stack.contains(t));
                                        let si = choose|si: int| 0 <= si < old_stack.len() && old_stack[si] == t;
                                        if si == old_stack.len() - 1 {
                                            assert(visited@[visited@.len() - 1] == t);
                                        } else {
                                            assert(stack@.contains(old_stack[si]));
                                        }
                                    }
                                }
                            }
                            assert(visited@.contains(start) || stack@.contains(start)) by {
                                if !old_visited.contains(start) {
                                    let si = choose|si: int| 0 <= si < old_stack.len() && old_stack[si] == start;
                                    if si == old_stack.len() - 1 {
                                        assert(visited@[visited@.len() - 1] == start);
                                    } else {
                                        assert(stack@.contains(old_stack[si]));
                                    }
                                } else {
                                    let ti = choose|ti: int| 0 <= ti < old_visited.len() && old_visited[ti] == start;
                                    assert(visited@[ti] == start);
                                }
                            }
                            assert(!visited@.contains(end)) by {
                                if visited@.contains(end) {
                                    let ti = choose|ti: int| 0 <= ti < visited@.len() && visited@[ti] == end;
                                    if ti < old_visited.len() {
                                        assert(old_visited[ti] == end);
                                    }
                                }
                            }
                            assert forall|i: int| 0 <= i < visited@.len() implies reachable(conns, start, #[trigger] visited@[i]) by {
                                if i < old_visited.len() {
                                    assert(old_visited[i] == visited@[i]);
                                }
                            }
                            assert forall|i: int| 0 <= i < visited@.len() implies cands.contains(#[trigger] visited@[i]) by {
                                if i < old_visited.len() {
                                    assert(old_visited[i] == visited@[i]);
                                }
                            }
                            visited@.unique_seq_to_set();
                            old_visited.unique_seq_to_set();
                            vstd::set_lib::lemma_len_subset(visited@.to_set(), cands);
                        }
                    } else {
                        proof {
                            assert forall|k: int| 0 <= k < conns.len() && visited@.contains(#[trigger] conns[k].from_node) implies visited@.contains(conns[k].to_node) || stack@.contains(conns[k].to_node) by {
                                let t = conns[k].to_node;
                                if !visited@.contains(t) {
                                    assert(old_stack.contains(t));
                                    let si = choose|si: int| 0 <= si < old_stack.len() && old_stack[si] == t;
                                    if si < old_stack.len() - 1 {
                                        assert(stack@[si] == t);
                                    }
                                }
                            }
                            assert(visited@.contains(start) || stack@.contains(start)) by {
                                if !visited@.contains(start) {
                                    let si = choose|si: int| 0 <= si < old_stack.len() && old_stack[si] == start;
                                    if si < old_stack.len() - 1 {
                                        assert(stack@[si] == start);
                                    }
                                }
                            }
                        }
                    }
                },
            }
        }
        false
    }

    /// Connects two nodes; fails, changing nothing, when an endpoint is missing or the
    /// connection would close a cycle.
    pub fn connect(&mut self, conn: Connection) -> (res: Result<(), AetherError>)
        requires
            old(self).wf(),
        ensures
            final(self).wf(),
            final(self)@ == old(self)@,
            final(self).output() == old(self).output(),
            !old(self)@.contains_key(conn.from_node) ==> res is Err && op_failed(res->Err_0, msg_source_missing(conn.from_node)),
            old(self)@.contains_key(conn.from_node) && !old(self)@.contains_key(conn.to_node) ==> res is Err && op_failed(res->Err_0, msg_target_missing(conn.to_node)),
            old(self)@.contains_key(conn.from_node) && old(self)@.contains_key(conn.to_node)
                && reachable(old(self).edges(), conn.to_node, conn.from_node) ==> res is Err && op_failed(res->Err_0, msg_would_cycle()),
            res is Ok <==> (old(self)@.contains_key(conn.from_node) && old(self)@.contains_key(conn.to_node)
                && !reachable(old(self).edges(), conn.to_node, conn.from_node)),
            res is Ok ==> final(self).edges() == old(self).edges().push(conn),
            res is Err ==> final(self).edges() == old(self).edges(),
            acyclic(old(self).edges()) ==> acyclic(final(self).edges()),
    {
        if !self.contains_node(conn.from_node) {
            let mut m = owned("Source node ");
            let d = u64_decimal(conn.from_node);
            push_str(&mut m, d.as_str());
            push_str(&mut m, " not found");
            return Err(AetherError::OperationFailed(m));
        }
        if !self.contains_node(conn.to_node) {
            let mut m = owned("Target node ");
            let d = u64_decimal(conn.to_node);
            push_str(&mut m, d.as_str());
            push_str(&mut m, " not found");
            return Err(AetherError::OperationFailed(m));
        }
        if self.is_reachable(conn.to_node, conn.from_node) {
            return Err(AetherError::OperationFailed(owned("Connecting these nodes would introduce a cycle")));
        }
        proof {
            if acyclic(self.connections@) {
                law_connect_keeps_acyclic(self.connections@, conn);
            }
        }
        self.connections.push(conn);
        Ok(())
    }

    /// Removes a node, every connection that touches it, and the output mark if it was the output.
    pub fn remove_node(&mut self, id: NodeId)
        requires
            old(self).wf(),
        ensures
            final(self).wf(),
            final(self)@ == old(self)@.remove(id),
            final(self).edges() == old(self).edges().filter(|c: Connection| c.from_node != id && c.to_node != id),
            final(self).output() == (if old(self).output() == Some(id) {
                None
            } else {
                old(self).output()
            }),
    {
        let ghost old_nodes = self.nodes@;
        match self.index_of(id) {
            Some(i) => {
                proof {
                    lemma_node_map_index(old_nodes, i as int);
                }
                self.nodes.remove(i);
                proof {
                    let s = self.nodes@;
                    assert(s =~= old_nodes.remove(i as int));
                    assert forall|a: int, b: int| 0 <= a < s.len() && 0 <= b < s.len() && a != b implies s[a].id != s[b].id by {
                        let oa = if a < i { a } else { a + 1 };
                        let ob = if b < i { b } else { b + 1 };
                        assert(s[a] == old_nodes[oa]);
                        assert(s[b] == old_nodes[ob]);
                    }
                    assert forall|k: NodeId| #[trigger] node_map(s).contains_key(k) == old(self)@.remove(id).contains_key(k) by {
                        if exists|j: int| 0 <= j < s.len() && s[j].id == k {
                            let j = choose|j: int| 0 <= j < s.len() && s[j].id == k;
                            let oj = if j < i { j } else { j + 1 };
                            assert(old_nodes[oj].id == k);
                            assert(oj != i);
                        }
                        if exists|j: int| 0 <= j < old_nodes.len() && old_nodes[j].id == k {
                            let j = choose|j: int| 0 <= j < old_nodes.len() && old_nodes[j].id == k;
                            if k != id {
                                assert(j != i);
                                let sj = if j < i { j } else { j - 1 };
                                assert(s[sj].id == k);
                            }
                        }
                    }
                    assert forall|k: NodeId| #[trigger] node_map(s).contains_key(k) implies node_map(s)[k] == old(self)@.remove(id)[k] by {
                        let j = choose|j: int| 0 <= j < s.len() && s[j].id == k;
                        lemma_node_map_index(s, j);
                        let oj = if j < i { j } else { j + 1 };
                        assert(old_nodes[oj] == s[j]);
                        lemma_node_map_index(old_nodes, oj);
                    }
                    assert(node_map(s) =~= old(self)@.remove(id));
                }
            },
            None => {
                assert(self@ =~= old(self)@.remove(id));
            },
        }
        let ghost old_conns = self.connections@;
        let mut kept: Vec<Connection> = Vec::new();
        let mut j: usize = 0;
        while j < self.connections.len()
            invariant
                self.connections@ == old_conns,
                j <= old_conns.len(),
                kept@ == old_conns.subrange(0, j as int).filter(|c: Connection| c.from_node != id && c.to_node != id),
            decreases old_conns.len() - j,
        {
            let c = self.connections[j];
            proof {
                assert(old_conns.subrange(0, j + 1) =~= old_conns.subrange(0, j as int).push(c));
                old_conns.subrange(0, j as int).lemma_filter_push(c, |c: Connection| c.from_node != id && c.to_node != id);
            }
            if c.from_node != id && c.to_node != id {
                kept.push(c);
            }
            j = j + 1;
        }
        assert(old_conns.subrange(0, j as int) =~= old_conns);
        proof {
            let pred = |c: Connection| c.from_node != id && c.to_node != id;
            assert forall|k: int| 0 <= k < kept@.len() implies {
                &&& node_map(self.nodes@).contains_key(#[trigger] kept@[k].from_node)
                &&& node_map(self.nodes@).contains_key(kept@[k].to_node)
            } by {
                let c = kept@[k];
                old_conns.lemma_filter_pred(pred, k);
                assert(old_conns.filter(pred).contains(c));
                old_conns.lemma_filter_contains_rev(pred, c);
                let n = choose|n: int| 0 <= n < old_conns.len() && old_conns[n] == c;
                assert(old(self)@.contains_key(old_conns[n].from_node));
            }
        }
        self.connections = kept;
        if self.output_node == Some(id) {
            self.output_node = None;
        }
    }

    /// The greatest node id that is available after `placed`, if any.
    fn best_available(&self, placed: &Vec<NodeId>) -> (r: Option<NodeId>)
        requires
            self.wf(),
        ensures
            match r {
                Some(v) => available(self@.dom(), self.edges(), placed@, v)
                    && forall|w: NodeId| available(self@.dom(), self.edges(), placed@, w) ==> w <= v,
                None => forall|w: NodeId| !available(self@.dom(), self.edges(), placed@, w),
            },
    {
        let ghost ids = self@.dom();
        let ghost conns = self.connections@;
        proof {
            lemma_ids_of_dom(self.nodes@);
        }
        let mut best: Option<NodeId> = None;
        let mut i: usize = 0;
        while i < self.nodes.len()
            invariant
                self.wf(),
                ids == self@.dom(),
                conns == self.connections@,
                ids == ids_of(self.nodes@),
                i <= self.nodes@.len(),
                match best {
                    Some(v) => available(ids, conns, placed@, v)
                        && forall|j: int| 0 <= j < i && available(ids, conns, placed@, #[trigger] self.nodes@[j].id) ==> self.nodes@[j].id <= v,
                    None => forall|j: int| 0 <= j < i ==> !available(ids, conns, placed@, #[trigger] self.nodes@[j].id),
                },
            decreases self.nodes.len() - i,
        {
            let v = self.nodes[i].id;
            proof {
                let m = self.nodes@.map_values(|n: Node| n.id);
                assert(m[i as int] == v);
                assert(ids.contains(v));
            }
            if !vec_contains(placed, v) && self.node_ready(placed, v) {
                match best {
                    Some(b) => {
                        if v > b {
                            best = Some(v);
                        }
                    },
                    None => {
                        best = Some(v);
                    },
                }
            }
            i = i + 1;
        }
        proof {
            assert forall|w: NodeId| available(ids, conns, placed@, w) implies (match best {
                Some(v) => w <= v,
                None => false,
            }) by {
                let m = self.nodes@.map_values(|n: Node| n.id);
                assert(m.contains(w));
                let j = choose|j: int| 0 <= j < m.len() && m[j] == w;
                assert(self.nodes@[j].id == w);
            }
        }
        best
    }

    /// Every connection into `v` starts at a node of `placed`.
    fn node_ready(&self, placed: &Vec<NodeId>, v: NodeId) -> (r: bool)
        ensures
            r == ready(self.edges(), placed@.to_set(), v),
    {
        let mut k: usize = 0;
        while k < self.connections.len()
            invariant
                k <= self.connections@.len(),
                forall|j: int| 0 <= j < k && self.connections@[j].to_node == v ==> placed@.to_set().contains(#[trigger] self.connections@[j].from_node),
            decreases self.connections.len() - k,
        {
            let c = self.connections[k];
            if c.to_node == v && !vec_contains(placed, c.from_node) {
                return false;
            }
            k = k + 1;
        }
        true
    }

    /// The nodes in topological order, taking the greatest available id at each step;
    /// `OperationFailed` when no topological order exists.
    pub fn topological_sort(&self) -> (res: Result<Vec<NodeId>, AetherError>)
        requires
            self.wf(),
        ensures
            match res {
                Ok(s) => greedy_topo_order(self@.dom(), self.edges(), s@)
                    && is_topo_order(self@.dom(), self.edges(), s@),
                Err(e) => op_failed(e, msg_cycle_detected())
                    && forall|t: Seq<NodeId>| !is_topo_order(self@.dom(), self.edges(), t),
            },
            res is Ok <==> acyclic(self.edges()),
    {
        let ghost ids = self@.dom();
        let ghost conns = self.connections@;
        proof {
            lemma_ids_of_dom(self.nodes@);
            lemma_ids_len(self.nodes@);
        }
        let mut sorted: Vec<NodeId> = Vec::new();
        loop
            invariant_except_break
                self.wf(),
                ids == self@.dom(),
                conns == self.connections@,
                ids.finite(),
                ids.len() == self.nodes@.len(),
                sorted@.len() <= ids.len(),
                forall|i: int| 0 <= i < sorted@.len() ==> #[trigger] available(ids, conns, sorted@.take(i), sorted@[i]),
                forall|i: int, v: NodeId| #![trigger available(ids, conns, sorted@.take(i), v)] 0 <= i < sorted@.len() && available(ids, conns, sorted@.take(i), v) ==> v <= sorted@[i],
            ensures
                ids.finite(),
                ids == self@.dom(),
                conns == self.connections@,
                forall|i: int| 0 <= i < sorted@.len() ==> #[trigger] available(ids, conns, sorted@.take(i), sorted@[i]),
                forall|i: int, v: NodeId| #![trigger available(ids, conns, sorted@.take(i), v)] 0 <= i < sorted@.len() && available(ids, conns, sorted@.take(i), v) ==> v <= sorted@[i],
                forall|w: NodeId| !available(ids, conns, sorted@, w),
            decreases ids.len() - sorted@.len(),
        {
            match self.best_available(&sorted) {
                None => {
                    assert(self.edges() == conns);
                    assert forall|w: NodeId| !available(ids, conns, sorted@, w) by {
                        assert(!available(self@.dom(), self.edges(), sorted@, w));
                    }
                    break;
                },
                Some(v) => {
                    let ghost old_sorted = sorted@;
                    proof {
                        lemma_placed_bound(ids, conns, old_sorted, v);
                    }
                    sorted.push(v);
                    proof {
                        assert(sorted@.take(old_sorted.len() as int) =~= old_sorted);
                        assert forall|i: int| 0 <= i < sorted@.len() implies #[trigger] available(ids, conns, sorted@.take(i), sorted@[i]) by {
                            if i < old_sorted.len() {
                                assert(sorted@.take(i) =~= old_sorted.take(i));
                            }
                        }
                        assert forall|i: int, w: NodeId| #![trigger available(ids, conns, sorted@.take(i), w)] 0 <= i < sorted@.len() && available(ids, conns, sorted@.take(i), w) implies w <= sorted@[i] by {
                            if i < old_sorted.len() {
                                assert(sorted@.take(i) =~= old_sorted.take(i));
                            }
                        }
                    }
                },
            }
        }
        if sorted.len() != self.nodes.len() {
            proof {
                // Some node is left over; none is available.
                lemma_sorted_in_ids(ids, conns, sorted@);
                sorted@.unique_seq_to_set();
                let w = choose|w: NodeId| ids.contains(w) && !sorted@.to_set().contains(w);
                assert(!sorted@.contains(w));
                assert forall|v: NodeId| ids.contains(v) && !sorted@.contains(v) implies !ready(conns, sorted@.to_set(), v) by {
                    assert(!available(ids, conns, sorted@, v));
                }
                assert forall|v: NodeId| sorted@.contains(v) implies ids.contains(v) by {
                    assert(sorted@.to_set().contains(v));
                }
                lemma_stuck_no_order(ids, conns, sorted@, w);
                assert forall|k: int| 0 <= k < conns.len() implies ids.contains(#[trigger] conns[k].from_node) by {
                    assert(node_map(self.nodes@).contains_key(self.connections@[k].from_node));
                }
                lemma_stuck_cycle(ids, conns, sorted@, w);
            }
            return Err(AetherError::OperationFailed(owned("Cycle detected during topological sorting")));
        }
        proof {
            lemma_greedy_is_topo(ids, conns, sorted@);
            assert forall|k: int| 0 <= k < conns.len() implies ids.contains(#[trigger] conns[k].to_node) by {
                assert(node_map(self.nodes@).contains_key(self.connections@[k].from_node));
            }
            law_topo_order_acyclic(ids, conns, sorted@);
        }
        Ok(sorted)
    }
}

/// Facts about a greedy prefix: it is duplicate free and lies in the node set, so it is
/// shorter than the node set when a node is still available.
proof fn lemma_sorted_in_ids(ids: Set<NodeId>, conns: Seq<Connection>, s: Seq<NodeId>)
    requires
        ids.finite(),
        forall|i: int| 0 <= i < s.len() ==> #[trigger] available(ids, conns, s.take(i), s[i]),
    ensures
        s.no_duplicates(),
        s.to_set().subset_of(ids),
        s.len() <= ids.len(),
        s.len() == ids.len() ==> s.to_set() == ids,
        s.len() < ids.len() ==> exists|w: NodeId| ids.contains(w) && !s.to_set().contains(w),
{
    assert(s.no_duplicates()) by {
        assert forall|a: int, b: int| 0 <= a < s.len() && 0 <= b < s.len() && a != b implies s[a] != s[b] by {
            if a < b {
                assert(available(ids, conns, s.take(b), s[b]));
                assert(s.take(b)[a] == s[a]);
                assert(s.take(b).contains(s[a]));
            } else {
                assert(available(ids, conns, s.take(a), s[a]));
                assert(s.take(a)[b] == s[b]);
                assert(s.take(a).contains(s[b]));
            }
        }
    }
    assert(s.to_set().subset_of(ids)) by {
        assert forall|v: NodeId| s.to_set().contains(v) implies ids.contains(v) by {
            assert(s.contains(v));
            let i = choose|i: int| 0 <= i < s.len() && s[i] == v;
            assert(available(ids, conns, s.take(i), s[i]));
        }
    }
    s.unique_seq_to_set();
    vstd::set_lib::lemma_len_subset(s.to_set(), ids);
    if s.len() == ids.len() {
        if !(s.to_set() =~= ids) {
            let v = choose|v: NodeId| ids.contains(v) && !s.to_set().contains(v);
            vstd::set_lib::lemma_len_subset(s.to_set(), ids.remove(v));
        }
    }
    if s.len() < ids.len() {
        if !(exists|w: NodeId| ids.contains(w) && !s.to_set().contains(w)) {
            assert(ids.subset_of(s.to_set()));
            vstd::set_lib::lemma_len_subset(ids, s.to_set());
        }
    }
}

/// A greedy prefix with one more available node is still no longer than the node set.
proof fn lemma_placed_bound(ids: Set<NodeId>, conns: Seq<Connection>, s: Seq<NodeId>, v: NodeId)
    requires
        ids.finite(),
        forall|i: int| 0 <= i < s.len() ==> #[trigger] available(ids, conns, s.take(i), s[i]),
        available(ids, conns, s, v),
    ensures
        s.len() < ids.len(),
{
    lemma_sorted_in_ids(ids, conns, s);
    if s.len() == ids.len() {
        assert(s.to_set().contains(v));
        assert(s.contains(v));
    }
}

} // verus!
