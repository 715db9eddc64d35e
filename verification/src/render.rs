//! Rendering a composition graph: the order in which node pictures are computed,
//! the inputs each node reads, and the errors that stop a render. A backend does the
//! pixel work of the steps this module hands out, in order, and then returns the
//! picture the plan ends on.

use vstd::prelude::*;
use crate::graph::{
    available, greedy_topo_order, is_topo_order, msg_cycle_detected, op_failed, BlendMode, CompositionGraph,
    Connection, FilterKind, NodeId, NodeKind, Node,
};
use crate::refs::{AetherError, ErrorV, Ref};
use crate::registry::{Asset, RefRegistry};
use crate::text::{decimal, owned, push_str, u64_decimal};

verus! {

/// One step of a render: each computes the picture of one node.
#[derive(Debug, Clone)]
pub enum RenderStep {
    /// Load the asset of a source node, scaled to the frame.
    Load { node: NodeId, asset: Asset },
    /// Draw the picture of `overlay` over that of `base` with a blend mode and an
    /// opacity (the bit pattern of a single-precision value).
    Blend { node: NodeId, base: NodeId, overlay: NodeId, mode: BlendMode, opacity_bits: u32 },
    /// Draw the picture of `overlay` over that of `base` at half opacity, the
    /// midpoint of a transition.
    Mix { node: NodeId, base: NodeId, overlay: NodeId },
    /// Filter the picture of `input`.
    Filter { node: NodeId, input: NodeId, kind: FilterKind },
}

/// The steps of a render, and how it ends: with the picture of the node feeding the
/// output, or with an error once the steps are done.
#[derive(Debug)]
pub struct RenderPlan {
    pub steps: Vec<RenderStep>,
    pub end: Result<NodeId, AetherError>,
}

/// The source of the last connection into port `port` of node `id`.
pub open spec fn last_input(conns: Seq<Connection>, id: NodeId, port: u8) -> Option<NodeId>
    decreases conns.len(),
{
    if conns.len() == 0 {
        None
    } else if conns.last().to_node == id && conns.last().to_port == port {
        Some(conns.last().from_node)
    } else {
        last_input(conns.drop_last(), id, port)
    }
}

/// The source of the first connection into port `port` of node `id`.
pub open spec fn first_input(conns: Seq<Connection>, id: NodeId, port: u8) -> Option<NodeId>
    decreases conns.len(),
{
    if conns.len() == 0 {
        None
    } else {
        match first_input(conns.drop_last(), id, port) {
            Some(x) => Some(x),
            None => if conns.last().to_node == id && conns.last().to_port == port {
                Some(conns.last().from_node)
            } else {
                None
            },
        }
    }
}

pub open spec fn failed(m: Seq<char>) -> (Seq<RenderStep>, Result<NodeId, ErrorV>) {
    (Seq::empty(), Err(ErrorV::OperationFailed(m)))
}

pub open spec fn node_msg(before: Seq<char>, id: NodeId) -> Seq<char> {
    before + decimal(id as nat)
}

/// The render from the nodes of `s` on, in order, when the nodes of `done` have
/// their pictures: a source loads its asset; a blend or transition reads the last
/// connections into its ports 0 (base) and 1 (overlay); a filter or the output reads
/// the first connection into its port 0; a node whose input is missing or has no
/// picture stops the render, and the output ends it.
pub open spec fn plan_walk(
    nodes: Map<NodeId, Node>,
    conns: Seq<Connection>,
    reg: Map<Ref, Asset>,
    s: Seq<NodeId>,
    done: Set<NodeId>,
) -> (Seq<RenderStep>, Result<NodeId, ErrorV>)
    decreases s.len(),
{
    if s.len() == 0 {
        failed("Graph had no output node"@)
    } else {
        let id = s[0];
        let rest = plan_walk(nodes, conns, reg, s.drop_first(), done.insert(id));
        if !nodes.contains_key(id) {
            failed("Node "@ + decimal(id as nat) + " not found"@)
        } else {
            match nodes[id].kind {
                NodeKind::Source(r) => if !reg.contains_key(r) {
                    (Seq::empty(), Err(ErrorV::RefNotFound(r)))
                } else {
                    (seq![RenderStep::Load { node: id, asset: reg[r] }] + rest.0, rest.1)
                },
                NodeKind::Blend { mode, opacity_bits } => match (last_input(conns, id, 0), last_input(conns, id, 1)) {
                    (Some(b), Some(o)) => if !done.contains(b) {
                        failed(node_msg("Missing base input for Blend node "@, id))
                    } else if !done.contains(o) {
                        failed(node_msg("Missing overlay input for Blend node "@, id))
                    } else {
                        (seq![RenderStep::Blend { node: id, base: b, overlay: o, mode, opacity_bits }] + rest.0, rest.1)
                    },
                    (Some(b), None) => if !done.contains(b) {
                        failed(node_msg("Missing base input for Blend node "@, id))
                    } else {
                        failed(node_msg("Missing overlay input for Blend node "@, id))
                    },
                    (None, _) => failed(node_msg("Missing base input for Blend node "@, id)),
                },
                NodeKind::Transition { .. } => match (last_input(conns, id, 0), last_input(conns, id, 1)) {
                    (Some(b), Some(o)) => if !done.contains(b) {
                        failed(node_msg("Missing base input for Transition node "@, id))
                    } else if !done.contains(o) {
                        failed(node_msg("Missing overlay input for Transition node "@, id))
                    } else {
                        (seq![RenderStep::Mix { node: id, base: b, overlay: o }] + rest.0, rest.1)
                    },
                    (Some(b), None) => if !done.contains(b) {
                        failed(node_msg("Missing base input for Transition node "@, id))
                    } else {
                        failed(node_msg("Missing overlay input for Transition node "@, id))
                    },
                    (None, _) => failed(node_msg("Missing base input for Transition node "@, id)),
                },
                NodeKind::Filter { kind } => match first_input(conns, id, 0) {
                    None => failed(node_msg("Missing input for Filter node "@, id)),
                    Some(i) => if !done.contains(i) {
                        failed(node_msg("Input pixmap not found for Filter node "@, id))
                    } else {
                        (seq![RenderStep::Filter { node: id, input: i, kind }] + rest.0, rest.1)
                    },
                },
                NodeKind::Output => match first_input(conns, id, 0) {
                    None => failed(node_msg("Missing input for Output node "@, id)),
                    Some(i) => if !done.contains(i) {
                        failed(node_msg("Input pixmap not found for Output node "@, id))
                    } else {
                        (Seq::empty(), Ok(i))
                    },
                },
            }
        }
    }
}

/// How the render ends, as values.
pub open spec fn end_view(e: Result<NodeId, AetherError>) -> Result<NodeId, ErrorV> {
    match e {
        Ok(i) => Ok(i),
        Err(x) => Err(x@),
    }
}

/// Two greedy topological orders of the same graph are the same order.
pub proof fn lemma_greedy_order_unique(ids: Set<NodeId>, conns: Seq<Connection>, s: Seq<NodeId>, t: Seq<NodeId>)
    requires
        greedy_topo_order(ids, conns, s),
        greedy_topo_order(ids, conns, t),
    ensures
        s == t,
{
    lemma_greedy_prefix(ids, conns, s, t, s.len() as int);
    assert(s.take(s.len() as int) =~= s);
    assert(t.take(t.len() as int) =~= t);
}

proof fn lemma_greedy_prefix(ids: Set<NodeId>, conns: Seq<Connection>, s: Seq<NodeId>, t: Seq<NodeId>, k: int)
    requires
        greedy_topo_order(ids, conns, s),
        greedy_topo_order(ids, conns, t),
        0 <= k <= s.len(),
    ensures
        s.take(k) == t.take(k),
    decreases k,
{
    if k > 0 {
        lemma_greedy_prefix(ids, conns, s, t, k - 1);
        let i = k - 1;
        assert(available(ids, conns, s.take(i), s[i]));
        assert(available(ids, conns, t.take(i), t[i]));
        assert(available(ids, conns, s.take(i), t[i]));
        assert(available(ids, conns, t.take(i), s[i]));
        assert(t[i] <= s[i]);
        assert(s[i] <= t[i]);
        assert(s.take(k) =~= s.take(i).push(s[i]));
        assert(t.take(k) =~= t.take(i).push(t[i]));
    }
}


fn last_input_of(conns: &Vec<Connection>, id: NodeId, port: u8) -> (r: Option<NodeId>)
    ensures
        r == last_input(conns@, id, port),
{
    let mut r: Option<NodeId> = None;
    let mut j: usize = 0;
    while j < conns.len()
        invariant
            j <= conns.len(),
            r == last_input(conns@.take(j as int), id, port),
        decreases conns.len() - j,
    {
        let c = conns[j];
        proof {
            assert(conns@.take(j + 1).drop_last() =~= conns@.take(j as int));
            assert(conns@.take(j + 1).last() == c);
        }
        if c.to_node == id && c.to_port == port {
            r = Some(c.from_node);
        }
        j = j + 1;
    }
    assert(conns@.take(j as int) =~= conns@);
    r
}

fn first_input_of(conns: &Vec<Connection>, id: NodeId, port: u8) -> (r: Option<NodeId>)
    ensures
        r == first_input(conns@, id, port),
{
    let mut r: Option<NodeId> = None;
    let mut j: usize = 0;
    while j < conns.len()
        invariant
            j <= conns.len(),
            r == first_input(conns@.take(j as int), id, port),
        decreases conns.len() - j,
    {
        let c = conns[j];
        proof {
            assert(conns@.take(j + 1).drop_last() =~= conns@.take(j as int));
            assert(conns@.take(j + 1).last() == c);
        }
        if r.is_none() && c.to_node == id && c.to_port == port {
            r = Some(c.from_node);
        }
        j = j + 1;
    }
    assert(conns@.take(j as int) =~= conns@);
    r
}

/// Whether `x` is among the first `k` ids of `order`.
fn seen(order: &Vec<NodeId>, k: usize, x: NodeId) -> (r: bool)
    requires
        k <= order.len(),
    ensures
        r == (exists|j: int| 0 <= j < k && order@[j] == x),
{
    let mut j: usize = 0;
    while j < k
        invariant
            k <= order.len(),
            j <= k,
            forall|i: int| 0 <= i < j ==> order@[i] != x,
        decreases k - j,
    {
        if order[j] == x {
            return true;
        }
        j = j + 1;
    }
    false
}

fn node_error(prefix: &str, id: NodeId) -> (e: AetherError)
    ensures
        e@ == ErrorV::OperationFailed(node_msg(prefix@, id)),
{
    let mut m = owned(prefix);
    let d = u64_decimal(id);
    push_str(&mut m, d.as_str());
    AetherError::OperationFailed(m)
}

/// `r` is the render of `graph` with the assets of `reg`: the cycle error when the
/// graph has no topological order; otherwise the walk over its greedy topological
/// order (which is unique).
pub open spec fn render_outcome(graph: CompositionGraph, reg: Map<Ref, Asset>, r: RenderPlan) -> bool {
    &&& (forall|t: Seq<NodeId>| !is_topo_order(graph@.dom(), graph.edges(), t)) ==> (r.steps@.len() == 0
        && (r.end matches Err(e) && op_failed(e, msg_cycle_detected())))
    &&& (exists|t: Seq<NodeId>| is_topo_order(graph@.dom(), graph.edges(), t)) ==> exists|s: Seq<NodeId>|
        greedy_topo_order(graph@.dom(), graph.edges(), s)
    &&& forall|s: Seq<NodeId>| greedy_topo_order(graph@.dom(), graph.edges(), s) ==> (r.steps@, end_view(r.end))
        == plan_walk(graph@, graph.edges(), reg, s, Set::empty())
}

/// The software renderer. It draws the steps of a render plan with a 2D raster
/// library.
pub struct CpuBackend;

/// The GPU renderer, in a build without GPU support.
pub struct GpuBackend;

impl GpuBackend {
    /// Refuses: this build has no GPU support.
    pub fn render(&self, graph: &CompositionGraph, width: u32, height: u32, registry: &RefRegistry) -> (r: Result<Vec<u8>, AetherError>)
        ensures
            r matches Err(e) && e@ == ErrorV::OperationFailed("GPU backend is disabled. Recompile with --features gpu to enable."@),
    {
        Err(AetherError::OperationFailed(owned("GPU backend is disabled. Recompile with --features gpu to enable.")))
    }
}

impl CpuBackend {
    /// Plans the render of `graph`: the nodes in topological order (greatest id first
    /// among the ready ones), each turned into a step, up to the output node.
    #[verifier::rlimit(60)]
    #[verifier::spinoff_prover]
    pub fn render_plan(&self, graph: &CompositionGraph, registry: &RefRegistry) -> (r: RenderPlan)
        requires
            graph.wf(),
            registry.wf(),
        ensures
            render_outcome(*graph, registry@, r),
    {
        let order = match graph.topological_sort() {
            Ok(o) => o,
            Err(e) => {
                let ids = graph.node_ids();
                proof {
                    vstd::seq_lib::seq_to_set_is_finite(ids@);
                    assert forall|t: Seq<NodeId>| !greedy_topo_order(graph@.dom(), graph.edges(), t) by {
                        if greedy_topo_order(graph@.dom(), graph.edges(), t) {
                            crate::graph::lemma_greedy_is_topo(graph@.dom(), graph.edges(), t);
                        }
                    }
                }
                return RenderPlan { steps: Vec::new(), end: Err(e) };
            },
        };
        let ghost s = order@;
        let ghost nodes = graph@;
        let ghost reg = registry@;
        let conns = graph.connections();
        let ghost full = plan_walk(nodes, conns@, reg, s, Set::empty());
        proof {
            assert forall|t: Seq<NodeId>| greedy_topo_order(graph@.dom(), graph.edges(), t) implies t == s by {
                lemma_greedy_order_unique(graph@.dom(), graph.edges(), t, s);
            }
            assert(s.skip(0) =~= s);
        }
        let mut steps: Vec<RenderStep> = Vec::new();
        let ghost mut done: Set<NodeId> = Set::empty();
        let mut k: usize = 0;
        while k < order.len()
            invariant
                graph.wf(),
                registry.wf(),
                nodes == graph@,
                reg == registry@,
                conns@ == graph.edges(),
                s == order@,
                greedy_topo_order(graph@.dom(), graph.edges(), s),
                is_topo_order(graph@.dom(), graph.edges(), s),
                forall|t: Seq<NodeId>| greedy_topo_order(graph@.dom(), graph.edges(), t) ==> t == s,
                k <= order.len(),
                forall|x: NodeId| done.contains(x) <==> (exists|j: int| 0 <= j < k && order@[j] == x),
                full == plan_walk(nodes, conns@, reg, s, Set::empty()),
                full.0 == steps@ + plan_walk(nodes, conns@, reg, s.skip(k as int), done).0,
                full.1 == plan_walk(nodes, conns@, reg, s.skip(k as int), done).1,
            decreases order.len() - k,
        {
            let id = order[k];
            let ghost w = plan_walk(nodes, conns@, reg, s.skip(k as int), done);
            let ghost next = plan_walk(nodes, conns@, reg, s.skip(k + 1), done.insert(id));
            proof {
                assert(s.skip(k as int)[0] == id);
                assert(s.skip(k as int).drop_first() =~= s.skip(k + 1));
            }
            let node = match graph.node(id) {
                Some(n) => n,
                None => {
                    assert(steps@ + Seq::<RenderStep>::empty() =~= steps@);
                    let mut m = owned("Node ");
                    let d = u64_decimal(id);
                    push_str(&mut m, d.as_str());
                    push_str(&mut m, " not found");
                    return RenderPlan { steps, end: Err(AetherError::OperationFailed(m)) };
                },
            };
            let step = match node.kind {
                NodeKind::Source(r) => match registry.resolve(&r) {
                    Ok(asset) => RenderStep::Load { node: id, asset },
                    Err(e) => {
                        assert(steps@ + Seq::<RenderStep>::empty() =~= steps@);
                        return RenderPlan { steps, end: Err(e) };
                    },
                },
                NodeKind::Blend { mode, opacity_bits } => {
                    let b = last_input_of(conns, id, 0);
                    let o = last_input_of(conns, id, 1);
                    let b_ok = match b {
                        Some(x) => seen(&order, k, x),
                        None => false,
                    };
                    if !b_ok {
                        assert(steps@ + Seq::<RenderStep>::empty() =~= steps@);
                        return RenderPlan { steps, end: Err(node_error("Missing base input for Blend node ", id)) };
                    }
                    let o_ok = match o {
                        Some(x) => seen(&order, k, x),
                        None => false,
                    };
                    if !o_ok {
                        assert(steps@ + Seq::<RenderStep>::empty() =~= steps@);
                        return RenderPlan { steps, end: Err(node_error("Missing overlay input for Blend node ", id)) };
                    }
                    RenderStep::Blend { node: id, base: b.unwrap(), overlay: o.unwrap(), mode, opacity_bits }
                },
                NodeKind::Transition { .. } => {
                    let b = last_input_of(conns, id, 0);
                    let o = last_input_of(conns, id, 1);
                    let b_ok = match b {
                        Some(x) => seen(&order, k, x),
                        None => false,
                    };
                    if !b_ok {
                        assert(steps@ + Seq::<RenderStep>::empty() =~= steps@);
                        return RenderPlan { steps, end: Err(node_error("Missing base input for Transition node ", id)) };
                    }
                    let o_ok = match o {
                        Some(x) => seen(&order, k, x),
                        None => false,
                    };
                    if !o_ok {
                        assert(steps@ + Seq::<RenderStep>::empty() =~= steps@);
                        return RenderPlan { steps, end: Err(node_error("Missing overlay input for Transition node ", id)) };
                    }
                    RenderStep::Mix { node: id, base: b.unwrap(), overlay: o.unwrap() }
                },
                NodeKind::Filter { kind } => {
                    match first_input_of(conns, id, 0) {
                        None => {
                            assert(steps@ + Seq::<RenderStep>::empty() =~= steps@);
                            return RenderPlan { steps, end: Err(node_error("Missing input for Filter node ", id)) };
                        },
                        Some(i) => {
                            if !seen(&order, k, i) {
                                assert(steps@ + Seq::<RenderStep>::empty() =~= steps@);
                                return RenderPlan { steps, end: Err(node_error("Input pixmap not found for Filter node ", id)) };
                            }
                            RenderStep::Filter { node: id, input: i, kind }
                        },
                    }
                },
                NodeKind::Output => {
                    assert(steps@ + Seq::<RenderStep>::empty() =~= steps@);
                    match first_input_of(conns, id, 0) {
                        None => {
                            return RenderPlan { steps, end: Err(node_error("Missing input for Output node ", id)) };
                        },
                        Some(i) => {
                            if !seen(&order, k, i) {
                                return RenderPlan { steps, end: Err(node_error("Input pixmap not found for Output node ", id)) };
                            }
                            return RenderPlan { steps, end: Ok(i) };
                        },
                    }
                },
            };
            proof {
                assert(w.0 == seq![step] + next.0);
                assert(w.1 == next.1);
                assert(steps@.push(step) + next.0 =~= steps@ + (seq![step] + next.0));
            }
            steps.push(step);
            proof {
                done = done.insert(id);
            }
            k = k + 1;
        }
        proof {
            assert(s.skip(k as int).len() == 0);
            assert(steps@ + Seq::<RenderStep>::empty() =~= steps@);
        }
        RenderPlan { steps, end: Err(AetherError::OperationFailed(owned("Graph had no output node"))) }
    }

}

// ---------------------------------------------------------------------------
// Box blur
// ---------------------------------------------------------------------------

/// Position `i` held to the positions `0..w` of a line of `w` pixels.
pub open spec fn clamp_index(i: int, w: int) -> int {
    if i < 0 {
        0
    } else if i > w - 1 {
        w - 1
    } else {
        i
    }
}

/// The sum of the values at the held positions `x + k`, for `lo <= k < hi`.
pub open spec fn window_sum(v: Seq<u8>, x: int, lo: int, hi: int) -> int
    decreases hi - lo,
{
    if hi <= lo {
        0
    } else {
        window_sum(v, x, lo, hi - 1) + v[clamp_index(x + hi - 1, v.len() as int)]
    }
}

/// The box of radius `r` around position `x`: the sum of the `2r + 1` values at
/// `x - r ..= x + r`, the positions outside the line held to its ends.
pub open spec fn box_sum(v: Seq<u8>, x: int, r: int) -> int {
    window_sum(v, x, -r, r + 1)
}

proof fn lemma_window_bounds(v: Seq<u8>, x: int, lo: int, hi: int)
    requires
        v.len() > 0,
    ensures
        0 <= window_sum(v, x, lo, hi),
        lo <= hi ==> window_sum(v, x, lo, hi) <= 255 * (hi - lo),
    decreases hi - lo,
{
    if hi > lo {
        lemma_window_bounds(v, x, lo, hi - 1);
    }
}

proof fn lemma_window_first(v: Seq<u8>, x: int, lo: int, hi: int)
    requires
        lo < hi,
    ensures
        window_sum(v, x, lo, hi) == v[clamp_index(x + lo, v.len() as int)] + window_sum(v, x, lo + 1, hi),
    decreases hi - lo,
{
    if hi - 1 > lo {
        lemma_window_first(v, x, lo, hi - 1);
        assert(window_sum(v, x, lo + 1, hi) == window_sum(v, x, lo + 1, hi - 1) + v[clamp_index(x + hi - 1, v.len() as int)]);
    } else {
        assert(window_sum(v, x, lo, hi - 1) == 0);
        assert(window_sum(v, x, lo + 1, hi) == 0);
    }
}

proof fn lemma_window_shift(v: Seq<u8>, x: int, lo: int, hi: int)
    ensures
        window_sum(v, x + 1, lo, hi) == window_sum(v, x, lo + 1, hi + 1),
    decreases hi - lo,
{
    if hi > lo {
        lemma_window_shift(v, x, lo, hi - 1);
        assert(x + 1 + hi - 1 == x + (hi + 1) - 1);
    }
}

/// Moving the box one position on: the value entering on the right comes in, the
/// one leaving on the left goes out.
proof fn lemma_box_slide(v: Seq<u8>, x: int, r: int)
    requires
        r >= 0,
    ensures
        box_sum(v, x + 1, r) == box_sum(v, x, r) + v[clamp_index(x + 1 + r, v.len() as int)]
            - v[clamp_index(x - r, v.len() as int)],
{
    lemma_window_shift(v, x, -r, r + 1);
    lemma_window_first(v, x, -r, r + 2);
}

/// The box sums of one line of a channel, for a blur of radius `radius`: entry `x`
/// is `box_sum(values, x, radius)`. The sums are kept running as the box slides
/// along the line.
pub fn box_window_sums(values: &Vec<u8>, radius: u32) -> (sums: Vec<u32>)
    requires
        255 * (2 * radius + 1) <= u32::MAX,
    ensures
        sums@.len() == values@.len(),
        forall|x: int| 0 <= x < values@.len() ==> #[trigger] sums@[x] == box_sum(values@, x, radius as int),
{
    let w = values.len();
    let mut sums: Vec<u32> = Vec::new();
    if w == 0 {
        return sums;
    }
    let ghost v = values@;
    let ghost r = radius as int;
    let mut sum: u32 = 0;
    let mut k: u32 = 0;
    while k < 2 * radius + 1
        invariant
            v == values@,
            v.len() == w,
            w > 0,
            r == radius as int,
            255 * (2 * radius + 1) <= u32::MAX,
            k <= 2 * radius + 1,
            sum == window_sum(v, 0, -r, k - r),
        decreases 2 * radius + 1 - k,
    {
        let i: usize = if k <= radius {
            0
        } else if ((k - radius) as usize) < w - 1 {
            (k - radius) as usize
        } else {
            w - 1
        };
        assert(i == clamp_index(k - r, w as int));
        proof {
            lemma_window_bounds(v, 0, -r, k + 1 - r);
        }
        sum = sum + values[i] as u32;
        k = k + 1;
    }
    let mut x: usize = 0;
    while x < w
        invariant
            v == values@,
            v.len() == w,
            w > 0,
            r == radius as int,
            255 * (2 * radius + 1) <= u32::MAX,
            x <= w,
            sums@.len() == x,
            x < w ==> sum == box_sum(v, x as int, r),
            forall|j: int| 0 <= j < x ==> #[trigger] sums@[j] == box_sum(v, j, r),
        decreases w - x,
    {
        sums.push(sum);
        if x + 1 < w {
            let leave: usize = if x < radius as usize { 0 } else { x - radius as usize };
            let room: usize = w - 1 - (x + 1);
            let enter: usize = if (radius as usize) < room { x + 1 + radius as usize } else { w - 1 };
            assert(leave == clamp_index(x - r, w as int));
            assert(enter == clamp_index(x + 1 + r, w as int));
            proof {
                lemma_box_slide(v, x as int, r);
                lemma_window_bounds(v, x + 1, -r, r + 1);
                lemma_window_first(v, x as int, -r, r + 1);
                lemma_window_bounds(v, x as int, -r + 1, r + 1);
            }
            sum = sum - values[leave] as u32 + values[enter] as u32;
        }
        x = x + 1;
    }
    sums
}

} // verus!
