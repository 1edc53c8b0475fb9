//! The compiled processing plan handed to the audio thread: the nodes that
//! feed a master output, in topological order, with their plugin delay
//! compensation.
use vstd::prelude::*;
use std::collections::HashSet;
use indexmap::IndexMap;
use crate::ids::{EdgeId, NodeId};
use crate::dag::has_cycle;
use crate::graph::normalized_from;
use crate::keyed::{keys_of, has_key, value_of, insert_entry, keys_unique, map_vals, lemma_key_index_unique};
use crate::graph::{AudioGraph, GraphEdge, GraphError, GraphNode, is_master, topo_ids, total_latency, arrivals,
    value_or_zero, from_audio, latency_entries, node_entries, node_view_fn, is_node_order, latency_new,
    latency_insert, latency_get, nodes_new, nodes_insert, nodes_get_index};
use crate::vecs::retain_where;

verus! {

broadcast use vstd::std_specs::hash::group_hash_axioms;

/// Some edge of `es` runs from `from` to `to`.
pub open spec fn has_edge(es: Seq<(EdgeId, GraphEdge)>, from: NodeId, to: NodeId) -> bool {
    exists|j: int| 0 <= j < es.len() && (#[trigger] es[j]).1.from_node == from && es[j].1.to_node == to
}

/// `path` follows edges of `g` from its first node to its last.
pub open spec fn is_path(g: AudioGraph, path: Seq<NodeId>) -> bool {
    &&& path.len() >= 1
    &&& forall|i: int| 0 <= i < path.len() - 1 ==> has_edge(g.edge_seq(), #[trigger] path[i], path[i + 1])
}

/// Node `id` reaches a master output of `g` along edges (a master reaches
/// itself).
pub open spec fn feeds_master(g: AudioGraph, id: NodeId) -> bool {
    exists|path: Seq<NodeId>| #[trigger] is_path(g, path) && path[0] == id && is_master(g, path.last())
}

pub open spec fn feeds_master_fn(g: AudioGraph) -> spec_fn(NodeId) -> bool {
    |id: NodeId| feeds_master(g, id)
}

proof fn lemma_master_feeds(g: AudioGraph, id: NodeId)
    requires
        is_master(g, id),
    ensures
        feeds_master(g, id),
{
    let p = seq![id];
    assert(is_path(g, p));
}

/// The source of an edge into a node that feeds a master feeds it too.
proof fn lemma_feeds_pred(g: AudioGraph, j: int)
    requires
        0 <= j < g.edge_seq().len(),
        feeds_master(g, g.edge_seq()[j].1.to_node),
    ensures
        feeds_master(g, g.edge_seq()[j].1.from_node),
{
    let e = g.edge_seq()[j].1;
    let p = choose|p: Seq<NodeId>| #[trigger] is_path(g, p) && p[0] == e.to_node && is_master(g, p.last());
    let q = seq![e.from_node] + p;
    assert forall|i: int| 0 <= i < q.len() - 1 implies has_edge(g.edge_seq(), #[trigger] q[i], q[i + 1]) by {
        if i == 0 {
            assert(q[1] == p[0]);
            assert(g.edge_seq()[j].1.from_node == q[0] && g.edge_seq()[j].1.to_node == q[1]);
        } else {
            assert(q[i] == p[i - 1] && q[i + 1] == p[i]);
        }
    }
    assert(q.last() == p.last());
    assert(is_path(g, q));
}

/// A set that holds every master and, with each node, the sources of its
/// incoming edges, holds every node that feeds a master.
proof fn lemma_closed_holds_feeders(g: AudioGraph, s: Set<NodeId>, id: NodeId)
    requires
        forall|x: NodeId| is_master(g, x) ==> s.contains(x),
        forall|x: NodeId, j: int| #![trigger s.contains(x), g.edge_seq()[j]]
            s.contains(x) && 0 <= j < g.edge_seq().len() && g.edge_seq()[j].1.to_node == x
            ==> s.contains(g.edge_seq()[j].1.from_node),
        feeds_master(g, id),
    ensures
        s.contains(id),
{
    let p = choose|p: Seq<NodeId>| #[trigger] is_path(g, p) && p[0] == id && is_master(g, p.last());
    lemma_path_in(g, s, p, 0);
}

proof fn lemma_path_in(g: AudioGraph, s: Set<NodeId>, p: Seq<NodeId>, i: int)
    requires
        forall|x: NodeId| is_master(g, x) ==> s.contains(x),
        forall|x: NodeId, j: int| #![trigger s.contains(x), g.edge_seq()[j]]
            s.contains(x) && 0 <= j < g.edge_seq().len() && g.edge_seq()[j].1.to_node == x
            ==> s.contains(g.edge_seq()[j].1.from_node),
        is_path(g, p),
        is_master(g, p.last()),
        0 <= i < p.len(),
    ensures
        s.contains(p[i]),
    decreases p.len() - i,
{
    if i < p.len() - 1 {
        lemma_path_in(g, s, p, i + 1);
        assert(has_edge(g.edge_seq(), p[i], p[i + 1]));
        let j = choose|j: int| 0 <= j < g.edge_seq().len() && (#[trigger] g.edge_seq()[j]).1.from_node == p[i]
            && g.edge_seq()[j].1.to_node == p[i + 1];
        assert(s.contains(g.edge_seq()[j].1.from_node));
    }
}

/// The nodes that feed a master output.
fn master_feeders(g: &AudioGraph) -> (active: HashSet<NodeId>)
    requires
        g.wf(),
    ensures
        forall|id: NodeId| #[trigger] active@.contains(id) <==> feeds_master(*g, id),
{
    let ghost ns = g.node_seq();
    let ghost es = g.edge_seq();
    let ghost keys = keys_of(ns).to_set();
    let mut pending: Vec<NodeId> = Vec::new();
    let n = g.node_count();
    let mut i: usize = 0;
    while i < n
        invariant
            i <= n,
            g.wf(),
            n == ns.len(),
            ns == g.node_seq(),
            forall|k: int| 0 <= k < pending@.len() ==> is_master(*g, #[trigger] pending@[k]),
            forall|j: int| 0 <= j < i && is_master(*g, #[trigger] ns[j].0) ==> pending@.contains(ns[j].0),
        decreases n - i,
    {
        let node = g.node_at(i).unwrap();
        let ghost pb = pending@;
        proof {
            lemma_key_index_unique(ns, ns[i as int].0, i as int);
        }
        if node.kind.allows_input_fan_in() {
            pending.push(node.id);
        }
        proof {
            assert forall|j: int| 0 <= j < i + 1 && is_master(*g, #[trigger] ns[j].0) implies pending@.contains(ns[j].0) by {
                if j < i {
                    assert(pb.contains(ns[j].0));
                    let w = choose|w: int| 0 <= w < pb.len() && pb[w] == ns[j].0;
                    assert(pending@[w] == pb[w]);
                } else {
                    assert(pending@.last() == ns[j].0);
                }
            }
        }
        i = i + 1;
    }
    proof {
        assert forall|x: NodeId| is_master(*g, x) implies pending@.contains(x) by {
            let j = crate::keyed::key_index(ns, x);
            assert(ns[j].0 == x);
        }
        keys_of(ns).lemma_cardinality_of_set();
        vstd::seq_lib::seq_to_set_is_finite(keys_of(ns));
        assert forall|k: int| 0 <= k < pending@.len() implies feeds_master(*g, #[trigger] pending@[k])
            && keys.contains(pending@[k]) by {
            let x = pending@[k];
            lemma_master_feeds(*g, x);
            let j = crate::keyed::key_index(ns, x);
            assert(keys_of(ns)[j] == x);
        }
    }
    let mut active: HashSet<NodeId> = HashSet::new();
    let m = g.edge_count();
    while pending.len() > 0
        invariant
            g.wf(),
            ns == g.node_seq(),
            es == g.edge_seq(),
            m == es.len(),
            keys == keys_of(ns).to_set(),
            keys.finite(),
            keys.len() <= ns.len(),
            active@.subset_of(keys),
            forall|x: NodeId| #[trigger] active@.contains(x) ==> feeds_master(*g, x),
            forall|k: int| 0 <= k < pending@.len() ==> feeds_master(*g, #[trigger] pending@[k])
                && keys.contains(pending@[k]),
            forall|x: NodeId| is_master(*g, x) ==> active@.contains(x) || pending@.contains(x),
            forall|x: NodeId, j: int| #![trigger active@.contains(x), es[j]]
                active@.contains(x) && 0 <= j < es.len() && es[j].1.to_node == x
                ==> active@.contains(es[j].1.from_node) || pending@.contains(es[j].1.from_node),
        decreases ns.len() - active@.len(), pending@.len(),
    {
        proof {
            vstd::set_lib::lemma_len_subset(active@, keys);
        }
        let ghost p0 = pending@;
        let ghost a0 = active@;
        let x = pending.pop().unwrap();
        let ghost before = pending@;
        let fresh = !active.contains(&x);
        if fresh {
            active.insert(x);
            let mut j: usize = 0;
            while j < m
                invariant
                    g.wf(),
                    ns == g.node_seq(),
                    es == g.edge_seq(),
                    m == es.len(),
                    j <= m,
                    keys == keys_of(ns).to_set(),
                    feeds_master(*g, x),
                    pending@.len() >= before.len(),
                    pending@.take(before.len() as int) == before,
                    forall|k: int| 0 <= k < pending@.len() ==> feeds_master(*g, #[trigger] pending@[k])
                        && keys.contains(pending@[k]),
                    forall|jj: int| 0 <= jj < j && (#[trigger] es[jj]).1.to_node == x
                        ==> pending@.contains(es[jj].1.from_node),
                decreases m - j,
            {
                let e = g.edge_at(j).unwrap();
                if e.to_node == x {
                    proof {
                        lemma_feeds_pred(*g, j as int);
                        let f = e.from_node;
                        assert(has_key(ns, f));
                        let p = crate::keyed::key_index(ns, f);
                        assert(keys_of(ns)[p] == f);
                    }
                    let ghost pb = pending@;
                    pending.push(e.from_node);
                    proof {
                        assert forall|jj: int| 0 <= jj < j && (#[trigger] es[jj]).1.to_node == x
                            implies pending@.contains(es[jj].1.from_node) by {
                            let w = choose|w: int| 0 <= w < pb.len() && pb[w] == es[jj].1.from_node;
                            assert(pending@[w] == pb[w]);
                        }
                        assert(pending@[pb.len() as int] == e.from_node);
                        assert(pending@.take(before.len() as int) =~= pb.take(before.len() as int));
                    }
                }
                j = j + 1;
            }
        }
        proof {
            assert(before =~= p0.drop_last());
            assert(pending@.len() >= before.len() && pending@.take(before.len() as int) == before);
            assert(active@ == a0.insert(x));
            assert forall|y: NodeId| p0.contains(y) implies active@.contains(y) || pending@.contains(y) by {
                let w = choose|w: int| 0 <= w < p0.len() && p0[w] == y;
                if w < p0.len() - 1 {
                    assert(before[w] == y);
                    assert(pending@.take(before.len() as int)[w] == y);
                    assert(pending@[w] == y);
                }
            }
            assert forall|y: NodeId| is_master(*g, y) implies active@.contains(y) || pending@.contains(y) by {
                if !a0.contains(y) {
                    assert(p0.contains(y));
                }
            }
            assert forall|y: NodeId, jj: int| #![trigger active@.contains(y), es[jj]]
                active@.contains(y) && 0 <= jj < es.len() && es[jj].1.to_node == y
                implies active@.contains(es[jj].1.from_node) || pending@.contains(es[jj].1.from_node) by {
                let f = es[jj].1.from_node;
                if a0.contains(y) {
                    if !a0.contains(f) {
                        assert(p0.contains(f));
                    }
                }
            }
            assert forall|k: int| 0 <= k < pending@.len() implies feeds_master(*g, #[trigger] pending@[k])
                && keys.contains(pending@[k]) by {
                if !fresh {
                    assert(pending@[k] == p0[k]);
                }
            }
            assert(keys.contains(x)) by {
                assert(p0[p0.len() - 1] == x);
            }
            vstd::set_lib::lemma_len_subset(active@, keys);
            if fresh {
                assert(active@.len() == a0.len() + 1);
            } else {
                assert(active@ =~= a0);
            }
        }
    }
    proof {
        assert forall|id: NodeId| #[trigger] active@.contains(id) <==> feeds_master(*g, id) by {
            if feeds_master(*g, id) {
                lemma_closed_holds_feeders(*g, active@, id);
            }
        }
    }
    active
}


pub open spec fn max_u32(a: u32, b: u32) -> u32 {
    if a > b { a } else { b }
}

/// Latest arrival (per `arr`) among the audio sources of the first `j`
/// edges into `dest`; 0 when there are none.
pub open spec fn audio_arrival(g: AudioGraph, arr: Seq<(NodeId, u32)>, dest: NodeId, j: int) -> u32
    decreases j,
{
    if j <= 0 {
        0
    } else {
        let e = g.edge_seq()[j - 1].1;
        let prev = audio_arrival(g, arr, dest, j - 1);
        if e.to_node == dest && from_audio(g, e) {
            max_u32(value_or_zero(arr, e.from_node), prev)
        } else {
            prev
        }
    }
}

/// Delay node `n` needs so that its audio into `dest` (over the first `j`
/// edges) lines up with the latest audio arriving there.
pub open spec fn delay_at(g: AudioGraph, arr: Seq<(NodeId, u32)>, dest: NodeId, n: NodeId, j: int) -> u32
    decreases j,
{
    if j <= 0 {
        0
    } else {
        let e = g.edge_seq()[j - 1].1;
        let prev = delay_at(g, arr, dest, n, j - 1);
        if e.to_node == dest && e.from_node == n && from_audio(g, e) {
            max_u32(audio_arrival(g, arr, dest, g.edge_seq().len() as int).saturating_sub(value_or_zero(arr, n)), prev)
        } else {
            prev
        }
    }
}

/// Delay of node `n` over the first `k` destinations of `order`: the
/// largest it needs at any of them.
pub open spec fn delay_over(g: AudioGraph, order: Seq<NodeId>, arr: Seq<(NodeId, u32)>, n: NodeId, k: int) -> u32
    decreases k,
{
    if k <= 0 {
        0
    } else {
        max_u32(delay_over(g, order, arr, n, k - 1), delay_at(g, arr, order[k - 1], n, g.edge_seq().len() as int))
    }
}

/// The nodes the plan runs: those feeding a master, in topological order.
pub open spec fn plan_order(g: AudioGraph) -> Seq<NodeId> {
    match topo_ids(g) {
        Some(o) => o.filter(feeds_master_fn(g)),
        None => Seq::empty(),
    }
}

/// Delay compensation per node of `order` (arrivals taken along `order`).
pub open spec fn delays_of(g: AudioGraph, order: Seq<NodeId>) -> Seq<(NodeId, u32)> {
    let arr = arrivals(g, order, order.len() as int);
    order.map_values(|n: NodeId| (n, delay_over(g, order, arr, n, order.len() as int)))
}

proof fn lemma_audio_arrival(g: AudioGraph, arr: Seq<(NodeId, u32)>, dest: NodeId, j: int)
    requires
        0 <= j <= g.edge_seq().len(),
    ensures
        forall|i: int| 0 <= i < j && (#[trigger] g.edge_seq()[i]).1.to_node == dest && from_audio(g, g.edge_seq()[i].1)
            ==> value_or_zero(arr, g.edge_seq()[i].1.from_node) <= audio_arrival(g, arr, dest, j),
        audio_arrival(g, arr, dest, j) == 0 || exists|i: int| 0 <= i < j
            && (#[trigger] g.edge_seq()[i]).1.to_node == dest && from_audio(g, g.edge_seq()[i].1)
            && audio_arrival(g, arr, dest, j) == value_or_zero(arr, g.edge_seq()[i].1.from_node),
    decreases j,
{
    if j > 0 {
        lemma_audio_arrival(g, arr, dest, j - 1);
    }
}

proof fn lemma_delay_at(g: AudioGraph, arr: Seq<(NodeId, u32)>, dest: NodeId, n: NodeId, j: int)
    requires
        0 <= j <= g.edge_seq().len(),
    ensures
        ({
            let need = audio_arrival(g, arr, dest, g.edge_seq().len() as int).saturating_sub(value_or_zero(arr, n));
            &&& forall|i: int| 0 <= i < j && (#[trigger] g.edge_seq()[i]).1.to_node == dest
                && g.edge_seq()[i].1.from_node == n && from_audio(g, g.edge_seq()[i].1)
                ==> delay_at(g, arr, dest, n, j) == need
            &&& delay_at(g, arr, dest, n, j) == 0 || delay_at(g, arr, dest, n, j) == need
        }),
    decreases j,
{
    if j > 0 {
        lemma_delay_at(g, arr, dest, n, j - 1);
    }
}

proof fn lemma_delay_over(g: AudioGraph, order: Seq<NodeId>, arr: Seq<(NodeId, u32)>, n: NodeId, k: int)
    requires
        0 <= k <= order.len(),
    ensures
        forall|q: int| 0 <= q < k ==> delay_at(g, arr, #[trigger] order[q], n, g.edge_seq().len() as int)
            <= delay_over(g, order, arr, n, k),
        delay_over(g, order, arr, n, k) == 0 || exists|q: int| 0 <= q < k
            && delay_over(g, order, arr, n, k) == delay_at(g, arr, #[trigger] order[q], n, g.edge_seq().len() as int),
    decreases k,
{
    if k > 0 {
        lemma_delay_over(g, order, arr, n, k - 1);
    }
}

/// Plugin delay compensation lines up the audio meeting at every node of
/// the order: a node feeding audio into a destination is delayed so that its
/// arrival plus its delay reaches the latest audio arrival there, and it is
/// delayed no more than the largest such gap over the destinations it
/// feeds (0 when it feeds none, or is never the early branch).
pub proof fn law_delay_compensation(g: AudioGraph, order: Seq<NodeId>, p: int)
    requires
        0 <= p < order.len(),
    ensures
        ({
            let dl = delays_of(g, order);
            let a = arrivals(g, order, order.len() as int);
            let es = g.edge_seq();
            let n = order[p];
            let d = dl[p].1 as int;
            &&& dl.len() == order.len()
            &&& dl[p].0 == n
            &&& forall|q: int, i: int, m: int| #![trigger es[i], es[m], order[q]]
                0 <= q < order.len() && 0 <= i < es.len() && 0 <= m < es.len()
                && es[i].1.to_node == order[q] && es[i].1.from_node == n && from_audio(g, es[i].1)
                && es[m].1.to_node == order[q] && from_audio(g, es[m].1)
                ==> value_or_zero(a, n) + d >= value_or_zero(a, es[m].1.from_node)
            &&& d == 0 || exists|q: int, m: int| #![trigger es[m], order[q]]
                0 <= q < order.len() && 0 <= m < es.len()
                && es[m].1.to_node == order[q] && from_audio(g, es[m].1)
                && d == value_or_zero(a, es[m].1.from_node) - value_or_zero(a, n)
        }),
{
    let a = arrivals(g, order, order.len() as int);
    let es = g.edge_seq();
    let n = order[p];
    let len = es.len() as int;
    lemma_delay_over(g, order, a, n, order.len() as int);
    let d = delay_over(g, order, a, n, order.len() as int);
    assert forall|q: int, i: int, m: int| #![trigger es[i], es[m], order[q]]
        0 <= q < order.len() && 0 <= i < es.len() && 0 <= m < es.len()
        && es[i].1.to_node == order[q] && es[i].1.from_node == n && from_audio(g, es[i].1)
        && es[m].1.to_node == order[q] && from_audio(g, es[m].1)
        implies value_or_zero(a, n) + d >= value_or_zero(a, es[m].1.from_node) by {
        lemma_delay_at(g, a, order[q], n, len);
        lemma_audio_arrival(g, a, order[q], len);
        assert(delay_at(g, a, order[q], n, len) <= d);
    }
    if d != 0 {
        let q = choose|q: int| 0 <= q < order.len()
            && d == delay_at(g, a, #[trigger] order[q], n, g.edge_seq().len() as int);
        lemma_delay_at(g, a, order[q], n, len);
        lemma_audio_arrival(g, a, order[q], len);
        let aa = audio_arrival(g, a, order[q], len);
        assert(aa != 0);
        let m = choose|m: int| 0 <= m < len
            && (#[trigger] es[m]).1.to_node == order[q] && from_audio(g, es[m].1)
            && aa == value_or_zero(a, es[m].1.from_node);
        assert(d == value_or_zero(a, es[m].1.from_node) - value_or_zero(a, n));
    }
}

/// The plan runs exactly the nodes of the topological order from which a
/// path of edges leads to a master output (the masters among them), and
/// nothing when the graph has no topological order.
pub proof fn law_plan_order(g: AudioGraph, x: NodeId)
    ensures
        topo_ids(g) matches Some(o) ==> (plan_order(g).contains(x) <==> o.contains(x) && feeds_master(g, x)),
        topo_ids(g) matches Some(o) ==> (o.contains(x) && is_master(g, x) ==> plan_order(g).contains(x)),
        topo_ids(g) is None ==> plan_order(g).len() == 0,
{
    if let Some(o) = topo_ids(g) {
        let f = feeds_master_fn(g);
        if plan_order(g).contains(x) {
            o.lemma_filter_contains_rev(f, x);
            let i = choose|i: int| 0 <= i < o.filter(f).len() && o.filter(f)[i] == x;
            o.lemma_filter_pred(f, i);
        }
        if is_master(g, x) {
            lemma_master_feeds(g, x);
        }
        if o.contains(x) && feeds_master(g, x) {
            let i = choose|i: int| 0 <= i < o.len() && o[i] == x;
            o.lemma_filter_contains(f, i);
        }
    }
}

/// Immutable compiled plan, safe to swap onto the audio thread.
pub struct CompiledPlan {
    pub order: Vec<NodeId>,
    pub nodes: IndexMap<NodeId, GraphNode>,
    pub edges: Vec<GraphEdge>,
    /// Per-node delay (samples) for plugin delay compensation.
    pub delay_compensation: IndexMap<NodeId, u32>,
    pub total_latency: u32,
}

impl CompiledPlan {
    /// The plan compiled from `g`: the nodes feeding a master in topological
    /// order, copies of all nodes and edges, delay compensation along that
    /// order, and the graph's total latency.
    pub open spec fn compiled_from(&self, g: AudioGraph) -> bool {
        &&& self.order@ == plan_order(g)
        &&& map_vals(node_entries(self.nodes), node_view_fn()) == g.nodes_view()
        &&& self.edges@ == g.edge_seq().map_values(|e: (EdgeId, GraphEdge)| e.1)
        &&& latency_entries(self.delay_compensation) == delays_of(g, plan_order(g))
        &&& self.total_latency == total_latency(g)
    }

    pub open spec fn is_empty_plan(&self) -> bool {
        &&& self.order@.len() == 0
        &&& node_entries(self.nodes).len() == 0
        &&& self.edges@.len() == 0
        &&& latency_entries(self.delay_compensation).len() == 0
        &&& self.total_latency == 0
    }

    /// Compile the graph for the engine. Edges to missing nodes are passed
    /// over, and ids are taken from the map keys: the plan is the one
    /// compiled from the graph's normalized copy, which is the graph itself
    /// when it is linked. `Cycle` exactly when the edges between nodes have a
    /// directed cycle.
    pub fn compile(graph: &AudioGraph) -> (r: Result<CompiledPlan, GraphError>)
        requires
            graph.node_seq().len() < u32::MAX,
            graph.edge_seq().len() < u32::MAX,
        ensures
            r is Err <==> has_cycle(graph.live_pairs()),
            r is Err ==> r == Err::<CompiledPlan, GraphError>(GraphError::Cycle),
            r matches Ok(plan) ==> exists|h: AudioGraph| #[trigger] normalized_from(*graph, h) && plan.compiled_from(h),
            graph.linked() ==> (r matches Ok(plan) ==> plan.compiled_from(*graph)),
    {
        if graph.is_linked() {
            proof {
                crate::graph::lemma_linked_normalized(*graph);
                crate::graph::lemma_normalized_shape(*graph, *graph);
            }
            CompiledPlan::compile_linked(graph)
        } else {
            let h = graph.normalized();
            proof {
                crate::graph::lemma_normalized_shape(*graph, h);
            }
            CompiledPlan::compile_linked(&h)
        }
    }

    /// Compile a linked graph; `Cycle` exactly when it has a directed cycle.
    pub(crate) fn compile_linked(graph: &AudioGraph) -> (r: Result<CompiledPlan, GraphError>)
        requires
            graph.linked(),
            graph.node_seq().len() < u32::MAX,
            graph.edge_seq().len() < u32::MAX,
        ensures
            r is Err <==> has_cycle(graph.pairs()),
            r is Err ==> r == Err::<CompiledPlan, GraphError>(GraphError::Cycle),
            r matches Ok(plan) ==> plan.compiled_from(*graph),
    {
        let mut order = match graph.topological_order_linked() {
            Ok(o) => o,
            Err(e) => return Err(e),
        };
        assert(graph.wf());
        let total_latency = graph.latency_total();
        let ghost topo = order@;
        let active = master_feeders(graph);
        retain_where(&mut order, |id: &NodeId| -> (b: bool) ensures b == feeds_master(*graph, *id) { active.contains(id) },
            Ghost(feeds_master_fn(*graph)));
        proof {
            lemma_filter_unique(topo, feeds_master_fn(*graph));
        }
        let arrival = graph.arrival_map(&order);
        let delay_compensation = delays(graph, &order, &arrival);
        let nodes = copy_nodes(graph);
        let edges = edge_list(graph);
        Ok(CompiledPlan { order, nodes, edges, delay_compensation, total_latency })
    }

    pub fn empty() -> (p: CompiledPlan)
        ensures
            p.is_empty_plan(),
    {
        CompiledPlan { order: Vec::new(), nodes: nodes_new(), edges: Vec::new(), delay_compensation: latency_new(),
            total_latency: 0 }
    }
}

/// No element occurs twice.
pub open spec fn no_dups(s: Seq<NodeId>) -> bool {
    forall|i: int, j: int| 0 <= i < s.len() && 0 <= j < s.len() && i != j ==> s[i] != s[j]
}

proof fn lemma_filter_unique(s: Seq<NodeId>, p: spec_fn(NodeId) -> bool)
    requires
        no_dups(s),
    ensures
        no_dups(s.filter(p)),
    decreases s.len(),
{
    reveal(Seq::filter);
    if s.len() > 0 {
        let d = s.drop_last();
        assert(no_dups(d)) by {
            assert forall|i: int, j: int| 0 <= i < d.len() && 0 <= j < d.len() && i != j implies d[i] != d[j] by {
                assert(d[i] == s[i] && d[j] == s[j]);
            }
        }
        lemma_filter_unique(d, p);
        if p(s.last()) {
            let f = d.filter(p);
            assert forall|i: int| 0 <= i < f.len() implies f[i] != s.last() by {
                assert(f.contains(f[i]));
                d.lemma_filter_contains_rev(p, f[i]);
                let w = choose|w: int| 0 <= w < d.len() && d[w] == f[i];
                assert(d[w] == s[w]);
            }
        }
    }
}

/// Delay compensation of each node of `order` (arrivals per `arrival`).
fn delays(g: &AudioGraph, order: &Vec<NodeId>, arrival: &IndexMap<NodeId, u32>) -> (dc: IndexMap<NodeId, u32>)
    requires
        g.wf(),
        no_dups(order@),
    ensures
        latency_entries(dc) == order@.map_values(|n: NodeId|
            (n, delay_over(*g, order@, latency_entries(*arrival), n, order@.len() as int))),
{
    let ghost arr = latency_entries(*arrival);
    let ghost ord = order@;
    let ghost es = g.edge_seq();
    let m = g.edge_count();
    let mut dc = latency_new();
    let mut i: usize = 0;
    while i < order.len()
        invariant
            i <= order.len(),
            ord == order@,
            no_dups(ord),
            latency_entries(dc) == ord.take(i as int).map_values(|n: NodeId| (n, 0u32)),
        decreases order.len() - i,
    {
        let id = order[i];
        proof {
            let t = ord.take(i as int).map_values(|n: NodeId| (n, 0u32));
            if has_key(t, id) {
                let w = crate::keyed::key_index(t, id);
                assert(ord[w] == id && w < i);
            }
            assert(ord.take(i as int + 1).map_values(|n: NodeId| (n, 0u32)) =~= t.push((id, 0u32)));
        }
        latency_insert(&mut dc, id, 0);
        i = i + 1;
    }
    proof {
        assert(ord.take(ord.len() as int) =~= ord);
        assert(latency_entries(dc) =~= ord.map_values(|n: NodeId| (n, delay_over(*g, ord, arr, n, 0))));
    }
    let mut k: usize = 0;
    while k < order.len()
        invariant
            k <= order.len(),
            ord == order@,
            no_dups(ord),
            es == g.edge_seq(),
            m == es.len(),
            arr == latency_entries(*arrival),
            latency_entries(dc) == ord.map_values(|n: NodeId| (n, delay_over(*g, ord, arr, n, k as int))),
        decreases order.len() - k,
    {
        let dest = order[k];
        let mut latest: u32 = 0;
        let mut j: usize = 0;
        while j < m
            invariant
                j <= m,
                es == g.edge_seq(),
                m == es.len(),
                arr == latency_entries(*arrival),
                latest == audio_arrival(*g, arr, dest, j as int),
            decreases m - j,
        {
            let e = g.edge_at(j).unwrap();
            if e.to_node == dest && g.from_is_audio(&e) {
                let a = match latency_get(arrival, e.from_node) {
                    Some(v) => v,
                    None => 0,
                };
                if a > latest {
                    latest = a;
                }
            }
            j = j + 1;
        }
        let mut j: usize = 0;
        while j < m
            invariant
                j <= m,
                k < ord.len(),
                dest == ord[k as int],
                ord == order@,
                no_dups(ord),
                es == g.edge_seq(),
                m == es.len(),
                arr == latency_entries(*arrival),
                latest == audio_arrival(*g, arr, dest, m as int),
                latency_entries(dc) == ord.map_values(|n: NodeId|
                    (n, max_u32(delay_over(*g, ord, arr, n, k as int), delay_at(*g, arr, dest, n, j as int)))),
            decreases m - j,
        {
            let e = g.edge_at(j).unwrap();
            let ghost before = latency_entries(dc);
            if e.to_node == dest && g.from_is_audio(&e) {
                let up = match latency_get(arrival, e.from_node) {
                    Some(v) => v,
                    None => 0,
                };
                let delay = latest.saturating_sub(up);
                match latency_get(&dc, e.from_node) {
                    Some(cur) => {
                        latency_insert(&mut dc, e.from_node, if cur > delay { cur } else { delay });
                    },
                    None => {},
                }
                proof {
                    let s = e.from_node;
                    let next = ord.map_values(|n: NodeId|
                        (n, max_u32(delay_over(*g, ord, arr, n, k as int), delay_at(*g, arr, dest, n, j as int + 1))));
                    if has_key(before, s) {
                        let w = crate::keyed::key_index(before, s);
                        assert(ord[w] == s);
                        assert forall|a: int, b: int| 0 <= a < before.len() && 0 <= b < before.len() && a != b
                            implies before[a].0 != before[b].0 by {
                            assert(before[a].0 == ord[a] && before[b].0 == ord[b]);
                        }
                        lemma_key_index_unique(before, s, w);
                        assert(latency_entries(dc) =~= next);
                    } else {
                        assert forall|w: int| 0 <= w < ord.len() implies ord[w] != s by {
                            assert(before[w].0 == ord[w]);
                        }
                        assert(latency_entries(dc) =~= next);
                    }
                }
            } else {
                proof {
                    let next = ord.map_values(|n: NodeId|
                        (n, max_u32(delay_over(*g, ord, arr, n, k as int), delay_at(*g, arr, dest, n, j as int + 1))));
                    assert(latency_entries(dc) =~= next);
                }
            }
            j = j + 1;
        }
        proof {
            assert(latency_entries(dc) =~= ord.map_values(|n: NodeId| (n, delay_over(*g, ord, arr, n, k as int + 1))));
        }
        k = k + 1;
    }
    dc
}

/// A copy of the node map.
fn copy_nodes(g: &AudioGraph) -> (m: IndexMap<NodeId, GraphNode>)
    requires
        g.wf(),
    ensures
        map_vals(node_entries(m), node_view_fn()) == g.nodes_view(),
{
    let ghost ns = g.node_seq();
    let mut m = nodes_new();
    let n = g.node_count();
    let mut i: usize = 0;
    while i < n
        invariant
            i <= n,
            n == ns.len(),
            ns == g.node_seq(),
            keys_unique(ns),
            map_vals(node_entries(m), node_view_fn()) == map_vals(ns.take(i as int), node_view_fn()),
            node_entries(m).len() == i,
            forall|w: int| 0 <= w < i ==> (#[trigger] node_entries(m)[w]).0 == ns[w].0,
        decreases n - i,
    {
        let kv = nodes_get_index(&g.nodes, i).unwrap();
        let k = *kv.0;
        let node = kv.1.duplicate();
        proof {
            if has_key(node_entries(m), k) {
                let w = crate::keyed::key_index(node_entries(m), k);
                assert(ns[w].0 == k);
            }
        }
        let ghost before = node_entries(m);
        nodes_insert(&mut m, k, node);
        proof {
            assert(node_entries(m) == before.push((k, node)));
            assert(node@ == ns[i as int].1@);
            let lhs = map_vals(node_entries(m), node_view_fn());
            let rhs = map_vals(ns.take(i as int + 1), node_view_fn());
            assert forall|w: int| 0 <= w < i implies lhs[w] == rhs[w] by {
                assert(lhs[w] == map_vals(before, node_view_fn())[w]);
                assert(rhs[w] == map_vals(ns.take(i as int), node_view_fn())[w]);
            }
            assert(lhs[i as int] == rhs[i as int]);
            assert(lhs =~= rhs);
        }
        i = i + 1;
    }
    assert(ns.take(n as int) =~= ns);
    m
}

/// The edges, in order.
fn edge_list(g: &AudioGraph) -> (v: Vec<GraphEdge>)
    ensures
        v@ == g.edge_seq().map_values(|e: (EdgeId, GraphEdge)| e.1),
{
    let ghost es = g.edge_seq();
    let mut v: Vec<GraphEdge> = Vec::new();
    let m = g.edge_count();
    let mut j: usize = 0;
    while j < m
        invariant
            j <= m,
            es == g.edge_seq(),
            m == es.len(),
            v@ == es.take(j as int).map_values(|e: (EdgeId, GraphEdge)| e.1),
        decreases m - j,
    {
        let e = g.edge_at(j).unwrap();
        v.push(e);
        proof {
            assert(v@ =~= es.take(j as int + 1).map_values(|e: (EdgeId, GraphEdge)| e.1));
        }
        j = j + 1;
    }
    assert(es.take(m as int) =~= es);
    v
}
} // verus!
