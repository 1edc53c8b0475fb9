//! Column assignment for the routing editor's left-to-right layout: every
//! node's column (rank) is one past the highest column of the nodes feeding
//! it, and master outputs get a column of their own at the far right.
//!
//! Pixel positions (column widths, rows, heights) are floating point and are
//! computed by the editor from these ranks.
use vstd::prelude::*;
use indexmap::IndexMap;
use crate::ids::{EdgeId, NodeId};
use crate::keyed::{has_key, value_of, insert_entry, keys_unique, keys_of, key_index, lemma_insert_keeps_unique,
    lemma_value_of_after, lemma_key_index_unique};
use crate::dag::has_cycle;
use crate::graph::normalized_from;
use crate::graph::{AudioGraph, GraphEdge, GraphNode, NodeKind, topo_ids, nodes_get, nodes_len, edges_len,
    edges_get_index, node_entries, edge_entries, value_or_zero, latency_entries,
    latency_new, latency_insert, latency_get, nodes_get_index, is_node_order, runs_forward};

verus! {

/// The highest rank, in `rk`, of a node with one of the first `j` edges into
/// `node` (`None` when no such node has a rank yet).
pub open spec fn incoming_rank(es: Seq<(EdgeId, GraphEdge)>, rk: Seq<(NodeId, u32)>, node: NodeId, j: int) -> Option<u32>
    decreases j,
{
    if j <= 0 {
        None
    } else {
        let prev = incoming_rank(es, rk, node, j - 1);
        let e = es[j - 1].1;
        if e.to_node == node && has_key(rk, e.from_node) {
            let v = value_or_zero(rk, e.from_node);
            match prev {
                Some(p) => Some(if v > p { v } else { p }),
                None => Some(v),
            }
        } else {
            prev
        }
    }
}

/// One past the highest upstream rank, or 0.
pub open spec fn rank_after(m: Option<u32>) -> u32 {
    match m {
        Some(v) => (v + 1) as u32,
        None => 0,
    }
}

/// Ranks of the first `k` nodes of `order`, each from the ranks before it.
pub open spec fn ranks(g: AudioGraph, order: Seq<NodeId>, k: int) -> Seq<(NodeId, u32)>
    decreases k,
{
    if k <= 0 {
        Seq::empty()
    } else {
        let rk = ranks(g, order, k - 1);
        insert_entry(rk, order[k - 1], rank_after(incoming_rank(g.edge_seq(), rk, order[k - 1], g.edge_seq().len() as int)))
    }
}

/// `rk` with rank 0 added for each of the first `k` nodes of `ns` it lacks.
pub open spec fn with_zeros(rk: Seq<(NodeId, u32)>, ns: Seq<(NodeId, GraphNode)>, k: int) -> Seq<(NodeId, u32)>
    decreases k,
{
    if k <= 0 {
        rk
    } else {
        let r = with_zeros(rk, ns, k - 1);
        if has_key(r, ns[k - 1].0) { r } else { r.push((ns[k - 1].0, 0)) }
    }
}

/// The highest rank among the first `k` nodes of `g` that are not master
/// outputs (0 when there are none).
pub open spec fn max_other(g: AudioGraph, rk: Seq<(NodeId, u32)>, k: int) -> u32
    decreases k,
{
    if k <= 0 {
        0
    } else {
        let m = max_other(g, rk, k - 1);
        let e = g.node_seq()[k - 1];
        if e.1.kind is MasterOutput {
            m
        } else {
            let v = value_or_zero(rk, e.0);
            if v > m { v } else { m }
        }
    }
}

/// `rk` with every master output among the first `k` nodes of `g` set to
/// rank `top`.
pub open spec fn masters_last(g: AudioGraph, rk: Seq<(NodeId, u32)>, top: u32, k: int) -> Seq<(NodeId, u32)>
    decreases k,
{
    if k <= 0 {
        rk
    } else {
        let r = masters_last(g, rk, top, k - 1);
        let e = g.node_seq()[k - 1];
        if e.1.kind is MasterOutput { insert_entry(r, e.0, top) } else { r }
    }
}

/// The order ranks are assigned in: topological, or the node order when the
/// graph has a cycle.
pub open spec fn layout_order(g: AudioGraph) -> Seq<NodeId> {
    match topo_ids(g) {
        Some(o) => o,
        None => keys_of(g.node_seq()),
    }
}

/// The rank of every node, as `layout_ranks` returns them.
pub open spec fn layout_ranks_of(g: AudioGraph) -> Seq<(NodeId, u32)> {
    let n = g.node_seq().len() as int;
    if n == 0 {
        Seq::empty()
    } else {
        let o = layout_order(g);
        let r = with_zeros(ranks(g, o, o.len() as int), g.node_seq(), n);
        let m = max_other(g, r, n);
        masters_last(g, r, if m == u32::MAX { m } else { (m + 1) as u32 }, n)
    }
}

/// Every value of `s` is at most `b`.
pub open spec fn values_at_most(s: Seq<(NodeId, u32)>, b: int) -> bool {
    forall|i: int| 0 <= i < s.len() ==> (#[trigger] s[i]).1 <= b
}

proof fn lemma_insert_at_most(s: Seq<(NodeId, u32)>, k: NodeId, v: u32, b: int)
    requires
        values_at_most(s, b),
        v <= b,
    ensures
        values_at_most(insert_entry(s, k, v), b),
{
}

proof fn lemma_incoming_at_most(es: Seq<(EdgeId, GraphEdge)>, rk: Seq<(NodeId, u32)>, node: NodeId, j: int, b: int)
    requires
        values_at_most(rk, b),
    ensures
        incoming_rank(es, rk, node, j) matches Some(v) ==> v <= b,
    decreases j,
{
    if j > 0 {
        lemma_incoming_at_most(es, rk, node, j - 1, b);
        let e = es[j - 1].1;
        if e.to_node == node && has_key(rk, e.from_node) {
            let q = key_index(rk, e.from_node);
            assert(rk[q].1 <= b);
        }
    }
}

proof fn lemma_ranks_at_most(g: AudioGraph, order: Seq<NodeId>, k: int)
    requires
        k >= 0,
    ensures
        values_at_most(ranks(g, order, k), k - 1),
        keys_unique(ranks(g, order, k)),
    decreases k,
{
    if k > 0 {
        let rk = ranks(g, order, k - 1);
        lemma_ranks_at_most(g, order, k - 1);
        lemma_incoming_at_most(g.edge_seq(), rk, order[k - 1], g.edge_seq().len() as int, k - 2);
        lemma_insert_at_most(rk, order[k - 1], rank_after(incoming_rank(g.edge_seq(), rk, order[k - 1],
            g.edge_seq().len() as int)), k - 1);
        lemma_insert_keeps_unique(rk, order[k - 1], rank_after(incoming_rank(g.edge_seq(), rk, order[k - 1],
            g.edge_seq().len() as int)));
    }
}

proof fn lemma_ranks_persist(g: AudioGraph, o: Seq<NodeId>, i: int, k: int)
    requires
        0 <= i < k <= o.len(),
        forall|p: int, q: int| 0 <= p < o.len() && 0 <= q < o.len() && p != q ==> o[p] != o[q],
    ensures
        value_of(ranks(g, o, k), o[i]) == value_of(ranks(g, o, i + 1), o[i]),
    decreases k,
{
    if k > i + 1 {
        lemma_ranks_persist(g, o, i, k - 1);
        lemma_ranks_at_most(g, o, k - 1);
        let rk = ranks(g, o, k - 1);
        lemma_value_of_after(rk, o[k - 1], rank_after(incoming_rank(g.edge_seq(), rk, o[k - 1],
            g.edge_seq().len() as int)), o[i]);
    }
}

proof fn lemma_ranks_entry(g: AudioGraph, o: Seq<NodeId>, i: int)
    requires
        0 <= i < o.len(),
    ensures
        value_of(ranks(g, o, i + 1), o[i]) == Some(rank_after(incoming_rank(g.edge_seq(), ranks(g, o, i), o[i],
            g.edge_seq().len() as int))),
{
    lemma_ranks_at_most(g, o, i);
    let rk = ranks(g, o, i);
    lemma_value_of_after(rk, o[i], rank_after(incoming_rank(g.edge_seq(), rk, o[i], g.edge_seq().len() as int)), o[i]);
}

proof fn lemma_incoming_ge(es: Seq<(EdgeId, GraphEdge)>, rk: Seq<(NodeId, u32)>, node: NodeId, j: int, t: int)
    requires
        0 <= t < j,
        es[t].1.to_node == node,
        has_key(rk, es[t].1.from_node),
    ensures
        incoming_rank(es, rk, node, j) matches Some(m) && m >= value_or_zero(rk, es[t].1.from_node),
    decreases j,
{
    if j - 1 > t {
        lemma_incoming_ge(es, rk, node, j - 1, t);
    }
}

proof fn lemma_with_zeros_keeps(rk: Seq<(NodeId, u32)>, ns: Seq<(NodeId, GraphNode)>, k: int, x: NodeId)
    requires
        keys_unique(rk),
        has_key(rk, x),
    ensures
        value_of(with_zeros(rk, ns, k), x) == value_of(rk, x),
        keys_unique(with_zeros(rk, ns, k)),
    decreases k,
{
    if k > 0 {
        lemma_with_zeros_keeps(rk, ns, k - 1, x);
        let r = with_zeros(rk, ns, k - 1);
        let key = ns[k - 1].0;
        if !has_key(r, key) {
            assert(insert_entry(r, key, 0) == r.push((key, 0)));
            lemma_value_of_after(r, key, 0, x);
        }
    }
}

proof fn lemma_masters_keep(g: AudioGraph, rk: Seq<(NodeId, u32)>, top: u32, k: int, x: NodeId)
    requires
        keys_unique(rk),
        keys_unique(g.node_seq()),
        0 <= k <= g.node_seq().len(),
        forall|q: int| 0 <= q < k && (#[trigger] g.node_seq()[q]).0 == x ==> !(g.node_seq()[q].1.kind is MasterOutput),
    ensures
        value_of(masters_last(g, rk, top, k), x) == value_of(rk, x),
        keys_unique(masters_last(g, rk, top, k)),
    decreases k,
{
    if k > 0 {
        lemma_masters_keep(g, rk, top, k - 1, x);
        let r = masters_last(g, rk, top, k - 1);
        let e = g.node_seq()[k - 1];
        if e.1.kind is MasterOutput {
            lemma_value_of_after(r, e.0, top, x);
        }
    }
}

proof fn lemma_masters_set(g: AudioGraph, rk: Seq<(NodeId, u32)>, top: u32, k: int, p: int)
    requires
        keys_unique(rk),
        keys_unique(g.node_seq()),
        0 <= p < k <= g.node_seq().len(),
        g.node_seq()[p].1.kind is MasterOutput,
    ensures
        value_of(masters_last(g, rk, top, k), g.node_seq()[p].0) == Some(top),
        keys_unique(masters_last(g, rk, top, k)),
    decreases k,
{
    let x = g.node_seq()[p].0;
    let r = masters_last(g, rk, top, k - 1);
    let e = g.node_seq()[k - 1];
    if k - 1 > p {
        lemma_masters_set(g, rk, top, k - 1, p);
        if e.1.kind is MasterOutput {
            lemma_value_of_after(r, e.0, top, x);
        }
    } else {
        assert forall|q: int| 0 <= q < k - 1 && (#[trigger] g.node_seq()[q]).0 == x
            implies !(g.node_seq()[q].1.kind is MasterOutput) by {
            assert(q != p);
        }
        lemma_masters_keep(g, rk, top, k - 1, x);
        lemma_value_of_after(r, e.0, top, x);
    }
}

proof fn lemma_max_other_ge(g: AudioGraph, rk: Seq<(NodeId, u32)>, k: int, p: int)
    requires
        0 <= p < k <= g.node_seq().len(),
        !(g.node_seq()[p].1.kind is MasterOutput),
    ensures
        value_or_zero(rk, g.node_seq()[p].0) <= max_other(g, rk, k),
    decreases k,
{
    if k - 1 > p {
        lemma_max_other_ge(g, rk, k - 1, p);
    }
}

proof fn lemma_max_other_le(g: AudioGraph, rk: Seq<(NodeId, u32)>, k: int, b: int)
    requires
        values_at_most(rk, b),
        b >= 0,
    ensures
        max_other(g, rk, k) <= b,
    decreases k,
{
    if k > 0 {
        lemma_max_other_le(g, rk, k - 1, b);
        let x = g.node_seq()[k - 1].0;
        if has_key(rk, x) {
            let q = key_index(rk, x);
            assert(rk[q].1 <= b);
        }
    }
}

proof fn lemma_with_zeros_at_most(rk: Seq<(NodeId, u32)>, ns: Seq<(NodeId, GraphNode)>, k: int, b: int)
    requires
        values_at_most(rk, b),
        b >= 0,
    ensures
        values_at_most(with_zeros(rk, ns, k), b),
    decreases k,
{
    if k > 0 {
        lemma_with_zeros_at_most(rk, ns, k - 1, b);
    }
}

/// With a topological order, every edge from a node that is not a master
/// output runs to a higher column.
proof fn lemma_flow(g: AudioGraph, j: int)
    requires
        g.linked(),
        g.node_seq().len() > 0,
        g.node_seq().len() < u32::MAX,
        topo_ids(g) matches Some(o) && is_node_order(g.node_seq(), g.pairs(), o),
        0 <= j < g.edge_seq().len(),
        !(g.node_of(g.edge_seq()[j].1.from_node).kind is MasterOutput),
    ensures
        value_or_zero(layout_ranks_of(g), g.edge_seq()[j].1.from_node)
            < value_or_zero(layout_ranks_of(g), g.edge_seq()[j].1.to_node),
{
    let ns = g.node_seq();
    let n = ns.len() as int;
    let o = layout_order(g);
    let es = g.edge_seq();
    let a = es[j].1.from_node;
    let b = es[j].1.to_node;
    assert(g.pairs()[j] == (a, b));
    assert(runs_forward(o, g.pairs()[j]));
    let (ia, ib) = choose|i: int, k: int| 0 <= i < k < o.len() && #[trigger] o[i] == a && #[trigger] o[k] == b;
    // Ranks along the order.
    lemma_ranks_entry(g, o, ia);
    lemma_ranks_persist(g, o, ia, ib);
    let rkb = ranks(g, o, ib);
    lemma_ranks_at_most(g, o, ib);
    lemma_incoming_ge(es, rkb, b, es.len() as int, j);
    lemma_incoming_at_most(es, rkb, b, es.len() as int, ib - 1);
    lemma_ranks_entry(g, o, ib);
    let r1 = ranks(g, o, o.len() as int);
    lemma_ranks_persist(g, o, ia, o.len() as int);
    lemma_ranks_persist(g, o, ib, o.len() as int);
    lemma_ranks_at_most(g, o, o.len() as int);
    let va = value_or_zero(r1, a);
    let vb = value_or_zero(r1, b);
    assert(va < vb);
    // Zeros for missing nodes leave both values.
    lemma_with_zeros_keeps(r1, ns, n, a);
    lemma_with_zeros_keeps(r1, ns, n, b);
    let r2 = with_zeros(r1, ns, n);
    lemma_with_zeros_at_most(r1, ns, n, o.len() - 1);
    lemma_max_other_le(g, r2, n, o.len() - 1);
    let m = max_other(g, r2, n);
    let top: u32 = if m == u32::MAX { m } else { (m + 1) as u32 };
    // The source is not a master: its value stays.
    let pa = key_index(ns, a);
    lemma_key_index_unique(ns, a, pa);
    assert forall|q: int| 0 <= q < n && (#[trigger] ns[q]).0 == a implies !(ns[q].1.kind is MasterOutput) by {
        lemma_key_index_unique(ns, a, q);
    }
    lemma_masters_keep(g, r2, top, n, a);
    let pb = key_index(ns, b);
    lemma_key_index_unique(ns, b, pb);
    if ns[pb].1.kind is MasterOutput {
        lemma_masters_set(g, r2, top, n, pb);
        lemma_max_other_ge(g, r2, n, pa);
    } else {
        assert forall|q: int| 0 <= q < n && (#[trigger] ns[q]).0 == b implies !(ns[q].1.kind is MasterOutput) by {
            lemma_key_index_unique(ns, b, q);
        }
        lemma_masters_keep(g, r2, top, n, b);
    }
}

/// Every edge from a node other than a master goes to a node of higher rank.
pub open spec fn ranks_flow(g: AudioGraph, rk: Seq<(NodeId, u32)>) -> bool {
    forall|j: int| 0 <= j < g.edge_seq().len()
        && !(g.node_of(g.edge_seq()[j].1.from_node).kind is MasterOutput)
        ==> value_or_zero(rk, (#[trigger] g.edge_seq()[j]).1.from_node)
            < value_or_zero(rk, g.edge_seq()[j].1.to_node)
}

impl AudioGraph {
    /// The highest rank of a node with an edge into `node`, if any has one.
    fn incoming_rank_exec(&self, rank: &IndexMap<NodeId, u32>, node: NodeId) -> (r: Option<u32>)
        ensures
            r == incoming_rank(self.edge_seq(), latency_entries(*rank), node, self.edge_seq().len() as int),
    {
        let m = self.edge_count();
        let mut best: Option<u32> = None;
        let mut j: usize = 0;
        while j < m
            invariant
                j <= m,
                m == self.edge_seq().len(),
                best == incoming_rank(self.edge_seq(), latency_entries(*rank), node, j as int),
            decreases m - j,
        {
            let e = self.edge_at(j).unwrap();
            if e.to_node == node {
                match latency_get(rank, e.from_node) {
                    Some(v) => {
                        best = match best {
                            Some(p) => Some(if v > p { v } else { p }),
                            None => Some(v),
                        };
                    },
                    None => {},
                }
            }
            j = j + 1;
        }
        best
    }

    /// The node ids, in order.
    fn node_ids(&self) -> (v: Vec<NodeId>)
        ensures
            v@ == keys_of(self.node_seq()),
    {
        let n = self.node_count();
        let mut v: Vec<NodeId> = Vec::new();
        let mut i: usize = 0;
        while i < n
            invariant
                i <= n,
                n == self.node_seq().len(),
                v@ == keys_of(self.node_seq()).take(i as int),
            decreases n - i,
        {
            let (k, _) = nodes_get_index(&self.nodes, i).unwrap();
            v.push(*k);
            proof {
                assert(v@ =~= keys_of(self.node_seq()).take(i as int + 1));
            }
            i = i + 1;
        }
        proof {
            assert(keys_of(self.node_seq()).take(n as int) =~= keys_of(self.node_seq()));
        }
        v
    }

    /// The column of every node for the left-to-right layout, over the
    /// edges between nodes (edges to missing nodes are passed over): the
    /// ranks of the graph's normalized copy (see `layout_ranks_of`), which is
    /// the graph itself when it is linked.
    pub fn layout_ranks(&self) -> (r: IndexMap<NodeId, u32>)
        requires
            self.node_seq().len() < u32::MAX,
            self.edge_seq().len() < u32::MAX,
        ensures
            exists|h: AudioGraph| #[trigger] normalized_from(*self, h) && latency_entries(r) == layout_ranks_of(h)
                && (!has_cycle(self.live_pairs()) ==> ranks_flow(h, latency_entries(r))),
            self.linked() ==> latency_entries(r) == layout_ranks_of(*self)
                && (!has_cycle(self.pairs()) ==> ranks_flow(*self, latency_entries(r))),
    {
        if self.is_linked() {
            proof {
                crate::graph::lemma_linked_normalized(*self);
                crate::graph::lemma_linked_live_pairs(*self);
            }
            self.layout_ranks_linked()
        } else {
            let h = self.normalized();
            proof {
                crate::graph::lemma_normalized_shape(*self, h);
            }
            h.layout_ranks_linked()
        }
    }

    /// The column of every node of a linked graph (see `layout_ranks_of`).
    pub(crate) fn layout_ranks_linked(&self) -> (r: IndexMap<NodeId, u32>)
        requires
            self.linked(),
            self.node_seq().len() < u32::MAX,
            self.edge_seq().len() < u32::MAX,
        ensures
            latency_entries(r) == layout_ranks_of(*self),
            !has_cycle(self.pairs()) ==> ranks_flow(*self, latency_entries(r)),
    {
        let mut rank = latency_new();
        let n = self.node_count();
        if n == 0 {
            return rank;
        }
        let order = match self.topological_order_linked() {
            Ok(o) => {
                proof {
                    assert forall|j: int| 0 <= j < self.edge_seq().len()
                        && !(self.node_of(self.edge_seq()[j].1.from_node).kind is MasterOutput)
                        implies value_or_zero(layout_ranks_of(*self), (#[trigger] self.edge_seq()[j]).1.from_node)
                            < value_or_zero(layout_ranks_of(*self), self.edge_seq()[j].1.to_node) by {
                        lemma_flow(*self, j);
                    }
                }
                o
            },
            Err(_) => self.node_ids(),
        };
        proof {
            assert(order@ == layout_order(*self));
            assert(order@.len() == n);
        }
        let mut k: usize = 0;
        while k < order.len()
            invariant
                k <= order.len(),
                order.len() == n,
                n < u32::MAX,
                latency_entries(rank) == ranks(*self, order@, k as int),
            decreases order.len() - k,
        {
            let id = order[k];
            let m = self.incoming_rank_exec(&rank, id);
            proof {
                lemma_ranks_at_most(*self, order@, k as int);
                lemma_incoming_at_most(self.edge_seq(), latency_entries(rank), id, self.edge_seq().len() as int,
                    k as int - 1);
            }
            let r: u32 = match m {
                Some(v) => v + 1,
                None => 0,
            };
            latency_insert(&mut rank, id, r);
            k = k + 1;
        }
        let ghost r1 = latency_entries(rank);
        let mut i: usize = 0;
        while i < n
            invariant
                i <= n,
                n == self.node_seq().len(),
                latency_entries(rank) == with_zeros(r1, self.node_seq(), i as int),
            decreases n - i,
        {
            let (id, _) = nodes_get_index(&self.nodes, i).unwrap();
            if latency_get(&rank, *id).is_none() {
                latency_insert(&mut rank, *id, 0);
            }
            i = i + 1;
        }
        let ghost r2 = latency_entries(rank);
        let mut top: u32 = 0;
        let mut i: usize = 0;
        while i < n
            invariant
                i <= n,
                n == self.node_seq().len(),
                latency_entries(rank) == r2,
                top == max_other(*self, r2, i as int),
            decreases n - i,
        {
            let (id, node) = nodes_get_index(&self.nodes, i).unwrap();
            if !matches!(node.kind, NodeKind::MasterOutput) {
                let v = match latency_get(&rank, *id) {
                    Some(v) => v,
                    None => 0,
                };
                if v > top {
                    top = v;
                }
            }
            i = i + 1;
        }
        let top: u32 = if top == u32::MAX { top } else { top + 1 };
        let mut i: usize = 0;
        while i < n
            invariant
                i <= n,
                n == self.node_seq().len(),
                latency_entries(rank) == masters_last(*self, r2, top, i as int),
            decreases n - i,
        {
            let (id, node) = nodes_get_index(&self.nodes, i).unwrap();
            if matches!(node.kind, NodeKind::MasterOutput) {
                latency_insert(&mut rank, *id, top);
            }
            i = i + 1;
        }
        rank
    }
}

impl AudioGraph {
    /// Whether the graph is linked (see `AudioGraph::linked`): ids unique
    /// and matching their entries, every edge between two of its nodes. A
    /// graph read from a file is checked with this before it is laid out or
    /// compiled.
    pub fn is_linked(&self) -> (r: bool)
        ensures
            r == self.linked(),
    {
        let ghost ns = self.node_seq();
        let ghost es = self.edge_seq();
        let n = nodes_len(&self.nodes);
        let m = edges_len(&self.edges);
        let mut i: usize = 0;
        while i < n
            invariant
                i <= n,
                n == ns.len(),
                ns == self.node_seq(),
                forall|a: int| 0 <= a < i ==> (#[trigger] ns[a]).1.id == ns[a].0,
                forall|a: int, b: int| 0 <= a < i && 0 <= b < n && a != b ==> ns[a].0 != ns[b].0,
            decreases n - i,
        {
            let (k, node) = nodes_get_index(&self.nodes, i).unwrap();
            if node.id != *k {
                return false;
            }
            let mut j: usize = 0;
            while j < n
                invariant
                    j <= n,
                    i < n,
                    n == ns.len(),
                    ns == self.node_seq(),
                    *k == ns[i as int].0,
                    forall|b: int| 0 <= b < j && b != i ==> ns[i as int].0 != ns[b].0,
                decreases n - j,
            {
                let (k2, _) = nodes_get_index(&self.nodes, j).unwrap();
                if j != i && *k2 == *k {
                    return false;
                }
                j = j + 1;
            }
            i = i + 1;
        }
        let mut i: usize = 0;
        while i < m
            invariant
                i <= m,
                m == es.len(),
                es == self.edge_seq(),
                ns == self.node_seq(),
                forall|a: int| 0 <= a < i ==> (#[trigger] es[a]).1.id == es[a].0 && has_key(ns, es[a].1.from_node)
                    && has_key(ns, es[a].1.to_node),
                forall|a: int, b: int| 0 <= a < i && 0 <= b < m && a != b ==> es[a].0 != es[b].0,
            decreases m - i,
        {
            let (k, e) = edges_get_index(&self.edges, i).unwrap();
            if e.id != *k || nodes_get(&self.nodes, e.from_node).is_none() || nodes_get(&self.nodes, e.to_node).is_none() {
                return false;
            }
            let mut j: usize = 0;
            while j < m
                invariant
                    j <= m,
                    i < m,
                    m == es.len(),
                    es == self.edge_seq(),
                    *k == es[i as int].0,
                    forall|b: int| 0 <= b < j && b != i ==> es[i as int].0 != es[b].0,
                decreases m - j,
            {
                let (k2, _) = edges_get_index(&self.edges, j).unwrap();
                if j != i && *k2 == *k {
                    return false;
                }
                j = j + 1;
            }
            i = i + 1;
        }
        true
    }
}

} // verus!
