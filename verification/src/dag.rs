//! Directed graphs as edge lists: walks, cycles and topological orders, and
//! the calls into `petgraph` that decide them.
use vstd::prelude::*;
use petgraph::graph::{DiGraph, NodeIndex};

verus! {

/// Consecutive edges `p[i]`, `p[i + 1]` of a walk meet at a node.
pub open spec fn linked<T>(es: Seq<(T, T)>, p: Seq<int>, i: int) -> bool {
    es[p[i]].1 == es[p[i + 1]].0
}

/// `p` lists edge positions forming a non-empty walk.
pub open spec fn is_walk<T>(es: Seq<(T, T)>, p: Seq<int>) -> bool {
    &&& p.len() > 0
    &&& forall|i: int| 0 <= i < p.len() ==> 0 <= #[trigger] p[i] < es.len()
    &&& forall|i: int| 0 <= i < p.len() - 1 ==> #[trigger] linked(es, p, i)
}

/// A walk that ends where it started.
pub open spec fn is_cycle_walk<T>(es: Seq<(T, T)>, p: Seq<int>) -> bool {
    is_walk(es, p) && es[p[p.len() - 1]].1 == es[p[0]].0
}

/// The edge list contains a directed cycle (a self loop counts).
pub open spec fn has_cycle<T>(es: Seq<(T, T)>) -> bool {
    exists|p: Seq<int>| #[trigger] is_cycle_walk(es, p)
}

/// Every pair of `small` also occurs in `big`.
pub open spec fn pairs_within<T>(small: Seq<(T, T)>, big: Seq<(T, T)>) -> bool {
    forall|i: int| 0 <= i < small.len() ==> big.contains(#[trigger] small[i])
}

/// Dropping or repeating edges cannot create a cycle: a cycle over `small`
/// is a cycle over `big`.
pub proof fn lemma_cycle_within(small: Seq<(u128, u128)>, big: Seq<(u128, u128)>)
    requires
        pairs_within(small, big),
        has_cycle(small),
    ensures
        has_cycle(big),
{
    let p = choose|p: Seq<int>| #[trigger] is_cycle_walk(small, p);
    let q = Seq::new(
        p.len(),
        |i: int| choose|j: int| 0 <= j < big.len() && #[trigger] big[j] == small[p[i]],
    );
    assert forall|i: int| 0 <= i < q.len() implies 0 <= #[trigger] q[i] < big.len() && big[q[i]]
        == small[p[i]] by {
        assert(0 <= p[i] < small.len());
        assert(big.contains(small[p[i]]));
        let j = choose|j: int| 0 <= j < big.len() && #[trigger] big[j] == small[p[i]];
        assert(0 <= j < big.len() && big[j] == small[p[i]]);
    }
    assert forall|i: int| 0 <= i < q.len() - 1 implies #[trigger] linked(big, q, i) by {
        assert(linked(small, p, i));
        assert(big[q[i]] == small[p[i]]);
        assert(big[q[i + 1]] == small[p[i + 1]]);
    }
    assert(big[q[0]] == small[p[0]]);
    assert(big[q[q.len() - 1]] == small[p[p.len() - 1]]);
    assert(is_cycle_walk(big, q));
}

/// Some walk over `es` starts at `x` and ends at `y`.
pub open spec fn leads_to<T>(es: Seq<(T, T)>, x: T, y: T) -> bool {
    exists|p: Seq<int>| #[trigger] is_walk(es, p) && es[p[0]].0 == x && es[p[p.len() - 1]].1 == y
}

/// A walk over `es` plus one edge that never takes the added edge is a walk
/// over `es`, with the same ends.
proof fn lemma_walk_without_last<T>(es: Seq<(T, T)>, e: (T, T), w: Seq<int>)
    requires
        is_walk(es.push(e), w),
        forall|i: int| 0 <= i < w.len() ==> #[trigger] w[i] != es.len(),
    ensures
        is_walk(es, w),
        forall|i: int| 0 <= i < w.len() ==> #[trigger] es[w[i]] == es.push(e)[w[i]],
{
    let es2 = es.push(e);
    assert forall|i: int| 0 <= i < w.len() implies 0 <= #[trigger] w[i] < es.len() by {
        assert(0 <= w[i] < es2.len());
    }
    assert forall|i: int| 0 <= i < w.len() - 1 implies #[trigger] linked(es, w, i) by {
        assert(linked(es2, w, i));
        assert(0 <= w[i] < es.len() && 0 <= w[i + 1] < es.len());
        assert(es[w[i]] == es2[w[i]] && es[w[i + 1]] == es2[w[i + 1]]);
    }
}

/// Adding the edge `a -> b` (with `a != b`) to an acyclic edge list makes a
/// cycle exactly when `b` already leads to `a`.
pub proof fn law_new_edge_cycle<T>(es: Seq<(T, T)>, a: T, b: T)
    requires
        !has_cycle(es),
        a != b,
    ensures
        has_cycle(es.push((a, b))) <==> leads_to(es, b, a),
{
    let es2 = es.push((a, b));
    let n = es.len() as int;
    if leads_to(es, b, a) {
        let p = choose|p: Seq<int>| #[trigger] is_walk(es, p) && es[p[0]].0 == b && es[p[p.len() - 1]].1 == a;
        let q = p.push(n);
        assert forall|i: int| 0 <= i < q.len() implies 0 <= #[trigger] q[i] < es2.len() by {
            if i < p.len() {
                assert(q[i] == p[i] && 0 <= p[i] < es.len());
            }
        }
        assert forall|i: int| 0 <= i < q.len() - 1 implies #[trigger] linked(es2, q, i) by {
            if i < p.len() - 1 {
                assert(linked(es, p, i));
                assert(q[i] == p[i] && q[i + 1] == p[i + 1]);
                assert(es2[p[i]] == es[p[i]] && es2[p[i + 1]] == es[p[i + 1]]);
            } else {
                assert(q[i] == p[p.len() - 1] && q[i + 1] == n);
                assert(es2[p[p.len() - 1]] == es[p[p.len() - 1]]);
            }
        }
        assert(es2[q[0]] == es[p[0]]);
        assert(is_cycle_walk(es2, q));
    }
    if has_cycle(es2) {
        let q = choose|q: Seq<int>| #[trigger] is_cycle_walk(es2, q);
        let l = q.len() as int;
        if forall|i: int| 0 <= i < q.len() ==> #[trigger] q[i] != n {
            lemma_walk_without_last(es, (a, b), q);
            assert(es[q[0]] == es2[q[0]] && es[q[l - 1]] == es2[q[l - 1]]);
            assert(is_cycle_walk(es, q));
        } else {
            let m = choose|m: int| 0 <= m < q.len() && #[trigger] q[m] == n;
            if l == 1 {
                assert(es2[q[0]] == (a, b));
            } else {
                let r = q.subrange(m + 1, l) + q.subrange(0, m);
                let c = l - 1 - m;
                assert(r.len() == l - 1);
                assert forall|i: int| 0 <= i < r.len() implies #[trigger] r[i] == (if i < c { q[m + 1 + i] } else { q[i - c] }) by {}
                assert forall|i: int| 0 <= i < r.len() implies 0 <= #[trigger] r[i] < es2.len() by {
                    if i < c { assert(r[i] == q[m + 1 + i]); } else { assert(r[i] == q[i - c]); }
                }
                assert forall|i: int| 0 <= i < r.len() - 1 implies #[trigger] linked(es2, r, i) by {
                    if i + 1 < c {
                        assert(linked(es2, q, m + 1 + i));
                    } else if i + 1 == c {
                        assert(r[i] == q[l - 1] && r[i + 1] == q[0]);
                    } else {
                        assert(linked(es2, q, i - c));
                    }
                }
                assert(es2[r[0]].0 == b) by {
                    if c > 0 {
                        assert(linked(es2, q, m));
                    } else {
                        assert(r[0] == q[0]);
                    }
                }
                assert(es2[r[r.len() - 1]].1 == a) by {
                    if m > 0 {
                        assert(r[r.len() - 1] == q[m - 1]);
                        assert(linked(es2, q, m - 1));
                    } else {
                        assert(r[r.len() - 1] == q[l - 1]);
                    }
                }
                if forall|i: int| 0 <= i < r.len() ==> #[trigger] r[i] != n {
                    lemma_walk_without_last(es, (a, b), r);
                    assert(es[r[0]] == es2[r[0]] && es[r[r.len() - 1]] == es2[r[r.len() - 1]]);
                    assert(leads_to(es, b, a));
                } else {
                    let j0 = choose|j: int| 0 <= j < r.len() && #[trigger] r[j] == n;
                    let j = first_index(r, n, j0);
                    if j == 0 {
                        assert(es2[r[0]] == (a, b));
                    } else {
                        let w = r.take(j);
                        assert forall|i: int| 0 <= i < w.len() - 1 implies #[trigger] linked(es2, w, i) by {
                            assert(linked(es2, r, i));
                        }
                        assert forall|i: int| 0 <= i < w.len() implies 0 <= #[trigger] w[i] < es2.len() && w[i] != n by {
                            assert(w[i] == r[i]);
                        }
                        assert(linked(es2, r, j - 1));
                        assert(es2[w[w.len() - 1]].1 == a);
                        lemma_walk_without_last(es, (a, b), w);
                        assert(es[w[0]] == es2[w[0]] && es[w[w.len() - 1]] == es2[w[w.len() - 1]]);
                        assert(leads_to(es, b, a));
                    }
                }
            }
        }
    }
}

/// The first position at which `x` occurs in `s`, given one.
proof fn first_index(s: Seq<int>, x: int, j0: int) -> (j: int)
    requires
        0 <= j0 < s.len(),
        s[j0] == x,
    ensures
        0 <= j <= j0,
        s[j] == x,
        forall|i: int| 0 <= i < j ==> #[trigger] s[i] != x,
    decreases j0,
{
    if exists|i: int| 0 <= i < j0 && #[trigger] s[i] == x {
        let i = choose|i: int| 0 <= i < j0 && #[trigger] s[i] == x;
        first_index(s, x, i)
    } else {
        j0
    }
}

/// Two edge lists of the same length whose endpoints correspond through a
/// one-to-one renaming have the same cycles.
pub open spec fn renamed<A, B>(a: Seq<(A, A)>, b: Seq<(B, B)>) -> bool {
    &&& a.len() == b.len()
    &&& forall|i: int, j: int|
        0 <= i < a.len() && 0 <= j < a.len() ==> (#[trigger] a[i].1 == #[trigger] a[j].0 <==> b[i].1
            == b[j].0)
}

pub proof fn lemma_renamed_cycle<A, B>(a: Seq<(A, A)>, b: Seq<(B, B)>)
    requires
        renamed(a, b),
    ensures
        has_cycle(a) == has_cycle(b),
{
    if has_cycle(a) {
        let p = choose|p: Seq<int>| #[trigger] is_cycle_walk(a, p);
        assert forall|i: int| 0 <= i < p.len() - 1 implies #[trigger] linked(b, p, i) by {
            assert(linked(a, p, i));
            assert(0 <= p[i] < a.len() && 0 <= p[i + 1] < a.len());
            assert(a[p[i]].1 == a[p[i + 1]].0);
        }
        assert(0 <= p[0] < a.len() && 0 <= p[p.len() - 1] < a.len());
        assert(a[p[p.len() - 1]].1 == a[p[0]].0);
        assert(is_cycle_walk(b, p));
    }
    if has_cycle(b) {
        let p = choose|p: Seq<int>| #[trigger] is_cycle_walk(b, p);
        assert forall|i: int| 0 <= i < p.len() - 1 implies #[trigger] linked(a, p, i) by {
            assert(linked(b, p, i));
            assert(0 <= p[i] < a.len() && 0 <= p[i + 1] < a.len());
            assert(a[p[i]].1 == a[p[i + 1]].0);
        }
        assert(0 <= p[0] < a.len() && 0 <= p[p.len() - 1] < a.len());
        assert(a[p[p.len() - 1]].1 == a[p[0]].0);
        assert(is_cycle_walk(a, p));
    }
}

/// `order` lists each of the nodes `0..n` once, and every edge goes from an
/// earlier node to a later one.
pub open spec fn is_topo_order(n: nat, es: Seq<(usize, usize)>, order: Seq<usize>) -> bool {
    &&& order.len() == n
    &&& forall|i: int| 0 <= i < n ==> #[trigger] order[i] < n
    &&& forall|i: int, j: int| 0 <= i < n && 0 <= j < n && i != j ==> order[i] != order[j]
    &&& forall|k: int|
        0 <= k < es.len() ==> exists|i: int, j: int|
            0 <= i < j < n && #[trigger] order[i] == (#[trigger] es[k]).0 && #[trigger] order[j]
                == es[k].1
}

/// The node order `petgraph::algo::toposort` returns for the graph with
/// nodes `0..n` and the edges `es`, added in list order (`None` on a cycle).
pub uninterp spec fn toposort_of(n: nat, es: Seq<(usize, usize)>) -> Option<Seq<usize>>;

/// Edge endpoints are node indices below `n`.
pub open spec fn edges_in_range(n: nat, es: Seq<(usize, usize)>) -> bool {
    forall|k: int| 0 <= k < es.len() ==> (#[trigger] es[k]).0 < n && es[k].1 < n
}

#[verifier::external_type_specification]
#[verifier::external_body]
pub struct ExDirected(petgraph::Directed);

#[verifier::external_type_specification]
#[verifier::external_body]
#[verifier::reject_recursive_types(N)]
#[verifier::reject_recursive_types(E)]
#[verifier::reject_recursive_types(Ty)]
#[verifier::reject_recursive_types(Ix)]
pub struct ExGraph<N, E, Ty, Ix>(petgraph::graph::Graph<N, E, Ty, Ix>);

/// Number of nodes of a `petgraph` graph (its nodes are `0..count`).
pub uninterp spec fn digraph_node_count(g: DiGraph<(), ()>) -> nat;

/// Edges of a `petgraph` graph as (source, target) node indices, in the
/// order they were added.
pub uninterp spec fn digraph_edges(g: DiGraph<(), ()>) -> Seq<(usize, usize)>;

/// `Graph::with_capacity`: a graph with no nodes and no edges (the
/// capacities only reserve room).
#[verifier::external_body]
fn digraph_with_capacity(nodes: usize, edges: usize) -> (g: DiGraph<(), ()>)
    ensures
        digraph_node_count(g) == 0,
        digraph_edges(g) == Seq::<(usize, usize)>::empty(),
{
    DiGraph::with_capacity(nodes, edges)
}

/// `Graph::add_node`: one more node, whose index is the old node count. It
/// panics when that index would be `u32::MAX`, which `requires` rules out.
#[verifier::external_body]
fn digraph_add_node(g: &mut DiGraph<(), ()>) -> (i: usize)
    requires
        digraph_node_count(*old(g)) < u32::MAX,
    ensures
        digraph_node_count(*final(g)) == digraph_node_count(*old(g)) + 1,
        digraph_edges(*final(g)) == digraph_edges(*old(g)),
        i == digraph_node_count(*old(g)),
{
    g.add_node(()).index()
}

/// `Graph::add_edge` from node `a` to node `b`: the edge goes last. It
/// panics on a node that does not exist and when the edge index would be
/// `u32::MAX`, which `requires` rules out.
#[verifier::external_body]
fn digraph_add_edge(g: &mut DiGraph<(), ()>, a: usize, b: usize)
    requires
        a < digraph_node_count(*old(g)),
        b < digraph_node_count(*old(g)),
        digraph_edges(*old(g)).len() < u32::MAX,
    ensures
        digraph_node_count(*final(g)) == digraph_node_count(*old(g)),
        digraph_edges(*final(g)) == digraph_edges(*old(g)).push((a, b)),
{
    g.add_edge(NodeIndex::new(a), NodeIndex::new(b), ());
}

/// `petgraph::algo::is_cyclic_directed`. Its documentation: "Return `true`
/// if the input directed graph contains a cycle."
#[verifier::external_body]
fn digraph_is_cyclic(g: &DiGraph<(), ()>) -> (r: bool)
    ensures
        r == has_cycle(digraph_edges(*g)),
{
    petgraph::algo::is_cyclic_directed(g)
}

/// `petgraph::algo::toposort`, node indices as `usize`. Its documentation:
/// "If the graph was acyclic, return a vector of nodes in topological order:
/// each node is ordered before its successors. Otherwise, it will return a
/// `Cycle` error. Self loops are also cycles." Which of the valid orders it
/// returns is named, not stated; the graph's node count and edge list decide
/// it.
#[verifier::external_body]
fn digraph_toposort(g: &DiGraph<(), ()>) -> (r: Option<Vec<usize>>)
    requires
        edges_in_range(digraph_node_count(*g), digraph_edges(*g)),
    ensures
        r.deep_view() == toposort_of(digraph_node_count(*g), digraph_edges(*g)),
        r is Some <==> !has_cycle(digraph_edges(*g)),
        r matches Some(o) ==> is_topo_order(digraph_node_count(*g), digraph_edges(*g), o@),
{
    petgraph::algo::toposort(g, None).ok().map(|o| o.iter().map(|i| i.index()).collect())
}

/// The `petgraph` graph with nodes `0..n` and the edges `es`, added in order.
fn build_digraph(n: usize, es: &Vec<(usize, usize)>) -> (g: DiGraph<(), ()>)
    requires
        n < u32::MAX,
        es.len() < u32::MAX,
        edges_in_range(n as nat, es@),
    ensures
        digraph_node_count(g) == n,
        digraph_edges(g) == es@,
{
    let mut g = digraph_with_capacity(n, es.len());
    let mut i: usize = 0;
    while i < n
        invariant
            i <= n,
            n < u32::MAX,
            digraph_node_count(g) == i,
            digraph_edges(g) == Seq::<(usize, usize)>::empty(),
        decreases n - i,
    {
        digraph_add_node(&mut g);
        i = i + 1;
    }
    let mut k: usize = 0;
    while k < es.len()
        invariant
            k <= es.len(),
            es.len() < u32::MAX,
            edges_in_range(n as nat, es@),
            digraph_node_count(g) == n,
            digraph_edges(g) == es@.take(k as int),
        decreases es.len() - k,
    {
        let (a, b) = es[k];
        digraph_add_edge(&mut g, a, b);
        proof {
            assert(es@.take(k + 1) =~= es@.take(k as int).push(es@[k as int]));
        }
        k = k + 1;
    }
    proof {
        assert(es@.take(es.len() as int) =~= es@);
    }
    g
}

/// Whether the graph with nodes `0..n` and the edges `es` has a cycle,
/// as `petgraph` decides it.
pub(crate) fn petgraph_is_cyclic(n: usize, es: &Vec<(usize, usize)>) -> (r: bool)
    requires
        n < u32::MAX,
        es.len() < u32::MAX,
        edges_in_range(n as nat, es@),
    ensures
        r == has_cycle(es@),
{
    let g = build_digraph(n, es);
    digraph_is_cyclic(&g)
}

/// The topological order `petgraph` gives the graph with nodes `0..n` and
/// the edges `es`; `None` when it has a cycle.
pub(crate) fn petgraph_toposort(n: usize, es: &Vec<(usize, usize)>) -> (r: Option<Vec<usize>>)
    requires
        n < u32::MAX,
        es.len() < u32::MAX,
        edges_in_range(n as nat, es@),
    ensures
        r.deep_view() == toposort_of(n as nat, es@),
        r is Some <==> !has_cycle(es@),
        r matches Some(o) ==> is_topo_order(n as nat, es@, o@),
{
    let g = build_digraph(n, es);
    digraph_toposort(&g)
}

} // verus!
