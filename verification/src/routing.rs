//! MIDI routing in a compiled plan: which tracks' MIDI clips reach an
//! instrument, directly or through MIDI mixers and splitters.
use vstd::prelude::*;
use std::collections::HashSet;
use crate::ids::{NodeId, TrackId};
use crate::keyed::{has_key, value_of};
use crate::graph::{GraphEdge, GraphNode, NodeKind, PortType, find_port_in, lemma_find_port_in, node_entries,
    nodes_get};
use crate::plan::CompiledPlan;
use crate::clips::ScheduledMidiEvent;

verus! {

broadcast use vstd::std_specs::hash::group_hash_axioms;

/// Edge `e` carries MIDI: its source node is in the plan and the source port
/// (the first port of that node with the edge's port id) is a MIDI port.
pub open spec fn midi_link(ns: Seq<(NodeId, GraphNode)>, e: GraphEdge) -> bool {
    &&& has_key(ns, e.from_node)
    &&& match find_port_in(value_of(ns, e.from_node)->0.all_ports(), e.from_port) {
        Some(p) => p.port_type == PortType::Midi,
        None => false,
    }
}

/// The kind of node `id` of the plan.
pub open spec fn kind_of(ns: Seq<(NodeId, GraphNode)>, id: NodeId) -> NodeKind {
    value_of(ns, id)->0.kind
}

/// MIDI mixers and splitters pass MIDI through.
pub open spec fn is_router(k: NodeKind) -> bool {
    k is MidiMixer || k is MidiSplitter
}

/// Some MIDI edge runs from `a` to `b`.
pub open spec fn midi_edge(ns: Seq<(NodeId, GraphNode)>, es: Seq<GraphEdge>, a: NodeId, b: NodeId) -> bool {
    exists|j: int| 0 <= j < es.len() && (#[trigger] es[j]).from_node == a && es[j].to_node == b && midi_link(ns, es[j])
}

/// `path` runs along MIDI edges to `target`, every node before `target`
/// being a router.
pub open spec fn routes_to(ns: Seq<(NodeId, GraphNode)>, es: Seq<GraphEdge>, target: NodeId, path: Seq<NodeId>) -> bool {
    &&& path.len() >= 1
    &&& path.last() == target
    &&& forall|i: int| 0 <= i < path.len() - 1 ==> #[trigger] midi_edge(ns, es, path[i], path[i + 1])
        && is_router(kind_of(ns, path[i]))
}

/// Node `r` passes MIDI on to `target` (`target` itself included).
pub open spec fn reaches(ns: Seq<(NodeId, GraphNode)>, es: Seq<GraphEdge>, target: NodeId, r: NodeId) -> bool {
    exists|path: Seq<NodeId>| #[trigger] routes_to(ns, es, target, path) && path[0] == r
}

/// The MIDI clip source of track `t` sends MIDI to `target`: it has a MIDI
/// edge into a node that reaches `target`.
pub open spec fn feeds_instrument(ns: Seq<(NodeId, GraphNode)>, es: Seq<GraphEdge>, target: NodeId, t: TrackId) -> bool {
    exists|src: NodeId, r: NodeId| #![trigger midi_edge(ns, es, src, r)]
        midi_edge(ns, es, src, r) && reaches(ns, es, target, r)
        && kind_of(ns, src) == (NodeKind::MidiClipSource { track_id: t })
}

proof fn lemma_target_reaches(ns: Seq<(NodeId, GraphNode)>, es: Seq<GraphEdge>, target: NodeId)
    ensures
        reaches(ns, es, target, target),
{
    assert(routes_to(ns, es, target, seq![target]));
}

/// A router with a MIDI edge into a node that reaches `target` reaches it.
proof fn lemma_reaches_back(ns: Seq<(NodeId, GraphNode)>, es: Seq<GraphEdge>, target: NodeId, a: NodeId, b: NodeId)
    requires
        midi_edge(ns, es, a, b),
        is_router(kind_of(ns, a)),
        reaches(ns, es, target, b),
    ensures
        reaches(ns, es, target, a),
{
    let p = choose|p: Seq<NodeId>| #[trigger] routes_to(ns, es, target, p) && p[0] == b;
    let q = seq![a] + p;
    assert forall|i: int| 0 <= i < q.len() - 1 implies #[trigger] midi_edge(ns, es, q[i], q[i + 1])
        && is_router(kind_of(ns, q[i])) by {
        if i > 0 {
            assert(q[i] == p[i - 1] && q[i + 1] == p[i]);
            assert(midi_edge(ns, es, p[i - 1], p[(i - 1) + 1]));
        }
    }
    assert(q.last() == p.last());
    assert(routes_to(ns, es, target, q));
}

/// Along a path into `target`, every node is in a set that holds `target`
/// and the router sources of the MIDI edges into each of its nodes.
proof fn lemma_path_visited(ns: Seq<(NodeId, GraphNode)>, es: Seq<GraphEdge>, target: NodeId, s: Set<NodeId>,
    p: Seq<NodeId>, i: int)
    requires
        s.contains(target),
        forall|x: NodeId, j: int| #![trigger s.contains(x), es[j]]
            s.contains(x) && 0 <= j < es.len() && es[j].to_node == x && midi_link(ns, es[j])
            && is_router(kind_of(ns, es[j].from_node)) ==> s.contains(es[j].from_node),
        routes_to(ns, es, target, p),
        0 <= i < p.len(),
    ensures
        s.contains(p[i]),
    decreases p.len() - i,
{
    if i < p.len() - 1 {
        lemma_path_visited(ns, es, target, s, p, i + 1);
        assert(midi_edge(ns, es, p[i], p[i + 1]));
        let j = choose|j: int| 0 <= j < es.len() && (#[trigger] es[j]).from_node == p[i] && es[j].to_node == p[i + 1]
            && midi_link(ns, es[j]);
        assert(s.contains(es[j].from_node));
    }
}

/// Whether edge `e` carries MIDI, and the kind of its source node.
fn link_kind<'a>(plan: &'a CompiledPlan, e: GraphEdge) -> (r: Option<&'a NodeKind>)
    ensures
        r is Some <==> midi_link(node_entries(plan.nodes), e),
        r matches Some(k) ==> *k == kind_of(node_entries(plan.nodes), e.from_node),
{
    let ghost ns = node_entries(plan.nodes);
    let from = match nodes_get(&plan.nodes, e.from_node) {
        Some(n) => n,
        None => return None,
    };
    let ghost all = from.all_ports();
    match from.find_port(e.from_port) {
        Some(p) => {
            proof {
                let i = choose|i: int| 0 <= i < all.len() && all[i] == *p && p.id == e.from_port
                    && forall|j: int| 0 <= j < i ==> (#[trigger] all[j]).id != e.from_port;
                lemma_find_port_in(all, e.from_port, i);
            }
            if p.port_type == PortType::Midi {
                Some(&from.kind)
            } else {
                None
            }
        },
        None => {
            proof {
                lemma_find_port_in(all, e.from_port, all.len() as int);
            }
            None
        },
    }
}

/// The tracks whose MIDI clip sources send MIDI to `node_id`, directly or
/// through MIDI mixers and splitters.
pub fn collect_midi_source_tracks(plan: &CompiledPlan, node_id: NodeId) -> (tracks: HashSet<TrackId>)
    ensures
        forall|t: TrackId| #[trigger] tracks@.contains(t)
            <==> feeds_instrument(node_entries(plan.nodes), plan.edges@, node_id, t),
{
    let ghost ns = node_entries(plan.nodes);
    let ghost es = plan.edges@;
    let ghost keys = ns.map_values(|kv: (NodeId, GraphNode)| kv.0).to_set().insert(node_id);
    proof {
        lemma_target_reaches(ns, es, node_id);
        vstd::seq_lib::seq_to_set_is_finite(ns.map_values(|kv: (NodeId, GraphNode)| kv.0));
    }
    let mut tracks: HashSet<TrackId> = HashSet::new();
    let mut visited: HashSet<NodeId> = HashSet::new();
    let mut pending: Vec<NodeId> = Vec::new();
    pending.push(node_id);
    proof {
        assert(pending@[0] == node_id);
        assert(keys.contains(node_id));
    }
    let m = plan.edges.len();
    while pending.len() > 0
        invariant
            ns == node_entries(plan.nodes),
            es == plan.edges@,
            m == es.len(),
            keys == ns.map_values(|kv: (NodeId, GraphNode)| kv.0).to_set().insert(node_id),
            keys.finite(),
            visited@.subset_of(keys),
            visited@.contains(node_id) || pending@.contains(node_id),
            forall|x: NodeId| #[trigger] visited@.contains(x) ==> reaches(ns, es, node_id, x),
            forall|k: int| 0 <= k < pending@.len() ==> reaches(ns, es, node_id, #[trigger] pending@[k])
                && keys.contains(pending@[k]),
            forall|t: TrackId| #[trigger] tracks@.contains(t) ==> feeds_instrument(ns, es, node_id, t),
            forall|x: NodeId, j: int| #![trigger visited@.contains(x), es[j]]
                visited@.contains(x) && 0 <= j < es.len() && es[j].to_node == x && midi_link(ns, es[j])
                ==> (is_router(kind_of(ns, es[j].from_node)) ==> visited@.contains(es[j].from_node)
                    || pending@.contains(es[j].from_node))
                && (kind_of(ns, es[j].from_node) matches NodeKind::MidiClipSource { track_id }
                    ==> tracks@.contains(track_id)),
        decreases keys.len() - visited@.len(), pending@.len(),
    {
        proof {
            vstd::set_lib::lemma_len_subset(visited@, keys);
        }
        let ghost p0 = pending@;
        let ghost v0 = visited@;
        let ghost t0 = tracks@;
        let x = pending.pop().unwrap();
        let ghost before = pending@;
        proof {
            assert(before =~= p0.drop_last());
            assert(p0[p0.len() - 1] == x);
        }
        let fresh = !visited.contains(&x);
        if fresh {
            visited.insert(x);
            let mut j: usize = 0;
            while j < m
                invariant
                    ns == node_entries(plan.nodes),
                    es == plan.edges@,
                    m == es.len(),
                    j <= m,
                    keys == ns.map_values(|kv: (NodeId, GraphNode)| kv.0).to_set().insert(node_id),
                    reaches(ns, es, node_id, x),
                    pending@.len() >= before.len(),
                    pending@.take(before.len() as int) == before,
                    t0.subset_of(tracks@),
                    forall|k: int| 0 <= k < pending@.len() ==> reaches(ns, es, node_id, #[trigger] pending@[k])
                        && keys.contains(pending@[k]),
                    forall|t: TrackId| #[trigger] tracks@.contains(t) ==> feeds_instrument(ns, es, node_id, t),
                    forall|jj: int| 0 <= jj < j && (#[trigger] es[jj]).to_node == x && midi_link(ns, es[jj])
                        ==> (is_router(kind_of(ns, es[jj].from_node)) ==> pending@.contains(es[jj].from_node))
                        && (kind_of(ns, es[jj].from_node) matches NodeKind::MidiClipSource { track_id }
                            ==> tracks@.contains(track_id)),
                decreases m - j,
            {
                let e = plan.edges[j];
                let ghost pb = pending@;
                let ghost tb = tracks@;
                if e.to_node == x {
                    match link_kind(plan, e) {
                        Some(NodeKind::MidiClipSource { track_id }) => {
                            proof {
                                assert(midi_edge(ns, es, e.from_node, x));
                                assert(feeds_instrument(ns, es, node_id, *track_id));
                            }
                            tracks.insert(*track_id);
                        },
                        Some(NodeKind::MidiMixer) | Some(NodeKind::MidiSplitter) => {
                            proof {
                                assert(midi_edge(ns, es, e.from_node, x));
                                lemma_reaches_back(ns, es, node_id, e.from_node, x);
                                assert(has_key(ns, e.from_node));
                                let w = choose|w: int| 0 <= w < ns.len() && #[trigger] ns[w].0 == e.from_node;
                                assert(ns.map_values(|kv: (NodeId, GraphNode)| kv.0)[w] == e.from_node);
                            }
                            pending.push(e.from_node);
                        },
                        _ => {},
                    }
                }
                proof {
                    assert(pending@.take(before.len() as int) =~= pb.take(before.len() as int)) by {
                        if pending@.len() > pb.len() {
                            assert(pending@ =~= pb.push(e.from_node));
                        }
                    }
                    assert forall|jj: int| 0 <= jj < j + 1 && (#[trigger] es[jj]).to_node == x && midi_link(ns, es[jj])
                        implies (is_router(kind_of(ns, es[jj].from_node)) ==> pending@.contains(es[jj].from_node))
                        && (kind_of(ns, es[jj].from_node) matches NodeKind::MidiClipSource { track_id }
                            ==> tracks@.contains(track_id)) by {
                        if jj < j {
                            if is_router(kind_of(ns, es[jj].from_node)) {
                                let w = choose|w: int| 0 <= w < pb.len() && pb[w] == es[jj].from_node;
                                if pending@.len() > pb.len() {
                                    assert(pending@ =~= pb.push(e.from_node));
                                }
                                assert(pending@[w] == pb[w]);
                            }
                        } else {
                            if is_router(kind_of(ns, es[jj].from_node)) {
                                assert(pending@ =~= pb.push(e.from_node));
                                assert(pending@[pb.len() as int] == e.from_node);
                            }
                        }
                    }
                    assert forall|k: int| 0 <= k < pending@.len() implies reaches(ns, es, node_id, #[trigger] pending@[k])
                        && keys.contains(pending@[k]) by {
                        if pending@.len() > pb.len() {
                            assert(pending@ =~= pb.push(e.from_node));
                            if k < pb.len() {
                                assert(pending@[k] == pb[k]);
                            }
                        } else {
                            assert(pending@ =~= pb);
                        }
                    }
                }
                j = j + 1;
            }
        }
        proof {
            assert(pending@.len() >= before.len() && pending@.take(before.len() as int) == before);
            assert(visited@ == v0.insert(x));
            assert forall|y: NodeId| p0.contains(y) implies visited@.contains(y) || pending@.contains(y) by {
                let w = choose|w: int| 0 <= w < p0.len() && p0[w] == y;
                if w < p0.len() - 1 {
                    assert(before[w] == y);
                    assert(pending@.take(before.len() as int)[w] == y);
                    assert(pending@[w] == y);
                }
            }
            assert(visited@.contains(node_id) || pending@.contains(node_id)) by {
                if !v0.contains(node_id) {
                    assert(p0.contains(node_id));
                }
            }
            assert forall|y: NodeId, jj: int| #![trigger visited@.contains(y), es[jj]]
                visited@.contains(y) && 0 <= jj < es.len() && es[jj].to_node == y && midi_link(ns, es[jj])
                implies (is_router(kind_of(ns, es[jj].from_node)) ==> visited@.contains(es[jj].from_node)
                    || pending@.contains(es[jj].from_node))
                && (kind_of(ns, es[jj].from_node) matches NodeKind::MidiClipSource { track_id }
                    ==> tracks@.contains(track_id)) by {
                let f = es[jj].from_node;
                if v0.contains(y) {
                    if is_router(kind_of(ns, f)) && !v0.contains(f) {
                        assert(p0.contains(f));
                    }
                    if let NodeKind::MidiClipSource { track_id } = kind_of(ns, f) {
                        assert(t0.contains(track_id));
                    }
                }
            }
            assert forall|k: int| 0 <= k < pending@.len() implies reaches(ns, es, node_id, #[trigger] pending@[k])
                && keys.contains(pending@[k]) by {
                if !fresh {
                    assert(pending@[k] == p0[k]);
                }
            }
            assert(keys.contains(x));
            vstd::set_lib::lemma_len_subset(visited@, keys);
            if fresh {
                assert(visited@.len() == v0.len() + 1);
            } else {
                assert(visited@ =~= v0);
            }
        }
    }
    proof {
        assert forall|t: TrackId| #[trigger] tracks@.contains(t) <==> feeds_instrument(ns, es, node_id, t) by {
            if feeds_instrument(ns, es, node_id, t) {
                let (src, r) = choose|src: NodeId, r: NodeId| #![trigger midi_edge(ns, es, src, r)]
                    midi_edge(ns, es, src, r) && reaches(ns, es, node_id, r)
                    && kind_of(ns, src) == (NodeKind::MidiClipSource { track_id: t });
                let p = choose|p: Seq<NodeId>| #[trigger] routes_to(ns, es, node_id, p) && p[0] == r;
                lemma_path_visited(ns, es, node_id, visited@, p, 0);
                let j = choose|j: int| 0 <= j < es.len() && (#[trigger] es[j]).from_node == src && es[j].to_node == r
                    && midi_link(ns, es[j]);
                assert(visited@.contains(r));
            }
        }
    }
    tracks
}

/// `a` goes no later than `b` in a block: an earlier sample offset, or the
/// same offset and a priority no later (panic, then note-off, then other
/// messages, then note-on).
pub open spec fn goes_before(a: ScheduledMidiEvent, b: ScheduledMidiEvent) -> bool {
    a.sample_offset < b.sample_offset
        || (a.sample_offset == b.sample_offset && a.spec_sort_priority() <= b.spec_sort_priority())
}

/// The event an item is ordered by.
pub open spec fn event_key() -> spec_fn(ScheduledMidiEvent) -> ScheduledMidiEvent {
    |e: ScheduledMidiEvent| e
}

/// The event of a track-tagged item.
pub open spec fn tagged_key() -> spec_fn((TrackId, ScheduledMidiEvent)) -> ScheduledMidiEvent {
    |p: (TrackId, ScheduledMidiEvent)| p.1
}

/// `x` placed into `s` right after the last item whose event goes before
/// its own.
pub open spec fn insert_in_order<T>(s: Seq<T>, x: T, key: spec_fn(T) -> ScheduledMidiEvent) -> Seq<T>
    decreases s.len(),
{
    if s.len() == 0 {
        seq![x]
    } else if goes_before(key(s.last()), key(x)) {
        s.push(x)
    } else {
        insert_in_order(s.drop_last(), x, key).push(s.last())
    }
}

/// `s` ordered by the (sample offset, priority) of each item's event, equal
/// keys keeping their order (a stable sort).
pub open spec fn in_block_order<T>(s: Seq<T>, key: spec_fn(T) -> ScheduledMidiEvent) -> Seq<T>
    decreases s.len(),
{
    if s.len() == 0 {
        Seq::empty()
    } else {
        insert_in_order(in_block_order(s.drop_last(), key), s.last(), key)
    }
}

/// The preview events of the tracks in `sources`, in order.
pub open spec fn previews_from(preview: Seq<(TrackId, ScheduledMidiEvent)>, sources: Set<TrackId>) -> Seq<ScheduledMidiEvent>
    decreases preview.len(),
{
    if preview.len() == 0 {
        Seq::empty()
    } else if sources.contains(preview.last().0) {
        previews_from(preview.drop_last(), sources).push(preview.last().1)
    } else {
        previews_from(preview.drop_last(), sources)
    }
}

/// The MIDI an instrument receives in one block: the events scheduled from
/// its source tracks' clips while playing, then the preview notes of those
/// tracks, all in block order.
pub open spec fn block_midi(playing: bool, scheduled: Seq<ScheduledMidiEvent>,
    preview: Seq<(TrackId, ScheduledMidiEvent)>, sources: Set<TrackId>) -> Seq<ScheduledMidiEvent> {
    in_block_order((if playing { scheduled } else { Seq::empty() }) + previews_from(preview, sources), event_key())
}

pub(crate) proof fn lemma_insert_at<T>(s: Seq<T>, x: T, key: spec_fn(T) -> ScheduledMidiEvent, k: int)
    requires
        0 <= k <= s.len(),
        forall|i: int| k <= i < s.len() ==> !goes_before(key(#[trigger] s[i]), key(x)),
        k > 0 ==> goes_before(key(s[k - 1]), key(x)),
    ensures
        insert_in_order(s, x, key) == s.insert(k, x),
    decreases s.len(),
{
    if s.len() > 0 {
        if goes_before(key(s.last()), key(x)) {
            assert(s.insert(k, x) =~= s.push(x));
        } else {
            assert forall|i: int| k <= i < s.drop_last().len() implies !goes_before(key(#[trigger] s.drop_last()[i]), key(x)) by {
                assert(s.drop_last()[i] == s[i]);
            }
            lemma_insert_at(s.drop_last(), x, key, k);
            assert(s.insert(k, x) =~= s.drop_last().insert(k, x).push(s.last()));
        }
    } else {
        assert(s.insert(k, x) =~= seq![x]);
    }
}

/// Places `x` into `v` as `insert_in_order` does.
fn insert_event(v: &mut Vec<ScheduledMidiEvent>, x: ScheduledMidiEvent)
    ensures
        final(v)@ == insert_in_order(old(v)@, x, event_key()),
{
    let mut k: usize = v.len();
    while k > 0
        invariant
            k <= v.len(),
            forall|i: int| k <= i < v.len() ==> !goes_before(#[trigger] v@[i], x),
        ensures
            k <= v.len(),
            forall|i: int| k <= i < v.len() ==> !goes_before(#[trigger] v@[i], x),
            k > 0 ==> goes_before(v@[k - 1], x),
        decreases k,
    {
        let prev = v[k - 1];
        let before = prev.sample_offset < x.sample_offset
            || (prev.sample_offset == x.sample_offset && prev.sort_priority() <= x.sort_priority());
        if before {
            break;
        }
        k = k - 1;
    }
    proof {
        lemma_insert_at(v@, x, event_key(), k as int);
    }
    v.insert(k, x);
}

/// Places the tagged event `x` into `v` as `insert_in_order` does.
pub(crate) fn insert_tagged(v: &mut Vec<(TrackId, ScheduledMidiEvent)>, x: (TrackId, ScheduledMidiEvent))
    ensures
        final(v)@ == insert_in_order(old(v)@, x, tagged_key()),
{
    let mut k: usize = v.len();
    while k > 0
        invariant
            k <= v.len(),
            forall|i: int| k <= i < v.len() ==> !goes_before((#[trigger] v@[i]).1, x.1),
        ensures
            k <= v.len(),
            forall|i: int| k <= i < v.len() ==> !goes_before((#[trigger] v@[i]).1, x.1),
            k > 0 ==> goes_before(v@[k - 1].1, x.1),
        decreases k,
    {
        let prev = v[k - 1].1;
        let before = prev.sample_offset < x.1.sample_offset
            || (prev.sample_offset == x.1.sample_offset && prev.sort_priority() <= x.1.sort_priority());
        if before {
            break;
        }
        k = k - 1;
    }
    proof {
        lemma_insert_at(v@, x, tagged_key(), k as int);
    }
    v.insert(k, x);
}

/// Tagged events in block order.
pub(crate) fn sort_tagged(v: Vec<(TrackId, ScheduledMidiEvent)>) -> (r: Vec<(TrackId, ScheduledMidiEvent)>)
    ensures
        r@ == in_block_order(v@, tagged_key()),
{
    let mut r: Vec<(TrackId, ScheduledMidiEvent)> = Vec::new();
    let mut j: usize = 0;
    while j < v.len()
        invariant
            j <= v.len(),
            r@ == in_block_order(v@.take(j as int), tagged_key()),
        decreases v.len() - j,
    {
        proof {
            assert(v@.take(j as int + 1).drop_last() =~= v@.take(j as int));
        }
        insert_tagged(&mut r, v[j]);
        j = j + 1;
    }
    proof {
        assert(v@.take(v@.len() as int) =~= v@);
    }
    r
}

/// `v` in block order (see `in_block_order`).
pub(crate) fn sort_events(v: Vec<ScheduledMidiEvent>) -> (r: Vec<ScheduledMidiEvent>)
    ensures
        r@ == in_block_order(v@, event_key()),
{
    let mut r: Vec<ScheduledMidiEvent> = Vec::new();
    let mut j: usize = 0;
    while j < v.len()
        invariant
            j <= v.len(),
            r@ == in_block_order(v@.take(j as int), event_key()),
        decreases v.len() - j,
    {
        proof {
            assert(v@.take(j as int + 1).drop_last() =~= v@.take(j as int));
        }
        insert_event(&mut r, v[j]);
        j = j + 1;
    }
    proof {
        assert(v@.take(v@.len() as int) =~= v@);
    }
    r
}

/// The MIDI an instrument receives in one block (see `block_midi`).
pub fn collect_block_midi(playing: bool, scheduled: Vec<ScheduledMidiEvent>,
    preview: &Vec<(TrackId, ScheduledMidiEvent)>, sources: &HashSet<TrackId>) -> (r: Vec<ScheduledMidiEvent>)
    ensures
        r@ == block_midi(playing, scheduled@, preview@, sources@),
{
    let mut all: Vec<ScheduledMidiEvent> = if playing { scheduled } else { Vec::new() };
    let ghost first = all@;
    let mut i: usize = 0;
    while i < preview.len()
        invariant
            i <= preview.len(),
            all@ == first + previews_from(preview@.take(i as int), sources@),
        decreases preview.len() - i,
    {
        proof {
            assert(preview@.take(i as int + 1).drop_last() =~= preview@.take(i as int));
        }
        let (t, e) = preview[i];
        if sources.contains(&t) {
            all.push(e);
            proof {
                assert(all@ =~= first + previews_from(preview@.take(i as int + 1), sources@));
            }
        }
        i = i + 1;
    }
    proof {
        assert(preview@.take(preview@.len() as int) =~= preview@);
    }
    let mut r: Vec<ScheduledMidiEvent> = Vec::new();
    let mut j: usize = 0;
    while j < all.len()
        invariant
            j <= all.len(),
            r@ == in_block_order(all@.take(j as int), event_key()),
        decreases all.len() - j,
    {
        proof {
            assert(all@.take(j as int + 1).drop_last() =~= all@.take(j as int));
        }
        insert_event(&mut r, all[j]);
        j = j + 1;
    }
    proof {
        assert(all@.take(all@.len() as int) =~= all@);
    }
    r
}

proof fn lemma_insert_in_order<T>(s: Seq<T>, x: T, key: spec_fn(T) -> ScheduledMidiEvent)
    requires
        forall|i: int, j: int| 0 <= i < j < s.len() ==> goes_before(key(#[trigger] s[i]), key(#[trigger] s[j])),
    ensures
        forall|i: int, j: int| 0 <= i < j < insert_in_order(s, x, key).len()
            ==> goes_before(key(#[trigger] insert_in_order(s, x, key)[i]), key(#[trigger] insert_in_order(s, x, key)[j])),
        insert_in_order(s, x, key).to_multiset() == s.to_multiset().insert(x),
    decreases s.len(),
{
    broadcast use vstd::seq_lib::group_to_multiset_ensures;
    if s.len() == 0 {
        assert(seq![x] =~= Seq::<T>::empty().push(x));
    } else if goes_before(key(s.last()), key(x)) {
    } else {
        let d = s.drop_last();
        lemma_insert_in_order(d, x, key);
        let r = insert_in_order(d, x, key);
        assert(s =~= d.push(s.last()));
        assert forall|i: int| 0 <= i < r.len() implies goes_before(key(#[trigger] r[i]), key(s.last())) by {
            assert(r.to_multiset().count(r[i]) > 0);
            if r[i] != x {
                assert(d.to_multiset().count(r[i]) > 0);
                assert(d.contains(r[i]));
                let w = choose|w: int| 0 <= w < d.len() && d[w] == r[i];
                assert(goes_before(key(s[w]), key(s[s.len() - 1])));
            }
        }
    }
}

/// Events of a block come out in block order: by sample offset, and at the
/// same offset panic before note-off before note-on; no item is lost or
/// added.
pub proof fn law_block_order_sorted<T>(s: Seq<T>, key: spec_fn(T) -> ScheduledMidiEvent)
    ensures
        forall|i: int, j: int| 0 <= i < j < in_block_order(s, key).len()
            ==> goes_before(key(#[trigger] in_block_order(s, key)[i]), key(#[trigger] in_block_order(s, key)[j])),
        in_block_order(s, key).to_multiset() == s.to_multiset(),
    decreases s.len(),
{
    broadcast use vstd::seq_lib::group_to_multiset_ensures;
    if s.len() > 0 {
        law_block_order_sorted(s.drop_last(), key);
        lemma_insert_in_order(in_block_order(s.drop_last(), key), s.last(), key);
        assert(s =~= s.drop_last().push(s.last()));
    } else {
        assert(s.to_multiset() =~= vstd::multiset::Multiset::empty());
    }
}

} // verus!
