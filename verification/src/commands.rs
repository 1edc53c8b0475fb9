//! Reversible commands and the undo/redo stack.
//!
//! A command records both sides of an edit; `apply` performs it forward, or
//! backward when undoing. Beats are `f64` and gains `f32` bit patterns.
//! Automation points are placed by beat with a floating-point tolerance, so
//! `apply` only decides which lane is edited and hands the point edit back
//! as a `PointEdit` for the caller to carry out.
use vstd::prelude::*;
use crate::ids::{AutomationLaneId, ClipId, EdgeId, NodeId, NoteId, TrackId};
use crate::keyed::{keys_unique, has_key, key_index, value_of, insert_entry, remove_entry, lemma_insert_keeps_unique,
    lemma_remove_keeps_unique, lemma_map_vals_insert, lemma_map_vals_remove};
use crate::graph::{AudioGraph, GraphEdge, GraphError, GraphNode, GraphNodeView, connect_post, retain_edges,
    edge_filter, EdgeFilter, gain_pan_set, lemma_connect_growth, lemma_insert_len, lemma_retain_edges_len};
use crate::clips::{Clip, ClipView, MidiNote, Track};
use crate::project::{Project, PluginStateBlob, BlobView, AutomationLane, AutomationPoint, AutomationTarget,
    blob_entries, blob_view_fn, blobs_insert, blobs_shift_remove, touched};
use crate::vecs::{first_where, lemma_first_where, position_where, any_where, retain_where};
use crate::notes::{note_id_is, note_id_not, note_id_not_in, push_absent, push_absent_all, edit_first, edit_all,
    clip_id_is, clip_notes, clip_notes_set, find_clip_notes, set_clip_notes, push_absent_exec,
    push_absent_all_exec, edit_first_exec, edit_all_exec, remove_note_id, remove_note_ids};

verus! {

pub enum Command {
    AddTrack { track: Track, nodes: Vec<GraphNode>, edges: Vec<GraphEdge> },
    RemoveTrack { track: Track, clips: Vec<Clip>, nodes: Vec<GraphNode>, edges: Vec<GraphEdge> },
    AddClip { clip: Clip },
    RemoveClip { clip: Clip },
    MoveClip { clip_id: ClipId, old_start: u64, new_start: u64, old_length: u64, new_length: u64 },
    /// Move a clip onto a different track.
    SetClipTrack { clip_id: ClipId, old_track: TrackId, new_track: TrackId },
    AddNote { clip_id: ClipId, note: MidiNote },
    /// Add a group of notes as one undoable operation (for chord stamps).
    AddNotes { clip_id: ClipId, notes: Vec<MidiNote> },
    RemoveNote { clip_id: ClipId, note: MidiNote },
    /// Remove a group of notes as one undoable operation.
    RemoveNotes { clip_id: ClipId, notes: Vec<MidiNote> },
    EditNote { clip_id: ClipId, note_id: NoteId, before: MidiNote, after: MidiNote },
    /// Edit a group of notes as one undoable operation (multi-note drag).
    EditNotes { clip_id: ClipId, before: Vec<MidiNote>, after: Vec<MidiNote> },
    SetGainPan {
        node_id: NodeId,
        old_gain: u32,
        new_gain: u32,
        old_pan: u32,
        new_pan: u32,
        old_mute: bool,
        new_mute: bool,
    },
    Connect { edge: GraphEdge },
    Disconnect { edge: GraphEdge },
    /// Connect that replaced existing wires into the destination port.
    ConnectReplace { edge: GraphEdge, replaced: Vec<GraphEdge> },
    AddNode { node: GraphNode },
    RemoveNode {
        node: GraphNode,
        edges: Vec<GraphEdge>,
        /// If this node was a track instrument, restore the track link on undo.
        instrument_track: Option<TrackId>,
        plugin_state: Option<PluginStateBlob>,
    },
    SetTempo { old_bpm: u64, new_bpm: u64 },
    SetTimeSignature { old_beats_per_bar: u32, new_beats_per_bar: u32, old_beat_unit: u32, new_beat_unit: u32 },
    SetAutomationPoint {
        lane_id: AutomationLaneId,
        target: AutomationTarget,
        created_lane: bool,
        old_point: Option<AutomationPoint>,
        new_point: AutomationPoint,
    },
}

/// A point edit on automation lane `lane`: first remove the points at beat
/// `remove_at` (within the lane's tolerance), then add `add`.
#[derive(Debug, Clone, Copy, PartialEq, Eq, Structural)]
pub struct PointEdit {
    pub lane: usize,
    pub remove_at: Option<u64>,
    pub add: Option<AutomationPoint>,
}

// ---------------------------------------------------------------------------
// Graph edits repeated over lists of nodes and edges.

/// Node views after `add_node` of each node of `nodes`, in order.
pub open spec fn insert_views(vs: Seq<(NodeId, GraphNodeView)>, nodes: Seq<GraphNode>) -> Seq<(NodeId, GraphNodeView)>
    decreases nodes.len(),
{
    if nodes.len() == 0 {
        vs
    } else {
        insert_entry(insert_views(vs, nodes.drop_last()), nodes.last().id, nodes.last()@)
    }
}

/// `g1` is `g0` with each node of `nodes` added (by its view), in order.
pub open spec fn nodes_added(g0: AudioGraph, g1: AudioGraph, nodes: Seq<GraphNode>) -> bool {
    &&& g1.nodes_view() == insert_views(g0.nodes_view(), nodes)
    &&& g1.edge_seq() == g0.edge_seq()
    &&& g1.user_arranged == g0.user_arranged
}

/// `g1` is `g0` after `connect` was tried on the endpoints of each edge of
/// `edges`, in order; a failed attempt leaves the graph as it was.
pub open spec fn edges_connected(g0: AudioGraph, g1: AudioGraph, edges: Seq<GraphEdge>) -> bool
    decreases edges.len(),
{
    if edges.len() == 0 {
        g1 == g0
    } else {
        let e = edges.last();
        exists|mid: AudioGraph, r: Result<EdgeId, GraphError>|
            #![trigger connect_post(mid, g1, e.from_node, e.from_port, e.to_node, e.to_port, r)]
            (g0.wf() ==> mid.wf()) && edges_connected(g0, mid, edges.drop_last())
            && connect_post(mid, g1, e.from_node, e.from_port, e.to_node, e.to_port, r)
    }
}

/// `g1` is `g0` after `remove_node(id)`.
pub open spec fn node_removed(g0: AudioGraph, g1: AudioGraph, id: NodeId) -> bool {
    &&& g1.node_seq() == remove_entry(g0.node_seq(), id)
    &&& g1.edge_seq() == (if has_key(g0.node_seq(), id) {
        retain_edges(g0.edge_seq(), edge_filter(EdgeFilter::NotTouching(id)))
    } else {
        g0.edge_seq()
    })
    &&& g1.user_arranged == g0.user_arranged
}

/// `g1` is `g0` after `remove_node` of each node id of `nodes`, in order.
pub open spec fn nodes_removed(g0: AudioGraph, g1: AudioGraph, nodes: Seq<GraphNode>) -> bool
    decreases nodes.len(),
{
    if nodes.len() == 0 {
        g1 == g0
    } else {
        exists|mid: AudioGraph| #![trigger node_removed(mid, g1, nodes.last().id)]
            (g0.wf() ==> mid.wf()) && nodes_removed(g0, mid, nodes.drop_last()) && node_removed(mid, g1, nodes.last().id)
    }
}

/// Room in `g` for `n` more nodes and `e` more edges.
pub open spec fn graph_room(g: AudioGraph, n: int, e: int) -> bool {
    &&& g.node_seq().len() + n < u32::MAX
    &&& g.edge_seq().len() + e < u32::MAX
}

/// Add a copy of each node of `nodes`, in order.
fn add_nodes(g: &mut AudioGraph, nodes: &Vec<GraphNode>)
    requires
        old(g).distinct_keys(),
        graph_room(*old(g), nodes@.len() as int, 0),
    ensures
        old(g).wf() ==> final(g).wf(),
        final(g).distinct_keys(),
        nodes_added(*old(g), *final(g), nodes@),
        final(g).node_seq().len() <= old(g).node_seq().len() + nodes@.len(),
{
    let ghost g0 = *g;
    let mut i: usize = 0;
    while i < nodes.len()
        invariant
            i <= nodes.len(),
            g.distinct_keys(),
            g0.wf() ==> g.wf(),
            g0.node_seq().len() + nodes@.len() < u32::MAX,
            g.node_seq().len() <= g0.node_seq().len() + i,
            nodes_added(g0, *g, nodes@.take(i as int)),
        decreases nodes.len() - i,
    {
        proof {
            assert(nodes@.take(i as int + 1).drop_last() =~= nodes@.take(i as int));
            lemma_insert_len(g.node_seq(), nodes@[i as int].id, nodes@[i as int]);
        }
        let n = nodes[i].duplicate();
        g.add_node(n);
        i = i + 1;
    }
    assert(nodes@.take(nodes.len() as int) =~= nodes@);
}

/// Try `connect` on the endpoints of each edge of `edges`, in order.
fn connect_edges(g: &mut AudioGraph, edges: &Vec<GraphEdge>)
    requires
        old(g).distinct_keys(),
        graph_room(*old(g), 0, edges@.len() + 1 as int),
    ensures
        old(g).wf() ==> final(g).wf(),
        final(g).distinct_keys(),
        edges_connected(*old(g), *final(g), edges@),
        final(g).node_seq() == old(g).node_seq(),
        final(g).edge_seq().len() <= old(g).edge_seq().len() + edges@.len(),
        final(g).user_arranged == old(g).user_arranged,
{
    let ghost g0 = *g;
    let mut i: usize = 0;
    while i < edges.len()
        invariant
            i <= edges.len(),
            g.distinct_keys(),
            g0.wf() ==> g.wf(),
            g.node_seq() == g0.node_seq(),
            g.user_arranged == g0.user_arranged,
            g0.node_seq().len() < u32::MAX,
            g0.edge_seq().len() + edges@.len() + 1 < u32::MAX,
            g.edge_seq().len() <= g0.edge_seq().len() + i,
            edges_connected(g0, *g, edges@.take(i as int)),
        decreases edges.len() - i,
    {
        let e = edges[i];
        let ghost mid = *g;
        let r = g.connect(e.from_node, e.from_port, e.to_node, e.to_port);
        proof {
            lemma_connect_growth(mid, *g, e.from_node, e.from_port, e.to_node, e.to_port, r);
            assert(edges@.take(i as int + 1).drop_last() =~= edges@.take(i as int));
            assert(edges@.take(i as int + 1).last() == e);
            assert(connect_post(mid, *g, e.from_node, e.from_port, e.to_node, e.to_port, r));
        }
        i = i + 1;
    }
    assert(edges@.take(edges.len() as int) =~= edges@);
}

/// `remove_node` for the id of each node of `nodes`, in order.
fn remove_nodes(g: &mut AudioGraph, nodes: &Vec<GraphNode>)
    requires
        old(g).distinct_keys(),
    ensures
        old(g).wf() ==> final(g).wf(),
        final(g).distinct_keys(),
        nodes_removed(*old(g), *final(g), nodes@),
        final(g).node_seq().len() <= old(g).node_seq().len(),
        final(g).edge_seq().len() <= old(g).edge_seq().len(),
{
    let ghost g0 = *g;
    let mut i: usize = 0;
    while i < nodes.len()
        invariant
            i <= nodes.len(),
            g.distinct_keys(),
            g0.wf() ==> g.wf(),
            g.node_seq().len() <= g0.node_seq().len(),
            g.edge_seq().len() <= g0.edge_seq().len(),
            nodes_removed(g0, *g, nodes@.take(i as int)),
        decreases nodes.len() - i,
    {
        let id = nodes[i].id;
        let ghost mid = *g;
        proof {
            crate::keyed::lemma_map_vals_keys(mid.node_seq(), crate::graph::node_view_fn());
        }
        g.remove_node(id);
        proof {
            lemma_retain_edges_len(mid.edge_seq(), edge_filter(EdgeFilter::NotTouching(id)));
            assert(nodes@.take(i as int + 1).drop_last() =~= nodes@.take(i as int));
            assert(node_removed(mid, *g, id));
        }
        i = i + 1;
    }
    assert(nodes@.take(nodes.len() as int) =~= nodes@);
}


// ---------------------------------------------------------------------------
// What each command does, forward and backward.

pub open spec fn track_id_is(id: TrackId) -> spec_fn(Track) -> bool {
    |t: Track| t.id == id
}

pub open spec fn track_id_not(id: TrackId) -> spec_fn(Track) -> bool {
    |t: Track| t.id != id
}

pub open spec fn clip_id_not(id: ClipId) -> spec_fn(Clip) -> bool {
    |c: Clip| c.id != id
}

pub open spec fn clip_track_not(id: TrackId) -> spec_fn(Clip) -> bool {
    |c: Clip| c.track_id != id
}

pub open spec fn lane_id_is(id: AutomationLaneId) -> spec_fn(AutomationLane) -> bool {
    |l: AutomationLane| l.id == id
}

pub open spec fn lane_id_not(id: AutomationLaneId) -> spec_fn(AutomationLane) -> bool {
    |l: AutomationLane| l.id != id
}

pub open spec fn clip_views(cs: Seq<Clip>) -> Seq<ClipView> {
    cs.map_values(|c: Clip| c@)
}

pub open spec fn lane_views(ls: Seq<AutomationLane>) -> Seq<crate::project::LaneView> {
    ls.map_values(|l: AutomationLane| l@)
}

/// The parts of the document that no command changes.
pub open spec fn doc_kept(p0: Project, p1: Project) -> bool {
    &&& p1.meta == p0.meta
    &&& p1.transport == p0.transport
    &&& p1.loop_enabled == p0.loop_enabled
    &&& p1.loop_start_beats == p0.loop_start_beats
    &&& p1.loop_end_beats == p0.loop_end_beats
    &&& p1.master_node == p0.master_node
    &&& p1.assets == p0.assets
    &&& p1.root_dir == p0.root_dir
}

/// Tracks, clips, graph, tempo, automation and plugin states kept, but for
/// those named false.
pub open spec fn kept_but(p0: Project, p1: Project, tracks: bool, clips: bool, graph: bool, tempo: bool,
    automation: bool, states: bool) -> bool
{
    &&& doc_kept(p0, p1)
    &&& tracks ==> p1.tracks == p0.tracks
    &&& clips ==> p1.clips == p0.clips
    &&& graph ==> p1.graph == p0.graph
    &&& tempo ==> p1.tempo == p0.tempo
    &&& automation ==> p1.automation == p0.automation
    &&& states ==> p1.plugin_states == p0.plugin_states
}

/// `g1` is `g0` with the nodes added, then the edges' endpoints connected.
pub open spec fn restored(g0: AudioGraph, g1: AudioGraph, nodes: Seq<GraphNode>, edges: Seq<GraphEdge>) -> bool {
    exists|g: AudioGraph| #[trigger] nodes_added(g0, g, nodes) && (g0.wf() ==> g.wf()) && edges_connected(g, g1, edges)
}

/// `g1` is `g0` after `disconnect(id)`.
pub open spec fn disconnected(g0: AudioGraph, g1: AudioGraph, id: EdgeId) -> bool {
    &&& g1.node_seq() == g0.node_seq()
    &&& g1.edge_seq() == remove_entry(g0.edge_seq(), id)
    &&& g1.user_arranged == g0.user_arranged
}

/// `g1` is `g0` after `connect` was tried on the endpoints of `e`.
pub open spec fn connected(g0: AudioGraph, g1: AudioGraph, e: GraphEdge) -> bool {
    exists|r: Result<EdgeId, GraphError>| #[trigger] connect_post(g0, g1, e.from_node, e.from_port, e.to_node, e.to_port, r)
}

pub open spec fn add_track_applied(p0: Project, p1: Project, track: Track, nodes: Seq<GraphNode>,
    edges: Seq<GraphEdge>, reverse: bool) -> bool
{
    &&& kept_but(p0, p1, false, true, false, true, true, true)
    &&& if reverse {
        &&& p1.tracks@ == p0.tracks@.filter(track_id_not(track.id))
        &&& nodes_removed(p0.graph, p1.graph, nodes)
    } else {
        &&& restored(p0.graph, p1.graph, nodes, edges)
        &&& p1.tracks@ == (if first_where(p0.tracks@, track_id_is(track.id)) == -1 {
            p0.tracks@.push(track)
        } else {
            p0.tracks@
        })
    }
}

pub open spec fn remove_track_applied(p0: Project, p1: Project, track: Track, clips: Seq<Clip>,
    nodes: Seq<GraphNode>, edges: Seq<GraphEdge>, reverse: bool) -> bool
{
    &&& kept_but(p0, p1, false, false, false, true, true, true)
    &&& if reverse {
        &&& restored(p0.graph, p1.graph, nodes, edges)
        &&& p1.tracks@ == p0.tracks@.push(track)
        &&& clip_views(p1.clips@) == clip_views(p0.clips@) + clip_views(clips)
    } else {
        &&& p1.tracks@ == p0.tracks@.filter(track_id_not(track.id))
        &&& p1.clips@ == p0.clips@.filter(clip_track_not(track.id))
        &&& nodes_removed(p0.graph, p1.graph, nodes)
    }
}

/// Clips after removing clip `clip`'s id (`drop`), or appending a copy of
/// `clip` (`push_if_absent` only when no clip has its id).
pub open spec fn clip_list_applied(p0: Project, p1: Project, clip: Clip, drop: bool, push_if_absent: bool) -> bool {
    &&& kept_but(p0, p1, true, false, true, true, true, true)
    &&& if drop {
        p1.clips@ == p0.clips@.filter(clip_id_not(clip.id))
    } else if push_if_absent && first_where(p0.clips@, clip_id_is(clip.id)) != -1 {
        p1.clips == p0.clips
    } else {
        p1.clips@.len() == p0.clips@.len() + 1 && p1.clips@.drop_last() == p0.clips@ && p1.clips@.last()@ == clip@
    }
}

/// The first clip with id `id` changed to `f(clip)`; nothing if there is none.
pub open spec fn clip_updated(p0: Project, p1: Project, id: ClipId, f: spec_fn(Clip) -> Clip) -> bool {
    &&& kept_but(p0, p1, true, false, true, true, true, true)
    &&& ({
        let k = first_where(p0.clips@, clip_id_is(id));
        if k == -1 {
            p1.clips == p0.clips
        } else {
            p1.clips@ == p0.clips@.update(k, f(p0.clips@[k]))
        }
    })
}

pub open spec fn moved(start: u64, length: u64) -> spec_fn(Clip) -> Clip {
    |c: Clip| Clip { start_beats: start, length_beats: length, ..c }
}

pub open spec fn retracked(track_id: TrackId) -> spec_fn(Clip) -> Clip {
    |c: Clip| Clip { track_id, ..c }
}

/// The notes of the first clip with id `id` (when it is a MIDI clip)
/// replaced by `f` of them; nothing otherwise.
pub open spec fn notes_applied(p0: Project, p1: Project, id: ClipId, f: spec_fn(Seq<MidiNote>) -> Seq<MidiNote>) -> bool {
    &&& kept_but(p0, p1, true, false, true, true, true, true)
    &&& match clip_notes(p0.clips@, id) {
        Some(ns) => clip_notes_set(p0.clips@, p1.clips@, id, f(ns)),
        None => p1.clips == p0.clips,
    }
}

pub open spec fn notes_filtered(p: spec_fn(MidiNote) -> bool) -> spec_fn(Seq<MidiNote>) -> Seq<MidiNote> {
    |ns: Seq<MidiNote>| ns.filter(p)
}

pub open spec fn notes_pushed_absent(n: MidiNote) -> spec_fn(Seq<MidiNote>) -> Seq<MidiNote> {
    |ns: Seq<MidiNote>| push_absent(ns, n)
}

pub open spec fn notes_pushed_absent_all(added: Seq<MidiNote>) -> spec_fn(Seq<MidiNote>) -> Seq<MidiNote> {
    |ns: Seq<MidiNote>| push_absent_all(ns, added)
}

pub open spec fn notes_pushed(n: MidiNote) -> spec_fn(Seq<MidiNote>) -> Seq<MidiNote> {
    |ns: Seq<MidiNote>| ns.push(n)
}

pub open spec fn notes_edited(id: NoteId, n: MidiNote) -> spec_fn(Seq<MidiNote>) -> Seq<MidiNote> {
    |ns: Seq<MidiNote>| edit_first(ns, id, n)
}

pub open spec fn notes_edited_all(source: Seq<MidiNote>) -> spec_fn(Seq<MidiNote>) -> Seq<MidiNote> {
    |ns: Seq<MidiNote>| edit_all(ns, source)
}

/// The track with id `track` (if any) gets instrument `node` when `attach`;
/// otherwise loses it, if `node` is its instrument.
pub open spec fn instrument_link(ts0: Seq<Track>, ts1: Seq<Track>, track: Option<TrackId>, node: NodeId, attach: bool) -> bool {
    match track {
        None => ts1 == ts0,
        Some(tid) => {
            let k = first_where(ts0, track_id_is(tid));
            if k == -1 {
                ts1 == ts0
            } else if attach {
                ts1 == ts0.update(k, Track { instrument_node: Some(node), ..ts0[k] })
            } else if ts0[k].instrument_node == Some(node) {
                ts1 == ts0.update(k, Track { instrument_node: None, ..ts0[k] })
            } else {
                ts1 == ts0
            }
        },
    }
}

pub open spec fn remove_node_applied(p0: Project, p1: Project, node: GraphNode, edges: Seq<GraphEdge>,
    track: Option<TrackId>, state: Option<PluginStateBlob>, reverse: bool) -> bool
{
    &&& kept_but(p0, p1, false, true, false, true, true, false)
    &&& instrument_link(p0.tracks@, p1.tracks@, track, node.id, reverse)
    &&& match state {
        None => p1.plugin_states == p0.plugin_states,
        Some(b) => if reverse {
            p1.states_view() == insert_entry(p0.states_view(), b.instance_id, b@)
        } else {
            p1.states_view() == remove_entry(p0.states_view(), b.instance_id)
        },
    }
    &&& if reverse {
        restored(p0.graph, p1.graph, seq![node], edges)
    } else {
        node_removed(p0.graph, p1.graph, node.id)
    }
}

/// What `SetAutomationPoint` does to the lanes, and the point edit it hands
/// back.
pub open spec fn automation_applied(p0: Project, p1: Project, lane_id: AutomationLaneId, target: AutomationTarget,
    created_lane: bool, old_point: Option<AutomationPoint>, new_point: AutomationPoint, reverse: bool,
    pe: Option<PointEdit>) -> bool
{
    let k = first_where(p0.automation@, lane_id_is(lane_id));
    &&& kept_but(p0, p1, true, true, true, true, false, true)
    &&& if reverse {
        if created_lane {
            p1.automation@ == p0.automation@.filter(lane_id_not(lane_id)) && pe is None
        } else if k == -1 {
            p1.automation == p0.automation && pe is None
        } else {
            p1.automation == p0.automation
                && pe == Some(PointEdit { lane: k as usize, remove_at: Some(new_point.beat), add: old_point })
        }
    } else {
        let remove_at = match old_point { Some(o) => Some(o.beat), None => None };
        if k == -1 {
            &&& lane_views(p1.automation@) == lane_views(p0.automation@).push(crate::project::LaneView {
                id: lane_id, target, points: Seq::empty(), enabled: true })
            &&& pe == Some(PointEdit { lane: p0.automation@.len() as usize, remove_at, add: Some(new_point) })
        } else {
            &&& p1.automation == p0.automation
            &&& pe == Some(PointEdit { lane: k as usize, remove_at, add: Some(new_point) })
        }
    }
}

pub open spec fn gain_pan_applied(p0: Project, p1: Project, node_id: NodeId, gain: u32, pan: u32, mute: bool) -> bool {
    &&& kept_but(p0, p1, true, true, false, true, true, true)
    &&& p1.graph.nodes_view() == gain_pan_set(p0.graph.nodes_view(), node_id, gain, pan, mute)
    &&& p1.graph.edge_seq() == p0.graph.edge_seq()
    &&& p1.graph.user_arranged == p0.graph.user_arranged
}

/// `connect` was tried on the endpoints of `edge`, or (`!connect`) the edge
/// with its id was disconnected.
pub open spec fn edge_applied(p0: Project, p1: Project, edge: GraphEdge, connect: bool) -> bool {
    &&& kept_but(p0, p1, true, true, false, true, true, true)
    &&& if connect { connected(p0.graph, p1.graph, edge) } else { disconnected(p0.graph, p1.graph, edge.id) }
}

pub open spec fn connect_replace_applied(p0: Project, p1: Project, edge: GraphEdge, replaced: Seq<GraphEdge>,
    reverse: bool) -> bool
{
    &&& kept_but(p0, p1, true, true, false, true, true, true)
    &&& if reverse {
        exists|g: AudioGraph| #[trigger] disconnected(p0.graph, g, edge.id) && (p0.graph.wf() ==> g.wf())
            && edges_connected(g, p1.graph, replaced)
    } else {
        exists|g: AudioGraph| #[trigger] inputs_dropped(p0.graph, g, edge) && (p0.graph.wf() ==> g.wf()) && connected(g, p1.graph, edge)
    }
}

/// `g1` is `g0` after `disconnect_inputs_to` the destination port of `edge`.
pub open spec fn inputs_dropped(g0: AudioGraph, g1: AudioGraph, edge: GraphEdge) -> bool {
    &&& g1.edge_seq() == retain_edges(g0.edge_seq(), edge_filter(EdgeFilter::NotInto(edge.to_node, edge.to_port)))
    &&& g1.node_seq() == g0.node_seq()
    &&& g1.user_arranged == g0.user_arranged
}

pub open spec fn add_node_applied(p0: Project, p1: Project, node: GraphNode, reverse: bool) -> bool {
    &&& kept_but(p0, p1, true, true, false, true, true, true)
    &&& if reverse { node_removed(p0.graph, p1.graph, node.id) } else { nodes_added(p0.graph, p1.graph, seq![node]) }
}

pub open spec fn tempo_applied(p0: Project, p1: Project, bpm: u64) -> bool {
    &&& kept_but(p0, p1, true, true, true, false, true, true)
    &&& p1.tempo == crate::project::TempoMap { bpm, ..p0.tempo }
}

/// The time signature set, each part raised to at least 1.
pub open spec fn time_signature_applied(p0: Project, p1: Project, beats_per_bar: u32, beat_unit: u32) -> bool {
    &&& kept_but(p0, p1, true, true, true, false, true, true)
    &&& p1.tempo == crate::project::TempoMap {
        beats_per_bar: if beats_per_bar < 1 { 1 } else { beats_per_bar },
        beat_unit: if beat_unit < 1 { 1 } else { beat_unit },
        ..p0.tempo
    }
}

/// What `apply(cmd, reverse)` does to `p0`, giving `p1` and the point edit
/// `pe` left to the caller.
pub open spec fn applied(p0: Project, p1: Project, cmd: Command, reverse: bool, pe: Option<PointEdit>) -> bool {
    match cmd {
        Command::AddTrack { track, nodes, edges } =>
            add_track_applied(p0, p1, track, nodes@, edges@, reverse) && pe is None,
        Command::RemoveTrack { track, clips, nodes, edges } =>
            remove_track_applied(p0, p1, track, clips@, nodes@, edges@, reverse) && pe is None,
        Command::AddClip { clip } => clip_list_applied(p0, p1, clip, reverse, true) && pe is None,
        Command::RemoveClip { clip } => clip_list_applied(p0, p1, clip, !reverse, false) && pe is None,
        Command::MoveClip { clip_id, old_start, new_start, old_length, new_length } =>
            clip_updated(p0, p1, clip_id, if reverse { moved(old_start, old_length) } else { moved(new_start, new_length) })
            && pe is None,
        Command::SetClipTrack { clip_id, old_track, new_track } =>
            clip_updated(p0, p1, clip_id, retracked(if reverse { old_track } else { new_track })) && pe is None,
        Command::AddNote { clip_id, note } =>
            notes_applied(p0, p1, clip_id, if reverse { notes_filtered(note_id_not(note.id)) } else { notes_pushed_absent(note) })
            && pe is None,
        Command::AddNotes { clip_id, notes } =>
            notes_applied(p0, p1, clip_id,
                if reverse { notes_filtered(note_id_not_in(notes@)) } else { notes_pushed_absent_all(notes@) })
            && pe is None,
        Command::RemoveNote { clip_id, note } =>
            notes_applied(p0, p1, clip_id, if reverse { notes_pushed(note) } else { notes_filtered(note_id_not(note.id)) })
            && pe is None,
        Command::RemoveNotes { clip_id, notes } =>
            notes_applied(p0, p1, clip_id,
                if reverse { notes_pushed_absent_all(notes@) } else { notes_filtered(note_id_not_in(notes@)) })
            && pe is None,
        Command::EditNote { clip_id, note_id, before, after } =>
            notes_applied(p0, p1, clip_id, notes_edited(note_id, if reverse { before } else { after })) && pe is None,
        Command::EditNotes { clip_id, before, after } =>
            notes_applied(p0, p1, clip_id, notes_edited_all(if reverse { before@ } else { after@ })) && pe is None,
        Command::SetGainPan { node_id, old_gain, new_gain, old_pan, new_pan, old_mute, new_mute } =>
            (if reverse {
                gain_pan_applied(p0, p1, node_id, old_gain, old_pan, old_mute)
            } else {
                gain_pan_applied(p0, p1, node_id, new_gain, new_pan, new_mute)
            }) && pe is None,
        Command::Connect { edge } => edge_applied(p0, p1, edge, !reverse) && pe is None,
        Command::Disconnect { edge } => edge_applied(p0, p1, edge, reverse) && pe is None,
        Command::ConnectReplace { edge, replaced } =>
            connect_replace_applied(p0, p1, edge, replaced@, reverse) && pe is None,
        Command::AddNode { node } => add_node_applied(p0, p1, node, reverse) && pe is None,
        Command::RemoveNode { node, edges, instrument_track, plugin_state } =>
            remove_node_applied(p0, p1, node, edges@, instrument_track, plugin_state, reverse) && pe is None,
        Command::SetTempo { old_bpm, new_bpm } =>
            tempo_applied(p0, p1, if reverse { old_bpm } else { new_bpm }) && pe is None,
        Command::SetTimeSignature { old_beats_per_bar, new_beats_per_bar, old_beat_unit, new_beat_unit } =>
            (if reverse {
                time_signature_applied(p0, p1, old_beats_per_bar, old_beat_unit)
            } else {
                time_signature_applied(p0, p1, new_beats_per_bar, new_beat_unit)
            }) && pe is None,
        Command::SetAutomationPoint { lane_id, target, created_lane, old_point, new_point } =>
            automation_applied(p0, p1, lane_id, target, created_lane, old_point, new_point, reverse, pe),
    }
}

/// Room for the nodes and edges a command may add.
pub open spec fn room_for(p: Project, cmd: Command) -> bool {
    let (n, e) = match cmd {
        Command::AddTrack { nodes, edges, .. } => (nodes@.len() as int, edges@.len() as int),
        Command::RemoveTrack { nodes, edges, .. } => (nodes@.len() as int, edges@.len() as int),
        Command::ConnectReplace { replaced, .. } => (0int, replaced@.len() as int),
        Command::RemoveNode { edges, .. } => (1int, edges@.len() as int),
        _ => (1int, 1int),
    };
    graph_room(p.graph, n, e + 2)
}

// ---------------------------------------------------------------------------
// Carrying the commands out.

fn has_track(tracks: &Vec<Track>, id: TrackId) -> (r: bool)
    ensures
        r == (first_where(tracks@, track_id_is(id)) != -1),
{
    any_where(tracks, |t: &Track| -> (b: bool) ensures b == (t.id == id) { t.id == id }, Ghost(track_id_is(id)))
}

fn remove_track_id(tracks: &mut Vec<Track>, id: TrackId)
    ensures
        final(tracks)@ == old(tracks)@.filter(track_id_not(id)),
{
    retain_where(tracks, |t: &Track| -> (b: bool) ensures b == (t.id != id) { t.id != id }, Ghost(track_id_not(id)));
}

fn apply_add_track(project: &mut Project, track: &Track, nodes: &Vec<GraphNode>, edges: &Vec<GraphEdge>, reverse: bool)
    requires
        old(project).distinct_keys(),
        graph_room(old(project).graph, nodes@.len() as int, edges@.len() + 1 as int),
    ensures
        old(project).wf() ==> final(project).wf(),
        final(project).distinct_keys(),
        add_track_applied(*old(project), *final(project), *track, nodes@, edges@, reverse),
{
    if reverse {
        remove_track_id(&mut project.tracks, track.id);
        remove_nodes(&mut project.graph, nodes);
    } else {
        let ghost g0 = project.graph;
        add_nodes(&mut project.graph, nodes);
        let ghost g1 = project.graph;
        connect_edges(&mut project.graph, edges);
        proof {
            assert(nodes_added(g0, g1, nodes@));
        }
        if !has_track(&project.tracks, track.id) {
            project.tracks.push(track.duplicate());
        }
    }
}

/// Append a copy of each clip of `clips`.
fn extend_clips(clips: &mut Vec<Clip>, more: &Vec<Clip>)
    ensures
        clip_views(final(clips)@) == clip_views(old(clips)@) + clip_views(more@),
{
    let ghost cs0 = clips@;
    let mut i: usize = 0;
    while i < more.len()
        invariant
            i <= more.len(),
            clip_views(clips@) == clip_views(cs0) + clip_views(more@.take(i as int)),
        decreases more.len() - i,
    {
        let ghost before = clips@;
        clips.push(more[i].duplicate());
        proof {
            let t = more@.take(i as int);
            assert(more@.take(i as int + 1) =~= t.push(more@[i as int]));
            assert(clip_views(clips@) =~= clip_views(before).push(more@[i as int]@));
            assert(clip_views(t.push(more@[i as int])) =~= clip_views(t).push(more@[i as int]@));
            assert(clip_views(clips@) =~= clip_views(cs0) + clip_views(more@.take(i as int + 1)));
        }
        i = i + 1;
    }
    assert(more@.take(more.len() as int) =~= more@);
}

fn apply_remove_track(project: &mut Project, track: &Track, clips: &Vec<Clip>, nodes: &Vec<GraphNode>,
    edges: &Vec<GraphEdge>, reverse: bool)
    requires
        old(project).distinct_keys(),
        graph_room(old(project).graph, nodes@.len() as int, edges@.len() + 1 as int),
    ensures
        old(project).wf() ==> final(project).wf(),
        final(project).distinct_keys(),
        remove_track_applied(*old(project), *final(project), *track, clips@, nodes@, edges@, reverse),
{
    if reverse {
        let ghost g0 = project.graph;
        add_nodes(&mut project.graph, nodes);
        let ghost g1 = project.graph;
        connect_edges(&mut project.graph, edges);
        proof {
            assert(nodes_added(g0, g1, nodes@));
        }
        project.tracks.push(track.duplicate());
        extend_clips(&mut project.clips, clips);
    } else {
        remove_track_id(&mut project.tracks, track.id);
        let id = track.id;
        retain_where(&mut project.clips, |c: &Clip| -> (b: bool) ensures b == (c.track_id != id) { c.track_id != id },
            Ghost(clip_track_not(id)));
        remove_nodes(&mut project.graph, nodes);
    }
}

fn apply_clip_list(project: &mut Project, clip: &Clip, drop: bool, push_if_absent: bool)
    requires
        old(project).distinct_keys(),
    ensures
        old(project).wf() ==> final(project).wf(),
        final(project).distinct_keys(),
        clip_list_applied(*old(project), *final(project), *clip, drop, push_if_absent),
{
    let id = clip.id;
    if drop {
        retain_where(&mut project.clips, |c: &Clip| -> (b: bool) ensures b == (c.id != id) { c.id != id },
            Ghost(clip_id_not(id)));
    } else {
        let present = push_if_absent && any_where(&project.clips,
            |c: &Clip| -> (b: bool) ensures b == (c.id == id) { c.id == id }, Ghost(clip_id_is(id)));
        if !present {
            let ghost cs0 = project.clips@;
            project.clips.push(clip.duplicate());
            proof {
                assert(project.clips@.drop_last() =~= cs0);
            }
        }
    }
}

fn find_clip(clips: &Vec<Clip>, id: ClipId) -> (r: Option<usize>)
    ensures
        r is None <==> first_where(clips@, clip_id_is(id)) == -1,
        r matches Some(k) ==> k as int == first_where(clips@, clip_id_is(id)) && k < clips@.len(),
{
    position_where(clips, |c: &Clip| -> (b: bool) ensures b == (c.id == id) { c.id == id }, Ghost(clip_id_is(id)))
}

fn apply_move_clip(project: &mut Project, clip_id: ClipId, start: u64, length: u64)
    requires
        old(project).distinct_keys(),
    ensures
        old(project).wf() ==> final(project).wf(),
        final(project).distinct_keys(),
        clip_updated(*old(project), *final(project), clip_id, moved(start, length)),
{
    if let Some(k) = find_clip(&project.clips, clip_id) {
        let ghost cs0 = project.clips@;
        let mut c = project.clips.remove(k);
        c.start_beats = start;
        c.length_beats = length;
        project.clips.insert(k, c);
        proof {
            assert(project.clips@ =~= cs0.update(k as int, moved(start, length)(cs0[k as int])));
        }
    }
}

fn apply_clip_track(project: &mut Project, clip_id: ClipId, track_id: TrackId)
    requires
        old(project).distinct_keys(),
    ensures
        old(project).wf() ==> final(project).wf(),
        final(project).distinct_keys(),
        clip_updated(*old(project), *final(project), clip_id, retracked(track_id)),
{
    if let Some(k) = find_clip(&project.clips, clip_id) {
        let ghost cs0 = project.clips@;
        let mut c = project.clips.remove(k);
        c.track_id = track_id;
        project.clips.insert(k, c);
        proof {
            assert(project.clips@ =~= cs0.update(k as int, retracked(track_id)(cs0[k as int])));
        }
    }
}

/// A change of a note list, as the note commands make them.
enum NoteOp<'a> {
    Drop(NoteId),
    DropAll(&'a Vec<MidiNote>),
    Push(MidiNote),
    PushAbsent(MidiNote),
    PushAbsentAll(&'a Vec<MidiNote>),
    Edit(NoteId, MidiNote),
    EditAll(&'a Vec<MidiNote>),
}

spec fn note_op_fn(op: NoteOp) -> spec_fn(Seq<MidiNote>) -> Seq<MidiNote> {
    match op {
        NoteOp::Drop(id) => notes_filtered(note_id_not(id)),
        NoteOp::DropAll(ns) => notes_filtered(note_id_not_in(ns@)),
        NoteOp::Push(n) => notes_pushed(n),
        NoteOp::PushAbsent(n) => notes_pushed_absent(n),
        NoteOp::PushAbsentAll(ns) => notes_pushed_absent_all(ns@),
        NoteOp::Edit(id, n) => notes_edited(id, n),
        NoteOp::EditAll(ns) => notes_edited_all(ns@),
    }
}

/// Apply `op` to the notes of the first clip with id `clip_id`, when it is a
/// MIDI clip.
fn apply_note_op(project: &mut Project, clip_id: ClipId, op: NoteOp)
    requires
        old(project).distinct_keys(),
    ensures
        old(project).wf() ==> final(project).wf(),
        final(project).distinct_keys(),
        notes_applied(*old(project), *final(project), clip_id, note_op_fn(op)),
{
    match find_clip_notes(&project.clips, clip_id) {
        None => {},
        Some((k, ns)) => {
            let mut ns = ns;
            match op {
                NoteOp::Drop(id) => remove_note_id(&mut ns, id),
                NoteOp::DropAll(ids) => remove_note_ids(&mut ns, ids),
                NoteOp::Push(n) => ns.push(n),
                NoteOp::PushAbsent(n) => push_absent_exec(&mut ns, n),
                NoteOp::PushAbsentAll(added) => push_absent_all_exec(&mut ns, added),
                NoteOp::Edit(id, n) => edit_first_exec(&mut ns, id, n),
                NoteOp::EditAll(source) => edit_all_exec(&mut ns, source),
            }
            proof {
                lemma_first_where(project.clips@, clip_id_is(clip_id));
            }
            set_clip_notes(&mut project.clips, k, ns);
        },
    }
}

fn apply_connect(project: &mut Project, edge: GraphEdge)
    requires
        old(project).distinct_keys(),
        graph_room(old(project).graph, 0, 2),
    ensures
        old(project).wf() ==> final(project).wf(),
        final(project).distinct_keys(),
        kept_but(*old(project), *final(project), true, true, false, true, true, true),
        connected(old(project).graph, final(project).graph, edge),
{
    let ghost g0 = project.graph;
    let r = project.graph.connect(edge.from_node, edge.from_port, edge.to_node, edge.to_port);
    proof {
        assert(connect_post(g0, project.graph, edge.from_node, edge.from_port, edge.to_node, edge.to_port, r));
    }
}

fn apply_connect_replace(project: &mut Project, edge: GraphEdge, replaced: &Vec<GraphEdge>, reverse: bool)
    requires
        old(project).distinct_keys(),
        graph_room(old(project).graph, 0, replaced@.len() + 2 as int),
    ensures
        old(project).wf() ==> final(project).wf(),
        final(project).distinct_keys(),
        connect_replace_applied(*old(project), *final(project), edge, replaced@, reverse),
{
    if reverse {
        project.graph.disconnect(edge.id);
        let ghost g = project.graph;
        proof {
            crate::keyed::lemma_remove_len(old(project).graph.edge_seq(), edge.id);
        }
        connect_edges(&mut project.graph, replaced);
        proof {
            assert(disconnected(old(project).graph, g, edge.id));
        }
    } else {
        project.graph.disconnect_inputs_to(edge.to_node, edge.to_port);
        let ghost g = project.graph;
        proof {
            lemma_retain_edges_len(old(project).graph.edge_seq(),
                edge_filter(EdgeFilter::NotInto(edge.to_node, edge.to_port)));
        }
        apply_connect(project, edge);
        proof {
            assert(inputs_dropped(old(project).graph, g, edge));
        }
    }
}

fn apply_edge(project: &mut Project, edge: GraphEdge, connect: bool)
    requires
        old(project).distinct_keys(),
        graph_room(old(project).graph, 0, 2),
    ensures
        old(project).wf() ==> final(project).wf(),
        final(project).distinct_keys(),
        edge_applied(*old(project), *final(project), edge, connect),
{
    if connect {
        apply_connect(project, edge);
    } else {
        project.graph.disconnect(edge.id);
    }
}

fn apply_add_node(project: &mut Project, node: &GraphNode, reverse: bool)
    requires
        old(project).distinct_keys(),
        graph_room(old(project).graph, 1, 0),
    ensures
        old(project).wf() ==> final(project).wf(),
        final(project).distinct_keys(),
        add_node_applied(*old(project), *final(project), *node, reverse),
{
    if reverse {
        let ghost g0 = project.graph;
        proof {
            crate::keyed::lemma_map_vals_keys(g0.node_seq(), crate::graph::node_view_fn());
        }
        project.graph.remove_node(node.id);
        proof {
            assert(node_removed(g0, project.graph, node.id));
        }
    } else {
        let ghost g0 = project.graph;
        project.graph.add_node(node.duplicate());
        proof {
            assert(seq![*node].drop_last() =~= Seq::<GraphNode>::empty());
            assert(insert_views(g0.nodes_view(), seq![*node].drop_last()) == g0.nodes_view());
            assert(nodes_added(g0, project.graph, seq![*node]));
        }
    }
}

/// Point track `tid` (if present) at instrument `node`, or (`!attach`) clear
/// its instrument if it is `node`.
fn link_instrument(tracks: &mut Vec<Track>, track: Option<TrackId>, node: NodeId, attach: bool)
    ensures
        instrument_link(old(tracks)@, final(tracks)@, track, node, attach),
{
    if let Some(tid) = track {
        let k = position_where(tracks, |t: &Track| -> (b: bool) ensures b == (t.id == tid) { t.id == tid },
            Ghost(track_id_is(tid)));
        if let Some(k) = k {
            let mut t = tracks[k].duplicate();
            if attach {
                t.instrument_node = Some(node);
                tracks.set(k, t);
            } else if t.instrument_node == Some(node) {
                t.instrument_node = None;
                tracks.set(k, t);
            }
        }
    }
}

fn apply_remove_node(project: &mut Project, node: &GraphNode, edges: &Vec<GraphEdge>, track: Option<TrackId>,
    state: &Option<PluginStateBlob>, reverse: bool)
    requires
        old(project).distinct_keys(),
        graph_room(old(project).graph, 1, edges@.len() + 1 as int),
    ensures
        old(project).wf() ==> final(project).wf(),
        final(project).distinct_keys(),
        remove_node_applied(*old(project), *final(project), *node, edges@, track, *state, reverse),
{
    let ghost g0 = project.graph;
    if reverse {
        let one: Vec<GraphNode> = vec![node.duplicate()];
        add_nodes(&mut project.graph, &one);
        let ghost g1 = project.graph;
        connect_edges(&mut project.graph, edges);
        proof {
            assert(one@ =~= seq![one@[0]]);
            assert(insert_views(g0.nodes_view(), one@) == insert_views(g0.nodes_view(), seq![*node])) by {
                assert(one@.drop_last() =~= Seq::<GraphNode>::empty());
                assert(seq![*node].drop_last() =~= Seq::<GraphNode>::empty());
            }
            assert(nodes_added(g0, g1, seq![*node]));
        }
    } else {
        proof {
            crate::keyed::lemma_map_vals_keys(g0.node_seq(), crate::graph::node_view_fn());
        }
        project.graph.remove_node(node.id);
        proof {
            assert(node_removed(g0, project.graph, node.id));
        }
    }
    link_instrument(&mut project.tracks, track, node.id, reverse);
    match state {
        None => {},
        Some(b) => {
            if reverse {
                let blob = b.duplicate();
                proof {
                    lemma_insert_keeps_unique(blob_entries(project.plugin_states), blob.instance_id, blob);
                    lemma_map_vals_insert(blob_entries(project.plugin_states), blob.instance_id, blob, blob_view_fn());
                }
                blobs_insert(&mut project.plugin_states, blob.instance_id, blob);
            } else {
                proof {
                    lemma_map_vals_remove(blob_entries(project.plugin_states), b.instance_id, blob_view_fn());
                    lemma_remove_keeps_unique(blob_entries(project.plugin_states), b.instance_id);
                }
                blobs_shift_remove(&mut project.plugin_states, b.instance_id);
            }
        },
    }
}

fn apply_automation(project: &mut Project, lane_id: AutomationLaneId, target: AutomationTarget, created_lane: bool,
    old_point: Option<AutomationPoint>, new_point: AutomationPoint, reverse: bool) -> (pe: Option<PointEdit>)
    requires
        old(project).distinct_keys(),
    ensures
        old(project).wf() ==> final(project).wf(),
        final(project).distinct_keys(),
        automation_applied(*old(project), *final(project), lane_id, target, created_lane, old_point, new_point,
            reverse, pe),
{
    let found = position_where(&project.automation,
        |l: &AutomationLane| -> (b: bool) ensures b == (l.id == lane_id) { l.id == lane_id }, Ghost(lane_id_is(lane_id)));
    if reverse {
        if created_lane {
            retain_where(&mut project.automation,
                |l: &AutomationLane| -> (b: bool) ensures b == (l.id != lane_id) { l.id != lane_id },
                Ghost(lane_id_not(lane_id)));
            None
        } else {
            match found {
                None => None,
                Some(k) => Some(PointEdit { lane: k, remove_at: Some(new_point.beat), add: old_point }),
            }
        }
    } else {
        let remove_at = match old_point {
            Some(o) => Some(o.beat),
            None => None,
        };
        match found {
            Some(k) => Some(PointEdit { lane: k, remove_at, add: Some(new_point) }),
            None => {
                let lane = project.automation.len();
                let ghost ls0 = project.automation@;
                project.automation.push(AutomationLane { id: lane_id, target, points: Vec::new(), enabled: true });
                proof {
                    assert(lane_views(project.automation@) =~= lane_views(ls0).push(crate::project::LaneView {
                        id: lane_id, target, points: Seq::empty(), enabled: true }));
                }
                Some(PointEdit { lane, remove_at, add: Some(new_point) })
            },
        }
    }
}

/// Perform `cmd` on the project, forward, or backward (`reverse`) to undo
/// it. Returns the automation point edit left to the caller, if any.
pub fn apply(project: &mut Project, cmd: &Command, reverse: bool) -> (pe: Option<PointEdit>)
    requires
        old(project).distinct_keys(),
        room_for(*old(project), *cmd),
    ensures
        old(project).wf() ==> final(project).wf(),
        final(project).distinct_keys(),
        applied(*old(project), *final(project), *cmd, reverse, pe),
{
    match cmd {
        Command::AddTrack { track, nodes, edges } => {
            apply_add_track(project, track, nodes, edges, reverse);
            None
        },
        Command::RemoveTrack { track, clips, nodes, edges } => {
            apply_remove_track(project, track, clips, nodes, edges, reverse);
            None
        },
        Command::AddClip { clip } => {
            apply_clip_list(project, clip, reverse, true);
            None
        },
        Command::RemoveClip { clip } => {
            apply_clip_list(project, clip, !reverse, false);
            None
        },
        Command::MoveClip { clip_id, old_start, new_start, old_length, new_length } => {
            if reverse {
                apply_move_clip(project, *clip_id, *old_start, *old_length);
            } else {
                apply_move_clip(project, *clip_id, *new_start, *new_length);
            }
            None
        },
        Command::SetClipTrack { clip_id, old_track, new_track } => {
            apply_clip_track(project, *clip_id, if reverse { *old_track } else { *new_track });
            None
        },
        Command::AddNote { clip_id, note } => {
            apply_note_op(project, *clip_id, if reverse { NoteOp::Drop(note.id) } else { NoteOp::PushAbsent(*note) });
            None
        },
        Command::AddNotes { clip_id, notes } => {
            apply_note_op(project, *clip_id, if reverse { NoteOp::DropAll(notes) } else { NoteOp::PushAbsentAll(notes) });
            None
        },
        Command::RemoveNote { clip_id, note } => {
            apply_note_op(project, *clip_id, if reverse { NoteOp::Push(*note) } else { NoteOp::Drop(note.id) });
            None
        },
        Command::RemoveNotes { clip_id, notes } => {
            apply_note_op(project, *clip_id, if reverse { NoteOp::PushAbsentAll(notes) } else { NoteOp::DropAll(notes) });
            None
        },
        Command::EditNote { clip_id, note_id, before, after } => {
            apply_note_op(project, *clip_id, NoteOp::Edit(*note_id, if reverse { *before } else { *after }));
            None
        },
        Command::EditNotes { clip_id, before, after } => {
            apply_note_op(project, *clip_id, NoteOp::EditAll(if reverse { before } else { after }));
            None
        },
        Command::SetGainPan { node_id, old_gain, new_gain, old_pan, new_pan, old_mute, new_mute } => {
            if reverse {
                project.graph.set_gain_pan(*node_id, *old_gain, *old_pan, *old_mute);
            } else {
                project.graph.set_gain_pan(*node_id, *new_gain, *new_pan, *new_mute);
            }
            None
        },
        Command::Connect { edge } => {
            apply_edge(project, *edge, !reverse);
            None
        },
        Command::Disconnect { edge } => {
            apply_edge(project, *edge, reverse);
            None
        },
        Command::ConnectReplace { edge, replaced } => {
            apply_connect_replace(project, *edge, replaced, reverse);
            None
        },
        Command::AddNode { node } => {
            apply_add_node(project, node, reverse);
            None
        },
        Command::RemoveNode { node, edges, instrument_track, plugin_state } => {
            apply_remove_node(project, node, edges, *instrument_track, plugin_state, reverse);
            None
        },
        Command::SetTempo { old_bpm, new_bpm } => {
            project.tempo.bpm = if reverse { *old_bpm } else { *new_bpm };
            None
        },
        Command::SetTimeSignature { old_beats_per_bar, new_beats_per_bar, old_beat_unit, new_beat_unit } => {
            let bpb = if reverse { *old_beats_per_bar } else { *new_beats_per_bar };
            let unit = if reverse { *old_beat_unit } else { *new_beat_unit };
            project.tempo.beats_per_bar = if bpb < 1 { 1 } else { bpb };
            project.tempo.beat_unit = if unit < 1 { 1 } else { unit };
            None
        },
        Command::SetAutomationPoint { lane_id, target, created_lane, old_point, new_point } =>
            apply_automation(project, *lane_id, *target, *created_lane, *old_point, *new_point, reverse),
    }
}

// ---------------------------------------------------------------------------
// The undo/redo stack.

/// Default bound on the number of undoable commands kept.
pub const DEFAULT_MAX_DEPTH: usize = 256;

pub struct CommandStack {
    undo: Vec<Command>,
    redo: Vec<Command>,
    pub max_depth: usize,
    /// The automation point edit the last push, undo or redo left to the
    /// caller.
    point_edit: Option<PointEdit>,
}

/// Undo and redo lists after an undo: the last undoable command moves to
/// the redo list.
pub open spec fn undone(undo: Seq<Command>, redo: Seq<Command>) -> (Seq<Command>, Seq<Command>) {
    (undo.drop_last(), redo.push(undo.last()))
}

/// Undo and redo lists after a redo: the last undone command moves back.
pub open spec fn redone(undo: Seq<Command>, redo: Seq<Command>) -> (Seq<Command>, Seq<Command>) {
    (undo.push(redo.last()), redo.drop_last())
}

/// The undo list after recording `cmd`: appended, and the oldest entry
/// dropped when that makes the list longer than `max_depth`.
pub open spec fn recorded(undo: Seq<Command>, cmd: Command, max_depth: usize) -> Seq<Command> {
    if undo.len() + 1 > max_depth {
        undo.push(cmd).drop_first()
    } else {
        undo.push(cmd)
    }
}

/// What `push` of `cmd` does to project `p0` and stack `s0`, giving `p1`
/// and `s1`: the command applied forward (the project then stamped), the
/// command recorded and the redo list cleared.
pub open spec fn stack_pushed(p0: Project, s0: CommandStack, cmd: Command, p1: Project, s1: CommandStack) -> bool {
    &&& p0.wf() ==> p1.wf()
    &&& exists|q: Project| #[trigger] applied(p0, q, cmd, false, s1.pending()) && touched(q, p1)
    &&& s1.undo_seq() == recorded(s0.undo_seq(), cmd, s0.depth())
    &&& s1.redo_seq().len() == 0
    &&& s1.depth() == s0.depth()
}

/// What `undo` does to `p0` and `s0`, giving `p1`, `s1` and the result
/// `r`: the last undoable command applied backward and moved to the redo
/// list; nothing when there is none.
pub open spec fn stack_undone(p0: Project, s0: CommandStack, r: bool, p1: Project, s1: CommandStack) -> bool {
    &&& p0.wf() ==> p1.wf()
    &&& r == (s0.undo_seq().len() > 0)
    &&& !r ==> p1 == p0 && s1 == s0
    &&& r ==> {
        &&& (s1.undo_seq(), s1.redo_seq()) == undone(s0.undo_seq(), s0.redo_seq())
        &&& exists|q: Project| #[trigger] applied(p0, q, s0.undo_seq().last(), true, s1.pending())
            && touched(q, p1)
    }
    &&& s1.depth() == s0.depth()
}

/// What `redo` does to `p0` and `s0`, giving `p1`, `s1` and the result
/// `r`: the last undone command applied forward again and moved back to the
/// undo list; nothing when there is none.
pub open spec fn stack_redone(p0: Project, s0: CommandStack, r: bool, p1: Project, s1: CommandStack) -> bool {
    &&& p0.wf() ==> p1.wf()
    &&& r == (s0.redo_seq().len() > 0)
    &&& !r ==> p1 == p0 && s1 == s0
    &&& r ==> {
        &&& (s1.undo_seq(), s1.redo_seq()) == redone(s0.undo_seq(), s0.redo_seq())
        &&& exists|q: Project| #[trigger] applied(p0, q, s0.redo_seq().last(), false, s1.pending())
            && touched(q, p1)
    }
    &&& s1.depth() == s0.depth()
}

impl CommandStack {
    /// Commands that can be undone, oldest first.
    pub closed spec fn undo_seq(&self) -> Seq<Command> {
        self.undo@
    }

    /// Commands that can be redone, the next one last.
    pub closed spec fn redo_seq(&self) -> Seq<Command> {
        self.redo@
    }

    /// The bound on the undo list (`max_depth`).
    pub closed spec fn depth(&self) -> usize {
        self.max_depth
    }

    /// The point edit left to the caller by the last push, undo or redo.
    pub closed spec fn pending(&self) -> Option<PointEdit> {
        self.point_edit
    }

    pub fn default() -> (s: CommandStack)
        ensures
            s.undo_seq().len() == 0,
            s.redo_seq().len() == 0,
            s.depth() == DEFAULT_MAX_DEPTH,
            s.pending() is None,
    {
        CommandStack { undo: Vec::new(), redo: Vec::new(), max_depth: DEFAULT_MAX_DEPTH, point_edit: None }
    }

    /// Apply `cmd` to the project, record it, and stamp the project.
    pub fn push(&mut self, project: &mut Project, cmd: Command)
        requires
            old(project).distinct_keys(),
            room_for(*old(project), cmd),
        ensures
            stack_pushed(*old(project), *old(self), cmd, *final(project), *final(self)),
    {
        let pe = apply(project, &cmd, false);
        let ghost p1 = *project;
        self.record(cmd);
        self.point_edit = pe;
        project.touch();
        proof {
            assert(applied(*old(project), p1, cmd, false, self.pending()));
        }
    }

    /// Record a command that was already applied to the project (for undo).
    pub fn record(&mut self, cmd: Command)
        ensures
            final(self).undo_seq() == recorded(old(self).undo_seq(), cmd, old(self).depth()),
            final(self).redo_seq().len() == 0,
            final(self).depth() == old(self).depth(),
            final(self).pending() == old(self).pending(),
    {
        let ghost u = self.undo@;
        self.undo.push(cmd);
        if self.undo.len() > self.max_depth {
            self.undo.remove(0);
            proof {
                assert(self.undo@ =~= u.push(cmd).drop_first());
            }
        }
        self.redo.clear();
    }

    /// Undo the last command: apply it backward, move it to the redo list
    /// and stamp the project. False, with nothing changed, when there is
    /// nothing to undo.
    pub fn undo(&mut self, project: &mut Project) -> (r: bool)
        requires
            old(project).distinct_keys(),
            old(self).undo_seq().len() > 0 ==> room_for(*old(project), old(self).undo_seq().last()),
        ensures
            stack_undone(*old(project), *old(self), r, *final(project), *final(self)),
    {
        if self.undo.len() == 0 {
            return false;
        }
        let cmd = self.undo.pop().unwrap();
        let pe = apply(project, &cmd, true);
        let ghost p1 = *project;
        self.point_edit = pe;
        self.redo.push(cmd);
        project.touch();
        proof {
            assert(applied(*old(project), p1, old(self).undo_seq().last(), true, self.pending()));
        }
        true
    }

    /// Redo the last undone command: apply it forward, move it back to the
    /// undo list and stamp the project. False, with nothing changed, when
    /// there is nothing to redo.
    pub fn redo(&mut self, project: &mut Project) -> (r: bool)
        requires
            old(project).distinct_keys(),
            old(self).redo_seq().len() > 0 ==> room_for(*old(project), old(self).redo_seq().last()),
        ensures
            stack_redone(*old(project), *old(self), r, *final(project), *final(self)),
    {
        if self.redo.len() == 0 {
            return false;
        }
        let cmd = self.redo.pop().unwrap();
        let pe = apply(project, &cmd, false);
        let ghost p1 = *project;
        self.point_edit = pe;
        self.undo.push(cmd);
        project.touch();
        proof {
            assert(applied(*old(project), p1, old(self).redo_seq().last(), false, self.pending()));
        }
        true
    }

    pub fn can_undo(&self) -> (r: bool)
        ensures
            r == (self.undo_seq().len() > 0),
    {
        self.undo.len() > 0
    }

    pub fn can_redo(&self) -> (r: bool)
        ensures
            r == (self.redo_seq().len() > 0),
    {
        self.redo.len() > 0
    }

    /// Take the automation point edit the last push, undo or redo left to
    /// the caller.
    pub fn take_point_edit(&mut self) -> (r: Option<PointEdit>)
        ensures
            r == old(self).pending(),
            final(self).pending() is None,
            final(self).undo_seq() == old(self).undo_seq(),
            final(self).redo_seq() == old(self).redo_seq(),
            final(self).depth() == old(self).depth(),
    {
        let r = self.point_edit;
        self.point_edit = None;
        r
    }
}

// ---------------------------------------------------------------------------
// Laws of the stack and of undoing.

/// Undoing and then redoing leaves both lists as they were.
pub proof fn law_undo_then_redo(undo: Seq<Command>, redo: Seq<Command>)
    requires
        undo.len() > 0,
    ensures
        redone(undone(undo, redo).0, undone(undo, redo).1) == (undo, redo),
{
    assert(undo.drop_last().push(undo.last()) =~= undo);
    assert(redo.push(undo.last()).drop_last() =~= redo);
}

/// Redoing and then undoing leaves both lists as they were.
pub proof fn law_redo_then_undo(undo: Seq<Command>, redo: Seq<Command>)
    requires
        redo.len() > 0,
    ensures
        undone(redone(undo, redo).0, redone(undo, redo).1) == (undo, redo),
{
    assert(undo.push(redo.last()).drop_last() =~= undo);
    assert(redo.drop_last().push(redo.last()) =~= redo);
}

/// `p` with its modification time set to `t`.
pub open spec fn stamped(p: Project, t: u64) -> Project {
    Project { meta: crate::project::ProjectMeta { modified_unix_ms: t, ..p.meta }, ..p }
}

/// What a command does does not depend on the modification time.
proof fn lemma_applied_stamped(p: Project, q: Project, cmd: Command, reverse: bool, pe: Option<PointEdit>, t: u64)
    requires
        applied(p, q, cmd, reverse, pe),
    ensures
        applied(stamped(p, t), stamped(q, t), cmd, reverse, pe),
{
    let (sp, sq) = (stamped(p, t), stamped(q, t));
    assert(sp.clips == p.clips && sp.tracks == p.tracks && sp.graph == p.graph && sp.automation == p.automation);
    assert(sq.clips == q.clips && sq.tracks == q.tracks && sq.graph == q.graph && sq.automation == q.automation);
    assert(sp.plugin_states == p.plugin_states && sq.plugin_states == q.plugin_states);
    assert(sp.tempo == p.tempo && sq.tempo == q.tempo);
    match cmd {
        Command::AddTrack { .. } => {},
        Command::RemoveTrack { .. } => {},
        Command::AddClip { .. } => {},
        Command::RemoveClip { .. } => {},
        Command::MoveClip { .. } => {},
        Command::SetClipTrack { .. } => {},
        Command::AddNote { .. } => {},
        Command::AddNotes { .. } => {},
        Command::RemoveNote { .. } => {},
        Command::RemoveNotes { .. } => {},
        Command::EditNote { .. } => {},
        Command::EditNotes { .. } => {},
        Command::SetGainPan { .. } => {},
        Command::Connect { .. } => {},
        Command::Disconnect { .. } => {},
        Command::ConnectReplace { .. } => {},
        Command::AddNode { .. } => {},
        Command::RemoveNode { .. } => {},
        Command::SetTempo { .. } => {},
        Command::SetTimeSignature { .. } => {},
        Command::SetAutomationPoint { .. } => {},
    }
}

/// Undoing right after a push undoes the pushed command: it then waits
/// alone on the redo list, the undo list is as before the push (when the
/// push dropped nothing), and the project is what applying the command
/// forward and then backward to the starting project gives, but for the
/// modification time.
pub proof fn law_push_then_undo(p0: Project, s0: CommandStack, cmd: Command, p1: Project, s1: CommandStack, r: bool,
    p2: Project, s2: CommandStack)
    requires
        s0.depth() > 0,
        stack_pushed(p0, s0, cmd, p1, s1),
        stack_undone(p1, s1, r, p2, s2),
    ensures
        r,
        s2.redo_seq() == seq![cmd],
        s0.undo_seq().len() < s0.depth() ==> s2.undo_seq() == s0.undo_seq(),
        exists|q1: Project, q2: Project, e1: Option<PointEdit>, e2: Option<PointEdit>|
            #[trigger] applied(p0, q1, cmd, false, e1) && #[trigger] applied(q1, q2, cmd, true, e2) && touched(q2, p2),
{
    let q1 = choose|q: Project| #[trigger] applied(p0, q, cmd, false, s1.pending()) && touched(q, p1);
    assert(s1.undo_seq().last() == cmd);
    let q2 = choose|q: Project| #[trigger] applied(p1, q, cmd, true, s2.pending()) && touched(q, p2);
    let t = q1.meta.modified_unix_ms;
    lemma_applied_stamped(p1, q2, cmd, true, s2.pending(), t);
    assert(stamped(p1, t) == q1);
    assert(touched(stamped(q2, t), p2));
    assert(applied(q1, stamped(q2, t), cmd, true, s2.pending()));
    assert(s2.redo_seq() =~= seq![cmd]);
    if s0.undo_seq().len() < s0.depth() {
        assert(s0.undo_seq().push(cmd).drop_last() =~= s0.undo_seq());
    }
}

/// Redoing right after that undo puts the command back on the undo list,
/// empties the redo list again, and applies the command forward to the
/// undone project.
pub proof fn law_undo_then_redo_stack(p0: Project, s0: CommandStack, cmd: Command, p1: Project, s1: CommandStack,
    r2: bool, p2: Project, s2: CommandStack, r3: bool, p3: Project, s3: CommandStack)
    requires
        s0.depth() > 0,
        stack_pushed(p0, s0, cmd, p1, s1),
        stack_undone(p1, s1, r2, p2, s2),
        stack_redone(p2, s2, r3, p3, s3),
    ensures
        r2 && r3,
        s3.undo_seq() == s1.undo_seq(),
        s3.redo_seq() == s1.redo_seq(),
        exists|q3: Project, e3: Option<PointEdit>| #[trigger] applied(p2, q3, cmd, false, e3) && touched(q3, p3),
{
    law_push_then_undo(p0, s0, cmd, p1, s1, r2, p2, s2);
    assert(s2.redo_seq().last() == cmd);
    assert(s1.undo_seq().len() > 0);
    assert(s1.undo_seq().drop_last().push(cmd) =~= s1.undo_seq());
    assert(s3.redo_seq() =~= s1.redo_seq());
}

/// Adding a clip whose id is new through the stack, undoing and redoing:
/// the undo gives back the clips, tracks and graph from before the push and
/// allows a redo; the redo gives back the clips (by their views), tracks
/// and graph from after the push and allows an undo.
pub proof fn law_clip_push_undo_redo(p0: Project, s0: CommandStack, clip: Clip, p1: Project, s1: CommandStack,
    r2: bool, p2: Project, s2: CommandStack, r3: bool, p3: Project, s3: CommandStack)
    requires
        s0.depth() > 0,
        first_where(p0.clips@, clip_id_is(clip.id)) == -1,
        stack_pushed(p0, s0, Command::AddClip { clip }, p1, s1),
        stack_undone(p1, s1, r2, p2, s2),
        stack_redone(p2, s2, r3, p3, s3),
    ensures
        r2 && r3,
        p2.clips@ == p0.clips@,
        p2.tracks == p0.tracks,
        p2.graph == p0.graph,
        s2.redo_seq().len() > 0,
        clip_views(p3.clips@) == clip_views(p1.clips@),
        p3.tracks == p1.tracks,
        p3.graph == p1.graph,
        s3.undo_seq().len() > 0,
{
    let cmd = Command::AddClip { clip };
    law_undo_then_redo_stack(p0, s0, cmd, p1, s1, r2, p2, s2, r3, p3, s3);
    let q1 = choose|q: Project| #[trigger] applied(p0, q, cmd, false, s1.pending()) && touched(q, p1);
    let q2 = choose|q: Project| #[trigger] applied(p1, q, cmd, true, s2.pending()) && touched(q, p2);
    let q3 = choose|q: Project| #[trigger] applied(p2, q, cmd, false, s3.pending()) && touched(q, p3);
    let cs0 = p0.clips@;
    lemma_first_where(cs0, clip_id_is(clip.id));
    assert(p1.clips@ =~= cs0.push(p1.clips@.last()));
    cs0.lemma_filter_push(p1.clips@.last(), clip_id_not(clip.id));
    lemma_filter_all(cs0, clip_id_not(clip.id));
    assert(p2.clips@ == cs0);
    assert(p3.clips@ =~= cs0.push(p3.clips@.last()));
    assert(clip_views(p3.clips@) =~= clip_views(p1.clips@));
    assert(s3.undo_seq().len() > 0);
}

/// Recording keeps the undo list within `max_depth` and, when anything is
/// kept, puts the recorded command on top, so the next undo undoes it.
pub proof fn law_record_depth(undo: Seq<Command>, cmd: Command, max_depth: usize)
    requires
        undo.len() <= max_depth,
    ensures
        recorded(undo, cmd, max_depth).len() <= max_depth,
        max_depth > 0 ==> recorded(undo, cmd, max_depth).last() == cmd,
{
}

proof fn lemma_filter_all<T>(s: Seq<T>, p: spec_fn(T) -> bool)
    requires
        forall|i: int| 0 <= i < s.len() ==> p(#[trigger] s[i]),
    ensures
        s.filter(p) == s,
    decreases s.len(),
{
    reveal(Seq::filter);
    if s.len() > 0 {
        lemma_filter_all(s.drop_last(), p);
        assert(s.drop_last().push(s.last()) =~= s);
    }
}

/// `first_where` looks only at where `p` holds.
proof fn lemma_first_where_same<T>(s: Seq<T>, t: Seq<T>, p: spec_fn(T) -> bool)
    requires
        s.len() == t.len(),
        forall|i: int| 0 <= i < s.len() ==> p(#[trigger] s[i]) == p(t[i]),
    ensures
        first_where(s, p) == first_where(t, p),
    decreases s.len(),
{
    if s.len() > 0 {
        assert forall|i: int| 0 <= i < s.len() - 1 implies p(#[trigger] s.drop_last()[i]) == p(t.drop_last()[i]) by {
            assert(s.drop_last()[i] == s[i] && t.drop_last()[i] == t[i]);
        }
        lemma_first_where_same(s.drop_last(), t.drop_last(), p);
    }
}

/// Setting the tempo and undoing it restores the project, when the command
/// recorded the tempo it replaced.
pub proof fn law_tempo_undo(p0: Project, p1: Project, p2: Project, new_bpm: u64, pe1: Option<PointEdit>,
    pe2: Option<PointEdit>)
    requires
        applied(p0, p1, Command::SetTempo { old_bpm: p0.tempo.bpm, new_bpm }, false, pe1),
        applied(p1, p2, Command::SetTempo { old_bpm: p0.tempo.bpm, new_bpm }, true, pe2),
    ensures
        p2 == p0,
{
}

/// Setting the time signature and undoing it restores the project, when the
/// command recorded the signature it replaced (whose parts are at least 1).
pub proof fn law_time_signature_undo(p0: Project, p1: Project, p2: Project, new_beats_per_bar: u32,
    new_beat_unit: u32, pe1: Option<PointEdit>, pe2: Option<PointEdit>)
    requires
        p0.tempo.beats_per_bar >= 1,
        p0.tempo.beat_unit >= 1,
        applied(p0, p1, Command::SetTimeSignature { old_beats_per_bar: p0.tempo.beats_per_bar, new_beats_per_bar,
            old_beat_unit: p0.tempo.beat_unit, new_beat_unit }, false, pe1),
        applied(p1, p2, Command::SetTimeSignature { old_beats_per_bar: p0.tempo.beats_per_bar, new_beats_per_bar,
            old_beat_unit: p0.tempo.beat_unit, new_beat_unit }, true, pe2),
    ensures
        p2 == p0,
{
}

/// Moving a clip and undoing the move gives back the same clips, when the
/// command recorded the clip's start and length.
pub proof fn law_move_clip_undo(p0: Project, p1: Project, p2: Project, clip_id: ClipId, old_start: u64,
    new_start: u64, old_length: u64, new_length: u64, pe1: Option<PointEdit>, pe2: Option<PointEdit>)
    requires
        first_where(p0.clips@, clip_id_is(clip_id)) >= 0 ==> ({
            let c = p0.clips@[first_where(p0.clips@, clip_id_is(clip_id))];
            c.start_beats == old_start && c.length_beats == old_length
        }),
        applied(p0, p1, Command::MoveClip { clip_id, old_start, new_start, old_length, new_length }, false, pe1),
        applied(p1, p2, Command::MoveClip { clip_id, old_start, new_start, old_length, new_length }, true, pe2),
    ensures
        kept_but(p0, p2, true, false, true, true, true, true),
        p2.clips@ == p0.clips@,
{
    let k = first_where(p0.clips@, clip_id_is(clip_id));
    lemma_first_where(p0.clips@, clip_id_is(clip_id));
    if k >= 0 {
        lemma_first_where_same(p0.clips@, p1.clips@, clip_id_is(clip_id));
        assert(p2.clips@ =~= p0.clips@);
    } else {
        assert(p1.clips == p0.clips);
    }
}

/// Moving a clip to another track and undoing it gives back the same
/// clips, when the command recorded the clip's track.
pub proof fn law_clip_track_undo(p0: Project, p1: Project, p2: Project, clip_id: ClipId, old_track: TrackId,
    new_track: TrackId, pe1: Option<PointEdit>, pe2: Option<PointEdit>)
    requires
        first_where(p0.clips@, clip_id_is(clip_id)) >= 0
            ==> p0.clips@[first_where(p0.clips@, clip_id_is(clip_id))].track_id == old_track,
        applied(p0, p1, Command::SetClipTrack { clip_id, old_track, new_track }, false, pe1),
        applied(p1, p2, Command::SetClipTrack { clip_id, old_track, new_track }, true, pe2),
    ensures
        kept_but(p0, p2, true, false, true, true, true, true),
        p2.clips@ == p0.clips@,
{
    let k = first_where(p0.clips@, clip_id_is(clip_id));
    lemma_first_where(p0.clips@, clip_id_is(clip_id));
    if k >= 0 {
        lemma_first_where_same(p0.clips@, p1.clips@, clip_id_is(clip_id));
        assert(p2.clips@ =~= p0.clips@);
    } else {
        assert(p1.clips == p0.clips);
    }
}

/// Adding a clip whose id is new and undoing it gives back the same clips.
pub proof fn law_add_clip_undo(p0: Project, p1: Project, p2: Project, clip: Clip, pe1: Option<PointEdit>,
    pe2: Option<PointEdit>)
    requires
        first_where(p0.clips@, clip_id_is(clip.id)) == -1,
        applied(p0, p1, Command::AddClip { clip }, false, pe1),
        applied(p1, p2, Command::AddClip { clip }, true, pe2),
    ensures
        kept_but(p0, p2, true, false, true, true, true, true),
        p2.clips@ == p0.clips@,
{
    lemma_first_where(p0.clips@, clip_id_is(clip.id));
    assert(p1.clips@ =~= p0.clips@.push(p1.clips@.last()));
    p0.clips@.lemma_filter_push(p1.clips@.last(), clip_id_not(clip.id));
    lemma_filter_all(p0.clips@, clip_id_not(clip.id));
}

/// Removing a clip and undoing it gives back the other clips followed by
/// the removed clip; so when it was the last clip and the only one with its
/// id, the clips come back as they were.
pub proof fn law_remove_clip_undo(p0: Project, p1: Project, p2: Project, clip: Clip, pe1: Option<PointEdit>,
    pe2: Option<PointEdit>)
    requires
        applied(p0, p1, Command::RemoveClip { clip }, false, pe1),
        applied(p1, p2, Command::RemoveClip { clip }, true, pe2),
    ensures
        kept_but(p0, p2, true, false, true, true, true, true),
        clip_views(p2.clips@) == clip_views(p0.clips@.filter(clip_id_not(clip.id))).push(clip@),
        (p0.clips@.len() > 0 && p0.clips@.last()@ == clip@
            && first_where(p0.clips@, clip_id_is(clip.id)) == p0.clips@.len() - 1)
            ==> clip_views(p2.clips@) == clip_views(p0.clips@),
{
    let cs0 = p0.clips@;
    let rest = cs0.filter(clip_id_not(clip.id));
    assert(p2.clips@ =~= rest.push(p2.clips@.last()));
    assert(clip_views(p2.clips@) =~= clip_views(rest).push(clip@));
    if cs0.len() > 0 && cs0.last()@ == clip@ && first_where(cs0, clip_id_is(clip.id)) == cs0.len() - 1 {
        let front = cs0.drop_last();
        lemma_first_where(cs0, clip_id_is(clip.id));
        assert forall|i: int| 0 <= i < front.len() implies clip_id_not(clip.id)(#[trigger] front[i]) by {
            assert(front[i] == cs0[i]);
        }
        lemma_filter_all(front, clip_id_not(clip.id));
        assert(cs0.last().id == clip.id);
        front.lemma_filter_push(cs0.last(), clip_id_not(clip.id));
        assert(front.push(cs0.last()) =~= cs0);
        assert(clip_views(p2.clips@) =~= clip_views(cs0));
    }
}

/// Adding a note that its clip does not have and undoing it gives back
/// the same clips.
pub proof fn law_add_note_undo(p0: Project, p1: Project, p2: Project, clip_id: ClipId, note: MidiNote,
    pe1: Option<PointEdit>, pe2: Option<PointEdit>)
    requires
        clip_notes(p0.clips@, clip_id) matches Some(ns) ==> first_where(ns, note_id_is(note.id)) == -1,
        applied(p0, p1, Command::AddNote { clip_id, note }, false, pe1),
        applied(p1, p2, Command::AddNote { clip_id, note }, true, pe2),
    ensures
        kept_but(p0, p2, true, false, true, true, true, true),
        clip_views(p2.clips@) == clip_views(p0.clips@),
{
    if let Some(ns) = clip_notes(p0.clips@, clip_id) {
        let k = first_where(p0.clips@, clip_id_is(clip_id));
        lemma_first_where(p0.clips@, clip_id_is(clip_id));
        assert forall|i: int| 0 <= i < p0.clips@.len() implies
            clip_id_is(clip_id)(#[trigger] p0.clips@[i]) == clip_id_is(clip_id)(p1.clips@[i]) by {
            if i == k {
                assert(p1.clips@[i]@.id == p0.clips@[i]@.id);
            }
        }
        lemma_first_where_same(p0.clips@, p1.clips@, clip_id_is(clip_id));
        let ns1 = push_absent(ns, note);
        assert(ns1 == ns.push(note));
        assert(clip_notes(p1.clips@, clip_id) == Some(ns1));
        lemma_first_where(ns, note_id_is(note.id));
        ns.lemma_filter_push(note, note_id_not(note.id));
        lemma_filter_all(ns, note_id_not(note.id));
        assert(ns1.filter(note_id_not(note.id)) == ns);
        assert(p2.clips@[k]@ == p0.clips@[k]@);
        assert(clip_views(p2.clips@) =~= clip_views(p0.clips@));
    }
}

/// Editing a note and undoing the edit gives back the same clips, when the
/// command recorded the note as it was and the edit keeps its id.
pub proof fn law_edit_note_undo(p0: Project, p1: Project, p2: Project, clip_id: ClipId, note_id: NoteId,
    before: MidiNote, after: MidiNote, pe1: Option<PointEdit>, pe2: Option<PointEdit>)
    requires
        after.id == note_id,
        clip_notes(p0.clips@, clip_id) matches Some(ns) ==> (first_where(ns, note_id_is(note_id)) >= 0
            ==> ns[first_where(ns, note_id_is(note_id))] == before),
        applied(p0, p1, Command::EditNote { clip_id, note_id, before, after }, false, pe1),
        applied(p1, p2, Command::EditNote { clip_id, note_id, before, after }, true, pe2),
    ensures
        kept_but(p0, p2, true, false, true, true, true, true),
        clip_views(p2.clips@) == clip_views(p0.clips@),
{
    if let Some(ns) = clip_notes(p0.clips@, clip_id) {
        let k = first_where(p0.clips@, clip_id_is(clip_id));
        lemma_first_where(p0.clips@, clip_id_is(clip_id));
        assert forall|i: int| 0 <= i < p0.clips@.len() implies
            clip_id_is(clip_id)(#[trigger] p0.clips@[i]) == clip_id_is(clip_id)(p1.clips@[i]) by {
            if i == k {
                assert(p1.clips@[i]@.id == p0.clips@[i]@.id);
            }
        }
        lemma_first_where_same(p0.clips@, p1.clips@, clip_id_is(clip_id));
        let ns1 = edit_first(ns, note_id, after);
        assert(clip_notes(p1.clips@, clip_id) == Some(ns1));
        let j = first_where(ns, note_id_is(note_id));
        lemma_first_where(ns, note_id_is(note_id));
        if j >= 0 {
            assert forall|i: int| 0 <= i < ns.len() implies
                note_id_is(note_id)(#[trigger] ns[i]) == note_id_is(note_id)(ns1[i]) by {}
            lemma_first_where_same(ns, ns1, note_id_is(note_id));
            assert(edit_first(ns1, note_id, before) =~= ns);
        }
        assert(p2.clips@[k]@ == p0.clips@[k]@);
        assert(clip_views(p2.clips@) =~= clip_views(p0.clips@));
    }
}

/// No edge of a well-formed graph touches a node it does not have.
proof fn lemma_retain_untouched(g: AudioGraph, id: NodeId)
    requires
        g.wf(),
        !g.has_node(id),
    ensures
        retain_edges(g.edge_seq(), edge_filter(EdgeFilter::NotTouching(id))) == g.edge_seq(),
{
    lemma_retain_all(g.edge_seq(), edge_filter(EdgeFilter::NotTouching(id)));
}

proof fn lemma_retain_all(es: Seq<(EdgeId, GraphEdge)>, keep: spec_fn(GraphEdge) -> bool)
    requires
        forall|i: int| 0 <= i < es.len() ==> keep(#[trigger] es[i].1),
    ensures
        retain_edges(es, keep) == es,
    decreases es.len(),
{
    if es.len() > 0 {
        lemma_retain_all(es.drop_last(), keep);
        assert(es.drop_last().push(es.last()) =~= es);
    }
}

/// A note edit `f` and then `g` on the same clip: the clip's notes become
/// `g(f(notes))`, and nothing else changes.
proof fn lemma_notes_compose(p0: Project, p1: Project, p2: Project, clip_id: ClipId,
    f: spec_fn(Seq<MidiNote>) -> Seq<MidiNote>, g: spec_fn(Seq<MidiNote>) -> Seq<MidiNote>)
    requires
        notes_applied(p0, p1, clip_id, f),
        notes_applied(p1, p2, clip_id, g),
    ensures
        kept_but(p0, p2, true, false, true, true, true, true),
        match clip_notes(p0.clips@, clip_id) {
            Some(ns) => clip_notes_set(p0.clips@, p2.clips@, clip_id, g(f(ns))),
            None => p2.clips == p0.clips,
        },
{
    if let Some(ns) = clip_notes(p0.clips@, clip_id) {
        let k = first_where(p0.clips@, clip_id_is(clip_id));
        lemma_first_where(p0.clips@, clip_id_is(clip_id));
        assert forall|i: int| 0 <= i < p0.clips@.len() implies
            clip_id_is(clip_id)(#[trigger] p0.clips@[i]) == clip_id_is(clip_id)(p1.clips@[i]) by {
            if i == k {
                assert(p1.clips@[i]@.id == p0.clips@[i]@.id);
            }
        }
        lemma_first_where_same(p0.clips@, p1.clips@, clip_id_is(clip_id));
        assert(clip_notes(p1.clips@, clip_id) == Some(f(ns)));
    }
}

/// A note edit `f` and then `g` on the same clip: when `g` undoes `f` on
/// the clip's notes, the clips come back as they were.
proof fn lemma_notes_roundtrip(p0: Project, p1: Project, p2: Project, clip_id: ClipId,
    f: spec_fn(Seq<MidiNote>) -> Seq<MidiNote>, g: spec_fn(Seq<MidiNote>) -> Seq<MidiNote>)
    requires
        notes_applied(p0, p1, clip_id, f),
        notes_applied(p1, p2, clip_id, g),
        clip_notes(p0.clips@, clip_id) matches Some(ns) ==> g(f(ns)) == ns,
    ensures
        kept_but(p0, p2, true, false, true, true, true, true),
        clip_views(p2.clips@) == clip_views(p0.clips@),
{
    lemma_notes_compose(p0, p1, p2, clip_id, f, g);
    if let Some(ns) = clip_notes(p0.clips@, clip_id) {
        let k = first_where(p0.clips@, clip_id_is(clip_id));
        assert(p2.clips@[k]@ == p0.clips@[k]@);
    }
    assert(clip_views(p2.clips@) =~= clip_views(p0.clips@));
}

/// `push_absent` of notes whose ids are new, and distinct, appends them all.
proof fn lemma_push_absent_all_fresh(ns: Seq<MidiNote>, added: Seq<MidiNote>)
    requires
        forall|i: int, j: int| 0 <= i < ns.len() && 0 <= j < added.len() ==> #[trigger] ns[i].id != #[trigger] added[j].id,
        forall|i: int, j: int| 0 <= i < j < added.len() ==> #[trigger] added[i].id != #[trigger] added[j].id,
    ensures
        push_absent_all(ns, added) == ns + added,
    decreases added.len(),
{
    if added.len() > 0 {
        let front = added.drop_last();
        let last = added.last();
        assert forall|i: int, j: int| 0 <= i < ns.len() && 0 <= j < front.len()
            implies #[trigger] ns[i].id != #[trigger] front[j].id by {
            assert(front[j] == added[j]);
        }
        assert forall|i: int, j: int| 0 <= i < j < front.len() implies #[trigger] front[i].id != #[trigger] front[j].id by {
            assert(front[i] == added[i] && front[j] == added[j]);
        }
        lemma_push_absent_all_fresh(ns, front);
        let s = ns + front;
        lemma_first_where(s, note_id_is(last.id));
        if first_where(s, note_id_is(last.id)) >= 0 {
            let m = first_where(s, note_id_is(last.id));
            if m < ns.len() {
                assert(s[m] == ns[m]);
                assert(ns[m].id != added[added.len() - 1].id);
            } else {
                assert(s[m] == added[m - ns.len()]);
                assert(added[m - ns.len()].id != added[added.len() - 1].id);
            }
        }
        assert(s.push(last) =~= ns + added);
    }
}

/// Removing a note and undoing it gives back the clip's other notes
/// followed by the removed note; so when it was the clip's last note and
/// the only one with its id, the clips come back as they were.
pub proof fn law_remove_note_undo(p0: Project, p1: Project, p2: Project, clip_id: ClipId, note: MidiNote,
    pe1: Option<PointEdit>, pe2: Option<PointEdit>)
    requires
        applied(p0, p1, Command::RemoveNote { clip_id, note }, false, pe1),
        applied(p1, p2, Command::RemoveNote { clip_id, note }, true, pe2),
    ensures
        kept_but(p0, p2, true, false, true, true, true, true),
        match clip_notes(p0.clips@, clip_id) {
            Some(ns) => clip_notes_set(p0.clips@, p2.clips@, clip_id, ns.filter(note_id_not(note.id)).push(note)),
            None => p2.clips == p0.clips,
        },
        (clip_notes(p0.clips@, clip_id) matches Some(ns) && ns.len() > 0 && ns.last() == note
            && first_where(ns, note_id_is(note.id)) == ns.len() - 1)
            ==> clip_views(p2.clips@) == clip_views(p0.clips@),
{
    let f = notes_filtered(note_id_not(note.id));
    let g = notes_pushed(note);
    lemma_notes_compose(p0, p1, p2, clip_id, f, g);
    if let Some(ns) = clip_notes(p0.clips@, clip_id) {
        if ns.len() > 0 && ns.last() == note && first_where(ns, note_id_is(note.id)) == ns.len() - 1 {
            let front = ns.drop_last();
            lemma_first_where(ns, note_id_is(note.id));
            assert forall|i: int| 0 <= i < front.len() implies note_id_not(note.id)(#[trigger] front[i]) by {
                assert(front[i] == ns[i]);
            }
            lemma_filter_all(front, note_id_not(note.id));
            front.lemma_filter_push(note, note_id_not(note.id));
            assert(front.push(note) =~= ns);
            lemma_notes_roundtrip(p0, p1, p2, clip_id, f, g);
        }
    }
}

/// Removing a group of notes with distinct ids and undoing it gives back
/// the clip's other notes followed by the removed notes, in the order the
/// command lists them.
pub proof fn law_remove_notes_undo(p0: Project, p1: Project, p2: Project, clip_id: ClipId, notes: Vec<MidiNote>,
    pe1: Option<PointEdit>, pe2: Option<PointEdit>)
    requires
        forall|i: int, j: int| 0 <= i < j < notes@.len() ==> #[trigger] notes@[i].id != #[trigger] notes@[j].id,
        applied(p0, p1, Command::RemoveNotes { clip_id, notes }, false, pe1),
        applied(p1, p2, Command::RemoveNotes { clip_id, notes }, true, pe2),
    ensures
        kept_but(p0, p2, true, false, true, true, true, true),
        match clip_notes(p0.clips@, clip_id) {
            Some(ns) => clip_notes_set(p0.clips@, p2.clips@, clip_id, ns.filter(note_id_not_in(notes@)) + notes@),
            None => p2.clips == p0.clips,
        },
{
    let removed = notes@;
    let keep = note_id_not_in(removed);
    lemma_notes_compose(p0, p1, p2, clip_id, notes_filtered(keep), notes_pushed_absent_all(removed));
    if let Some(ns) = clip_notes(p0.clips@, clip_id) {
        let rest = ns.filter(keep);
        assert forall|i: int, j: int| 0 <= i < rest.len() && 0 <= j < removed.len()
            implies #[trigger] rest[i].id != #[trigger] removed[j].id by {
            ns.lemma_filter_pred(keep, i);
            lemma_first_where(removed, note_id_is(rest[i].id));
        }
        lemma_push_absent_all_fresh(rest, removed);
    }
}

/// `push_absent` of notes that the filter drops leaves the filtered list
/// as it was.
proof fn lemma_push_absent_all_filtered(ns: Seq<MidiNote>, added: Seq<MidiNote>, p: spec_fn(MidiNote) -> bool)
    requires
        forall|i: int| 0 <= i < added.len() ==> !p(#[trigger] added[i]),
    ensures
        push_absent_all(ns, added).filter(p) == ns.filter(p),
    decreases added.len(),
{
    if added.len() > 0 {
        let front = added.drop_last();
        assert forall|i: int| 0 <= i < front.len() implies !p(#[trigger] front[i]) by {
            assert(front[i] == added[i]);
        }
        lemma_push_absent_all_filtered(ns, front, p);
        let s = push_absent_all(ns, front);
        assert(!p(added[added.len() - 1]));
        s.lemma_filter_push(added.last(), p);
    }
}

/// Adding a group of notes (a chord) whose ids the clip does not have and
/// undoing it gives back the same clips.
pub proof fn law_add_notes_undo(p0: Project, p1: Project, p2: Project, clip_id: ClipId, notes: Vec<MidiNote>,
    pe1: Option<PointEdit>, pe2: Option<PointEdit>)
    requires
        clip_notes(p0.clips@, clip_id) matches Some(ns) ==> forall|i: int, j: int|
            0 <= i < ns.len() && 0 <= j < notes@.len() ==> #[trigger] ns[i].id != #[trigger] notes@[j].id,
        applied(p0, p1, Command::AddNotes { clip_id, notes }, false, pe1),
        applied(p1, p2, Command::AddNotes { clip_id, notes }, true, pe2),
    ensures
        kept_but(p0, p2, true, false, true, true, true, true),
        clip_views(p2.clips@) == clip_views(p0.clips@),
{
    let added = notes@;
    let keep = note_id_not_in(added);
    if let Some(ns) = clip_notes(p0.clips@, clip_id) {
        assert forall|i: int| 0 <= i < added.len() implies !keep(#[trigger] added[i]) by {
            lemma_first_where(added, note_id_is(added[i].id));
        }
        lemma_push_absent_all_filtered(ns, added, keep);
        assert forall|i: int| 0 <= i < ns.len() implies keep(#[trigger] ns[i]) by {
            lemma_first_where(added, note_id_is(ns[i].id));
            if first_where(added, note_id_is(ns[i].id)) >= 0 {
                let j = first_where(added, note_id_is(ns[i].id));
                assert(ns[i].id != added[j].id);
            }
        }
        lemma_filter_all(ns, keep);
    }
    lemma_notes_roundtrip(p0, p1, p2, clip_id, notes_pushed_absent_all(added), notes_filtered(keep));
}

/// Some note of `source` edits position `i` of `ns`: `i` is where the first
/// note with its id stands.
spec fn edited_at(ns: Seq<MidiNote>, source: Seq<MidiNote>, i: int) -> bool {
    exists|j: int| 0 <= j < source.len() && first_where(ns, note_id_is(#[trigger] source[j].id)) == i
}

/// Notes with the same ids, position by position, are found at the same
/// positions.
proof fn lemma_same_ids_first_where(ns: Seq<MidiNote>, ms: Seq<MidiNote>, id: NoteId)
    requires
        ms.len() == ns.len(),
        forall|i: int| 0 <= i < ns.len() ==> (#[trigger] ms[i]).id == ns[i].id,
    ensures
        first_where(ms, note_id_is(id)) == first_where(ns, note_id_is(id)),
{
    assert forall|i: int| 0 <= i < ns.len() implies note_id_is(id)(#[trigger] ns[i]) == note_id_is(id)(ms[i]) by {
        assert(ms[i].id == ns[i].id);
    }
    lemma_first_where_same(ns, ms, note_id_is(id));
}

/// Where `edit_all` puts the notes of a `source` with distinct ids: the
/// first note with the id of a source note becomes that source note, and
/// every other note stays.
proof fn lemma_edit_all_at(ns: Seq<MidiNote>, source: Seq<MidiNote>)
    requires
        forall|i: int, j: int| 0 <= i < j < source.len() ==> #[trigger] source[i].id != #[trigger] source[j].id,
    ensures
        edit_all(ns, source).len() == ns.len(),
        forall|i: int| 0 <= i < ns.len() ==> (#[trigger] edit_all(ns, source)[i]).id == ns[i].id,
        forall|j: int| 0 <= j < source.len() && first_where(ns, note_id_is(source[j].id)) >= 0
            ==> edit_all(ns, source)[first_where(ns, note_id_is(#[trigger] source[j].id))] == source[j],
        forall|i: int| 0 <= i < ns.len() && !edited_at(ns, source, i) ==> #[trigger] edit_all(ns, source)[i] == ns[i],
    decreases source.len(),
{
    if source.len() > 0 {
        let front = source.drop_last();
        let last = source.last();
        let n = source.len() - 1;
        assert forall|i: int, j: int| 0 <= i < j < front.len() implies #[trigger] front[i].id != #[trigger] front[j].id by {
            assert(front[i] == source[i] && front[j] == source[j]);
        }
        lemma_edit_all_at(ns, front);
        let s = edit_all(ns, front);
        let r = edit_all(ns, source);
        lemma_same_ids_first_where(ns, s, last.id);
        let k = first_where(ns, note_id_is(last.id));
        lemma_first_where(ns, note_id_is(last.id));
        lemma_first_where(s, note_id_is(last.id));
        assert(r == edit_first(s, last.id, last));
        assert forall|i: int| 0 <= i < ns.len() implies (#[trigger] r[i]).id == ns[i].id by {
            assert(s[i].id == ns[i].id);
        }
        assert forall|j: int| 0 <= j < source.len() && first_where(ns, note_id_is(source[j].id)) >= 0
            implies r[first_where(ns, note_id_is(#[trigger] source[j].id))] == source[j] by {
            let q = first_where(ns, note_id_is(source[j].id));
            lemma_first_where(ns, note_id_is(source[j].id));
            if j < n {
                assert(front[j] == source[j]);
                if k >= 0 {
                    assert(ns[q].id == source[j].id && ns[k].id == source[n].id);
                    assert(q != k);
                }
            }
        }
        assert forall|i: int| 0 <= i < ns.len() && !edited_at(ns, source, i) implies #[trigger] r[i] == ns[i] by {
            if edited_at(ns, front, i) {
                let j = choose|j: int| 0 <= j < front.len() && first_where(ns, note_id_is(#[trigger] front[j].id)) == i;
                assert(front[j] == source[j]);
            }
            if i == k {
                assert(first_where(ns, note_id_is(source[n].id)) == i);
            }
        }
    }
}

/// Editing a group of notes (a multi-note drag) and undoing it gives back
/// the same clips, when the edits keep the ids, the ids are distinct, and
/// the command recorded the notes as they were.
pub proof fn law_edit_notes_undo(p0: Project, p1: Project, p2: Project, clip_id: ClipId, before: Vec<MidiNote>,
    after: Vec<MidiNote>, pe1: Option<PointEdit>, pe2: Option<PointEdit>)
    requires
        after@.len() == before@.len(),
        forall|j: int| 0 <= j < before@.len() ==> #[trigger] after@[j].id == before@[j].id,
        forall|i: int, j: int| 0 <= i < j < before@.len() ==> #[trigger] before@[i].id != #[trigger] before@[j].id,
        clip_notes(p0.clips@, clip_id) matches Some(ns) ==> forall|j: int| 0 <= j < before@.len()
            && first_where(ns, note_id_is(before@[j].id)) >= 0
            ==> ns[first_where(ns, note_id_is(#[trigger] before@[j].id))] == before@[j],
        applied(p0, p1, Command::EditNotes { clip_id, before, after }, false, pe1),
        applied(p1, p2, Command::EditNotes { clip_id, before, after }, true, pe2),
    ensures
        kept_but(p0, p2, true, false, true, true, true, true),
        clip_views(p2.clips@) == clip_views(p0.clips@),
{
    let b = before@;
    let a = after@;
    if let Some(ns) = clip_notes(p0.clips@, clip_id) {
        assert forall|i: int, j: int| 0 <= i < j < a.len() implies #[trigger] a[i].id != #[trigger] a[j].id by {
            assert(a[i].id == b[i].id && a[j].id == b[j].id);
        }
        lemma_edit_all_at(ns, a);
        let m = edit_all(ns, a);
        lemma_edit_all_at(m, b);
        let r = edit_all(m, b);
        assert forall|i: int| 0 <= i < ns.len() implies #[trigger] r[i] == ns[i] by {
            if edited_at(m, b, i) {
                let j = choose|j: int| 0 <= j < b.len() && first_where(m, note_id_is(#[trigger] b[j].id)) == i;
                lemma_same_ids_first_where(ns, m, b[j].id);
            } else {
                if edited_at(ns, a, i) {
                    let j = choose|j: int| 0 <= j < a.len() && first_where(ns, note_id_is(#[trigger] a[j].id)) == i;
                    lemma_same_ids_first_where(ns, m, b[j].id);
                    assert(a[j].id == b[j].id);
                    assert(edited_at(m, b, i));
                }
            }
        }
        assert(r =~= ns);
    }
    lemma_notes_roundtrip(p0, p1, p2, clip_id, notes_edited_all(a), notes_edited_all(b));
}

/// Setting a gain stage and undoing it gives back the same graph, when the
/// command recorded the gain, pan and mute the node had.
pub proof fn law_gain_pan_undo(p0: Project, p1: Project, p2: Project, node_id: NodeId, old_gain: u32, new_gain: u32,
    old_pan: u32, new_pan: u32, old_mute: bool, new_mute: bool, pe1: Option<PointEdit>, pe2: Option<PointEdit>)
    requires
        p0.wf(),
        value_of(p0.graph.nodes_view(), node_id) matches Some(v) ==> (v.kind matches
            crate::graph::NodeKind::GainPan { gain_db, pan, mute, .. }
            ==> gain_db == old_gain && pan == old_pan && mute == old_mute),
        applied(p0, p1, Command::SetGainPan { node_id, old_gain, new_gain, old_pan, new_pan, old_mute, new_mute },
            false, pe1),
        applied(p1, p2, Command::SetGainPan { node_id, old_gain, new_gain, old_pan, new_pan, old_mute, new_mute },
            true, pe2),
    ensures
        kept_but(p0, p2, true, true, false, true, true, true),
        p2.graph.nodes_view() == p0.graph.nodes_view(),
        p2.graph.edge_seq() == p0.graph.edge_seq(),
{
    let vs0 = p0.graph.nodes_view();
    let vs1 = p1.graph.nodes_view();
    crate::keyed::lemma_map_vals_keys(p0.graph.node_seq(), crate::graph::node_view_fn());
    if let Some(v) = value_of(vs0, node_id) {
        if let crate::graph::NodeKind::GainPan { solo, .. } = v.kind {
            let v1 = GraphNodeView {
                kind: crate::graph::NodeKind::GainPan { gain_db: new_gain, pan: new_pan, mute: new_mute, solo },
                ..v
            };
            assert(vs1 == insert_entry(vs0, node_id, v1));
            crate::keyed::lemma_value_of_after(vs0, node_id, v1, node_id);
            let k = key_index(vs0, node_id);
            crate::keyed::lemma_key_index_unique(vs1, node_id, k);
            assert(vs0[k] == (node_id, v));
            assert(p2.graph.nodes_view() =~= vs0);
        }
    }
}

/// Setting an automation point on a lane that did not exist yet, carrying
/// out the point edit on the new lane, and undoing it gives back the same
/// lanes: the undo drops the lane the command created.
pub proof fn law_new_lane_undo(p0: Project, p1: Project, edited: Project, p2: Project, lane_id: AutomationLaneId,
    target: AutomationTarget, new_point: AutomationPoint, pe1: Option<PointEdit>, pe2: Option<PointEdit>)
    requires
        first_where(p0.automation@, lane_id_is(lane_id)) == -1,
        applied(p0, p1, Command::SetAutomationPoint { lane_id, target, created_lane: true, old_point: None, new_point },
            false, pe1),
        kept_but(p1, edited, true, true, true, true, false, true),
        edited.automation@.len() == p1.automation@.len(),
        lane_views(edited.automation@).drop_last() == lane_views(p1.automation@).drop_last(),
        edited.automation@.last().id == lane_id,
        applied(edited, p2, Command::SetAutomationPoint { lane_id, target, created_lane: true, old_point: None,
            new_point }, true, pe2),
    ensures
        kept_but(p0, p2, true, true, true, true, false, true),
        lane_views(p2.automation@) == lane_views(p0.automation@),
{
    let ls0 = p0.automation@;
    let ls1 = p1.automation@;
    let le = edited.automation@;
    let front = le.drop_last();
    lemma_first_where(ls0, lane_id_is(lane_id));
    assert(lane_views(ls1).len() == ls0.len() + 1);
    assert forall|i: int| 0 <= i < front.len() implies lane_id_not(lane_id)(#[trigger] front[i]) && front[i]@ == ls0[i]@ by {
        assert(lane_views(le).drop_last()[i] == lane_views(ls1).drop_last()[i]);
        assert(lane_views(ls1)[i] == lane_views(ls0)[i]);
        assert(front[i] == le[i]);
    }
    lemma_filter_all(front, lane_id_not(lane_id));
    front.lemma_filter_push(le.last(), lane_id_not(lane_id));
    assert(front.push(le.last()) =~= le);
    assert(lane_views(p2.automation@) =~= lane_views(ls0));
}

/// Trying to connect edges never changes the nodes.
proof fn lemma_edges_connected_nodes(g0: AudioGraph, g1: AudioGraph, edges: Seq<GraphEdge>)
    requires
        edges_connected(g0, g1, edges),
    ensures
        g1.node_seq() == g0.node_seq(),
    decreases edges.len(),
{
    if edges.len() > 0 {
        let e = edges.last();
        let (mid, r) = choose|mid: AudioGraph, r: Result<EdgeId, GraphError>|
            #![trigger connect_post(mid, g1, e.from_node, e.from_port, e.to_node, e.to_port, r)]
            (g0.wf() ==> mid.wf()) && edges_connected(g0, mid, edges.drop_last())
            && connect_post(mid, g1, e.from_node, e.from_port, e.to_node, e.to_port, r);
        lemma_edges_connected_nodes(g0, mid, edges.drop_last());
    }
}

/// Removing an entry and inserting it again gives every key its old value.
proof fn lemma_remove_then_insert<V>(s: Seq<(u128, V)>, k: u128, v: V, t: Seq<(u128, V)>, c: u128)
    requires
        keys_unique(s),
        value_of(s, k) == Some(v),
        t == insert_entry(remove_entry(s, k), k, v),
    ensures
        value_of(t, c) == value_of(s, c),
{
    crate::keyed::lemma_value_of_after(s, k, v, c);
    crate::keyed::lemma_value_of_after(remove_entry(s, k), k, v, c);
}

/// Removing a node and undoing it gives back the tracks (with the
/// instrument link), every node with its view, and the plugin states, when
/// the command recorded the node, its track and its state as they were.
/// Nothing is stated here of the wires.
pub proof fn law_remove_node_undo(p0: Project, p1: Project, p2: Project, node: GraphNode, edges: Vec<GraphEdge>,
    instrument_track: Option<TrackId>, plugin_state: Option<PluginStateBlob>, pe1: Option<PointEdit>,
    pe2: Option<PointEdit>)
    requires
        p0.wf(),
        value_of(p0.graph.nodes_view(), node.id) == Some(node@),
        instrument_track matches Some(t) ==> (first_where(p0.tracks@, track_id_is(t)) >= 0
            ==> p0.tracks@[first_where(p0.tracks@, track_id_is(t))].instrument_node == Some(node.id)),
        plugin_state matches Some(b) ==> value_of(p0.states_view(), b.instance_id) == Some(b@),
        applied(p0, p1, Command::RemoveNode { node, edges, instrument_track, plugin_state }, false, pe1),
        applied(p1, p2, Command::RemoveNode { node, edges, instrument_track, plugin_state }, true, pe2),
    ensures
        kept_but(p0, p2, false, true, false, true, true, false),
        p2.tracks@ == p0.tracks@,
        forall|c: NodeId| #[trigger] value_of(p2.graph.nodes_view(), c) == value_of(p0.graph.nodes_view(), c),
        forall|c: u128| #[trigger] value_of(p2.states_view(), c) == value_of(p0.states_view(), c),
{
    let f = crate::graph::node_view_fn();
    let g0 = p0.graph;
    let g1 = p1.graph;
    let g2 = p2.graph;
    let vs0 = g0.nodes_view();
    crate::keyed::lemma_map_vals_keys(g0.node_seq(), f);
    lemma_map_vals_remove(g0.node_seq(), node.id, f);
    assert(g1.nodes_view() == remove_entry(vs0, node.id));
    let g = choose|g: AudioGraph| #[trigger] nodes_added(g1, g, seq![node]) && (g1.wf() ==> g.wf()) && edges_connected(g, g2, edges@);
    assert(seq![node].drop_last() =~= Seq::<GraphNode>::empty());
    assert(insert_views(g1.nodes_view(), seq![node].drop_last()) == g1.nodes_view());
    lemma_edges_connected_nodes(g, g2, edges@);
    assert(g2.nodes_view() == insert_entry(remove_entry(vs0, node.id), node.id, node@));
    assert forall|c: NodeId| #[trigger] value_of(g2.nodes_view(), c) == value_of(vs0, c) by {
        lemma_remove_then_insert(vs0, node.id, node@, g2.nodes_view(), c);
    }
    if let Some(b) = plugin_state {
        let sv0 = p0.states_view();
        crate::keyed::lemma_map_vals_keys(crate::project::blob_entries(p0.plugin_states), crate::project::blob_view_fn());
        assert forall|c: u128| #[trigger] value_of(p2.states_view(), c) == value_of(sv0, c) by {
            lemma_remove_then_insert(sv0, b.instance_id, b@, p2.states_view(), c);
        }
    }
    if let Some(t) = instrument_track {
        let ts0 = p0.tracks@;
        let ts1 = p1.tracks@;
        let k = first_where(ts0, track_id_is(t));
        lemma_first_where(ts0, track_id_is(t));
        if k >= 0 {
            assert forall|i: int| 0 <= i < ts0.len() implies
                track_id_is(t)(#[trigger] ts0[i]) == track_id_is(t)(ts1[i]) by {}
            lemma_first_where_same(ts0, ts1, track_id_is(t));
            assert(p2.tracks@ =~= ts0);
        }
    }
}

/// Some node of `nodes` has id `c`.
spec fn node_id_in(nodes: Seq<GraphNode>, c: NodeId) -> bool {
    exists|j: int| 0 <= j < nodes.len() && (#[trigger] nodes[j]).id == c
}

/// Inserting the views of `nodes` leaves the value of every other key.
proof fn lemma_insert_views_others(vs: Seq<(NodeId, GraphNodeView)>, nodes: Seq<GraphNode>)
    requires
        keys_unique(vs),
    ensures
        keys_unique(insert_views(vs, nodes)),
        forall|c: NodeId| !node_id_in(nodes, c) ==> #[trigger] value_of(insert_views(vs, nodes), c) == value_of(vs, c),
        (forall|i: int, j: int| 0 <= i < j < nodes.len() ==> #[trigger] nodes[i].id != #[trigger] nodes[j].id)
            ==> forall|j: int| 0 <= j < nodes.len()
                ==> value_of(insert_views(vs, nodes), #[trigger] nodes[j].id) == Some(nodes[j]@),
    decreases nodes.len(),
{
    if nodes.len() > 0 {
        let front = nodes.drop_last();
        let last = nodes.last();
        lemma_insert_views_others(vs, front);
        let s = insert_views(vs, front);
        if forall|i: int, j: int| 0 <= i < j < nodes.len() ==> #[trigger] nodes[i].id != #[trigger] nodes[j].id {
            assert forall|i: int, j: int| 0 <= i < j < front.len() implies #[trigger] front[i].id != #[trigger] front[j].id by {
                assert(front[i] == nodes[i] && front[j] == nodes[j]);
            }
            assert forall|j: int| 0 <= j < nodes.len() implies value_of(insert_views(vs, nodes), #[trigger] nodes[j].id)
                == Some(nodes[j]@) by {
                crate::keyed::lemma_value_of_after(s, last.id, last@, nodes[j].id);
                if j < nodes.len() - 1 {
                    assert(front[j] == nodes[j]);
                    assert(nodes[j].id != nodes[nodes.len() - 1].id);
                }
            }
        }
        assert forall|c: NodeId| !node_id_in(nodes, c) implies #[trigger] value_of(insert_views(vs, nodes), c)
            == value_of(vs, c) by {
            crate::keyed::lemma_value_of_after(s, last.id, last@, c);
            if node_id_in(front, c) {
                let j = choose|j: int| 0 <= j < front.len() && (#[trigger] front[j]).id == c;
                assert(nodes[j] == front[j]);
            }
            assert(nodes[nodes.len() - 1] == last);
        }
        crate::keyed::lemma_value_of_after(s, last.id, last@, last.id);
    }
}

/// After `remove_node` of each node of `nodes`, their ids have no value and
/// every other key keeps its value.
proof fn lemma_nodes_removed_values(g1: AudioGraph, g2: AudioGraph, nodes: Seq<GraphNode>)
    requires
        g1.wf(),
        nodes_removed(g1, g2, nodes),
    ensures
        forall|c: NodeId| #[trigger] value_of(g2.nodes_view(), c)
            == (if node_id_in(nodes, c) { None } else { value_of(g1.nodes_view(), c) }),
    decreases nodes.len(),
{
    if nodes.len() > 0 {
        let front = nodes.drop_last();
        let last = nodes.last();
        let mid = choose|mid: AudioGraph| #![trigger node_removed(mid, g2, nodes.last().id)]
            (g1.wf() ==> mid.wf()) && nodes_removed(g1, mid, nodes.drop_last()) && node_removed(mid, g2, nodes.last().id);
        lemma_nodes_removed_values(g1, mid, front);
        let f = crate::graph::node_view_fn();
        crate::keyed::lemma_map_vals_keys(mid.node_seq(), f);
        lemma_map_vals_remove(mid.node_seq(), last.id, f);
        assert forall|c: NodeId| #[trigger] value_of(g2.nodes_view(), c)
            == (if node_id_in(nodes, c) { None } else { value_of(g1.nodes_view(), c) }) by {
            crate::keyed::lemma_value_of_after(mid.nodes_view(), last.id, last@, c);
            if node_id_in(front, c) {
                let j = choose|j: int| 0 <= j < front.len() && (#[trigger] front[j]).id == c;
                assert(nodes[j] == front[j]);
            }
            if node_id_in(nodes, c) && c != last.id {
                let j = choose|j: int| 0 <= j < nodes.len() && (#[trigger] nodes[j]).id == c;
                assert(j != nodes.len() - 1);
                assert(front[j] == nodes[j]);
            }
            assert(nodes[nodes.len() - 1] == last);
        }
    }
}

/// Adding a track whose id and node ids are new, and undoing it, gives back
/// the same tracks and every node with its view.
pub proof fn law_add_track_undo(p0: Project, p1: Project, p2: Project, track: Track, nodes: Vec<GraphNode>,
    edges: Vec<GraphEdge>, pe1: Option<PointEdit>, pe2: Option<PointEdit>)
    requires
        p0.wf(),
        p1.wf(),
        first_where(p0.tracks@, track_id_is(track.id)) == -1,
        forall|j: int| 0 <= j < nodes@.len() ==> !p0.graph.has_node(#[trigger] nodes@[j].id),
        applied(p0, p1, Command::AddTrack { track, nodes, edges }, false, pe1),
        applied(p1, p2, Command::AddTrack { track, nodes, edges }, true, pe2),
    ensures
        kept_but(p0, p2, false, true, false, true, true, true),
        p2.tracks@ == p0.tracks@,
        forall|c: NodeId| #[trigger] value_of(p2.graph.nodes_view(), c) == value_of(p0.graph.nodes_view(), c),
{
    let ts0 = p0.tracks@;
    lemma_first_where(ts0, track_id_is(track.id));
    lemma_filter_all(ts0, track_id_not(track.id));
    ts0.lemma_filter_push(track, track_id_not(track.id));
    let g0 = p0.graph;
    let g1 = p1.graph;
    let ns = nodes@;
    let g = choose|g: AudioGraph| #[trigger] nodes_added(g0, g, ns) && (g0.wf() ==> g.wf()) && edges_connected(g, g1, edges@);
    lemma_edges_connected_nodes(g, g1, edges@);
    let f = crate::graph::node_view_fn();
    crate::keyed::lemma_map_vals_keys(g0.node_seq(), f);
    lemma_insert_views_others(g0.nodes_view(), ns);
    lemma_nodes_removed_values(g1, p2.graph, ns);
    assert forall|c: NodeId| #[trigger] value_of(p2.graph.nodes_view(), c) == value_of(g0.nodes_view(), c) by {
        if node_id_in(ns, c) {
            let j = choose|j: int| 0 <= j < ns.len() && (#[trigger] ns[j]).id == c;
            assert(!g0.has_node(ns[j].id));
            assert(!has_key(g0.nodes_view(), c));
        }
    }
}

/// Removing a track and undoing it gives back the other tracks followed by
/// the removed track, the other clips followed by the removed ones, and
/// every node with its view, when the command recorded the track's nodes
/// (with distinct ids) as they were.
pub proof fn law_remove_track_undo(p0: Project, p1: Project, p2: Project, track: Track, clips: Vec<Clip>,
    nodes: Vec<GraphNode>, edges: Vec<GraphEdge>, pe1: Option<PointEdit>, pe2: Option<PointEdit>)
    requires
        p0.wf(),
        p1.wf(),
        forall|i: int, j: int| 0 <= i < j < nodes@.len() ==> #[trigger] nodes@[i].id != #[trigger] nodes@[j].id,
        forall|j: int| 0 <= j < nodes@.len()
            ==> value_of(p0.graph.nodes_view(), #[trigger] nodes@[j].id) == Some(nodes@[j]@),
        applied(p0, p1, Command::RemoveTrack { track, clips, nodes, edges }, false, pe1),
        applied(p1, p2, Command::RemoveTrack { track, clips, nodes, edges }, true, pe2),
    ensures
        kept_but(p0, p2, false, false, false, true, true, true),
        p2.tracks@ == p0.tracks@.filter(track_id_not(track.id)).push(track),
        clip_views(p2.clips@) == clip_views(p0.clips@.filter(clip_track_not(track.id))) + clip_views(clips@),
        forall|c: NodeId| #[trigger] value_of(p2.graph.nodes_view(), c) == value_of(p0.graph.nodes_view(), c),
{
    let ns = nodes@;
    let g0 = p0.graph;
    let g1 = p1.graph;
    let g2 = p2.graph;
    lemma_nodes_removed_values(g0, g1, ns);
    let g = choose|g: AudioGraph| #[trigger] nodes_added(g1, g, ns) && (g1.wf() ==> g.wf()) && edges_connected(g, g2, edges@);
    lemma_edges_connected_nodes(g, g2, edges@);
    let f = crate::graph::node_view_fn();
    crate::keyed::lemma_map_vals_keys(g1.node_seq(), f);
    lemma_insert_views_others(g1.nodes_view(), ns);
    assert forall|c: NodeId| #[trigger] value_of(g2.nodes_view(), c) == value_of(g0.nodes_view(), c) by {
        if node_id_in(ns, c) {
            let j = choose|j: int| 0 <= j < ns.len() && (#[trigger] ns[j]).id == c;
            assert(value_of(insert_views(g1.nodes_view(), ns), ns[j].id) == Some(ns[j]@));
        }
    }
    assert(clip_views(p2.clips@) =~= clip_views(p0.clips@.filter(clip_track_not(track.id))) + clip_views(clips@));
}

/// A note edit `f` on two clip lists with the same views gives clip lists
/// with the same views.
proof fn lemma_notes_applied_same_views(a0: Project, a1: Project, b0: Project, b1: Project, clip_id: ClipId,
    f: spec_fn(Seq<MidiNote>) -> Seq<MidiNote>)
    requires
        clip_views(a0.clips@) == clip_views(b0.clips@),
        notes_applied(a0, a1, clip_id, f),
        notes_applied(b0, b1, clip_id, f),
    ensures
        clip_views(a1.clips@) == clip_views(b1.clips@),
{
    let (ca, cb) = (a0.clips@, b0.clips@);
    assert(ca.len() == cb.len()) by {
        assert(clip_views(ca).len() == clip_views(cb).len());
    }
    assert forall|i: int| 0 <= i < ca.len() implies (#[trigger] ca[i])@ == cb[i]@ by {
        assert(clip_views(ca)[i] == clip_views(cb)[i]);
    }
    assert forall|i: int| 0 <= i < ca.len() implies clip_id_is(clip_id)(#[trigger] ca[i]) == clip_id_is(clip_id)(cb[i]) by {
        assert(ca[i]@.id == cb[i]@.id);
    }
    lemma_first_where_same(ca, cb, clip_id_is(clip_id));
    let k = first_where(ca, clip_id_is(clip_id));
    lemma_first_where(ca, clip_id_is(clip_id));
    if k >= 0 {
        assert(ca[k]@ == cb[k]@);
        assert(clip_notes(ca, clip_id) == clip_notes(cb, clip_id));
    }
    assert(clip_views(a1.clips@) =~= clip_views(b1.clips@));
}

/// Adding a chord through the stack, undoing and redoing, when the clip has
/// none of the chord's note ids: the undo gives back the clips (by their
/// views) from before the push, the redo those from after it.
pub proof fn law_chord_push_undo_redo(p0: Project, s0: CommandStack, clip_id: ClipId, notes: Vec<MidiNote>,
    p1: Project, s1: CommandStack, r2: bool, p2: Project, s2: CommandStack, r3: bool, p3: Project, s3: CommandStack)
    requires
        s0.depth() > 0,
        clip_notes(p0.clips@, clip_id) matches Some(ns) ==> forall|i: int, j: int|
            0 <= i < ns.len() && 0 <= j < notes@.len() ==> #[trigger] ns[i].id != #[trigger] notes@[j].id,
        stack_pushed(p0, s0, Command::AddNotes { clip_id, notes }, p1, s1),
        stack_undone(p1, s1, r2, p2, s2),
        stack_redone(p2, s2, r3, p3, s3),
    ensures
        r2 && r3,
        clip_views(p2.clips@) == clip_views(p0.clips@),
        clip_views(p3.clips@) == clip_views(p1.clips@),
        s2.redo_seq().len() > 0,
        s3.undo_seq().len() > 0,
{
    let cmd = Command::AddNotes { clip_id, notes };
    law_push_then_undo(p0, s0, cmd, p1, s1, r2, p2, s2);
    law_undo_then_redo_stack(p0, s0, cmd, p1, s1, r2, p2, s2, r3, p3, s3);
    let (q1, q2, e1, e2) = choose|q1: Project, q2: Project, e1: Option<PointEdit>, e2: Option<PointEdit>|
        #[trigger] applied(p0, q1, cmd, false, e1) && #[trigger] applied(q1, q2, cmd, true, e2) && touched(q2, p2);
    law_add_notes_undo(p0, q1, q2, clip_id, notes, e1, e2);
    let q1b = choose|q: Project| #[trigger] applied(p0, q, cmd, false, s1.pending()) && touched(q, p1);
    let (q3, e3) = choose|q3: Project, e3: Option<PointEdit>| #[trigger] applied(p2, q3, cmd, false, e3) && touched(q3, p3);
    assert(clip_views(p2.clips@) == clip_views(p0.clips@));
    lemma_notes_applied_same_views(p2, q3, p0, q1b, clip_id, notes_pushed_absent_all(notes@));
}

/// Adding a node whose id is new and undoing it gives back the same
/// graph: the same nodes, by their views, and the same edges.
pub proof fn law_add_node_undo(p0: Project, p1: Project, p2: Project, node: GraphNode, pe1: Option<PointEdit>,
    pe2: Option<PointEdit>)
    requires
        p0.wf(),
        p1.wf(),
        !p0.graph.has_node(node.id),
        applied(p0, p1, Command::AddNode { node }, false, pe1),
        applied(p1, p2, Command::AddNode { node }, true, pe2),
    ensures
        kept_but(p0, p2, true, true, false, true, true, true),
        p2.graph.nodes_view() == p0.graph.nodes_view(),
        p2.graph.edge_seq() == p0.graph.edge_seq(),
{
    let g0 = p0.graph;
    let g1 = p1.graph;
    let f = crate::graph::node_view_fn();
    crate::keyed::lemma_map_vals_keys(g0.node_seq(), f);
    crate::keyed::lemma_map_vals_keys(g1.node_seq(), f);
    assert(seq![node].drop_last() =~= Seq::<GraphNode>::empty());
    assert(insert_views(g0.nodes_view(), seq![node].drop_last()) == g0.nodes_view());
    let vs0 = g0.nodes_view();
    assert(g1.nodes_view() == vs0.push((node.id, node@)));
    assert(has_key(g1.node_seq(), node.id)) by {
        assert(has_key(g1.nodes_view(), node.id)) by {
            assert(g1.nodes_view()[vs0.len() as int].0 == node.id);
        }
    }
    lemma_map_vals_remove(g1.node_seq(), node.id, f);
    crate::keyed::lemma_key_index_unique(g1.nodes_view(), node.id, vs0.len() as int);
    assert(remove_entry(g1.nodes_view(), node.id) =~= vs0);
    lemma_retain_untouched(g0, node.id);
}
/// Push, undo and redo of one command, seen as applications of it: forward
/// from the starting project, backward from what that gave, and forward
/// again, each result equal to the stack's project but for the
/// modification time.
proof fn lemma_stack_chain(p0: Project, s0: CommandStack, cmd: Command, p1: Project, s1: CommandStack,
    r2: bool, p2: Project, s2: CommandStack, r3: bool, p3: Project, s3: CommandStack)
    -> (qs: (Project, Project, Project))
    requires
        s0.depth() > 0,
        stack_pushed(p0, s0, cmd, p1, s1),
        stack_undone(p1, s1, r2, p2, s2),
        stack_redone(p2, s2, r3, p3, s3),
    ensures
        r2 && r3,
        applied(p0, qs.0, cmd, false, s1.pending()) && touched(qs.0, p1),
        applied(qs.0, qs.1, cmd, true, s2.pending()) && touched(qs.1, p2),
        applied(qs.1, qs.2, cmd, false, s3.pending()) && touched(qs.2, p3),
        s2.redo_seq().len() > 0,
        s3.undo_seq().len() > 0,
{
    law_undo_then_redo_stack(p0, s0, cmd, p1, s1, r2, p2, s2, r3, p3, s3);
    assert(s1.undo_seq().last() == cmd);
    assert(s2.redo_seq().last() == cmd);
    let q1 = choose|q: Project| #[trigger] applied(p0, q, cmd, false, s1.pending()) && touched(q, p1);
    let q2 = choose|q: Project| #[trigger] applied(p1, q, cmd, true, s2.pending()) && touched(q, p2);
    let q3 = choose|q: Project| #[trigger] applied(p2, q, cmd, false, s3.pending()) && touched(q, p3);
    let t1 = q1.meta.modified_unix_ms;
    lemma_applied_stamped(p1, q2, cmd, true, s2.pending(), t1);
    assert(stamped(p1, t1) == q1);
    let q2s = stamped(q2, t1);
    assert(touched(q2s, p2));
    lemma_applied_stamped(p2, q3, cmd, false, s3.pending(), t1);
    assert(stamped(p2, t1) == q2s);
    let q3s = stamped(q3, t1);
    assert(touched(q3s, p3));
    assert(s3.undo_seq().len() > 0);
    (q1, q2s, q3s)
}

/// Removing a group of notes with distinct ids through the stack, undoing
/// and redoing: the redo gives back the clips (by their views) from after
/// the push.
pub proof fn law_remove_notes_push_undo_redo(p0: Project, s0: CommandStack, clip_id: ClipId, notes: Vec<MidiNote>,
    p1: Project, s1: CommandStack, r2: bool, p2: Project, s2: CommandStack, r3: bool, p3: Project, s3: CommandStack)
    requires
        s0.depth() > 0,
        forall|i: int, j: int| 0 <= i < j < notes@.len() ==> #[trigger] notes@[i].id != #[trigger] notes@[j].id,
        stack_pushed(p0, s0, Command::RemoveNotes { clip_id, notes }, p1, s1),
        stack_undone(p1, s1, r2, p2, s2),
        stack_redone(p2, s2, r3, p3, s3),
    ensures
        r2 && r3,
        clip_views(p3.clips@) == clip_views(p1.clips@),
        s2.redo_seq().len() > 0,
        s3.undo_seq().len() > 0,
{
    let cmd = Command::RemoveNotes { clip_id, notes };
    let (q1, q2, q3) = lemma_stack_chain(p0, s0, cmd, p1, s1, r2, p2, s2, r3, p3, s3);
    let removed = notes@;
    let keep = note_id_not_in(removed);
    let f = notes_filtered(keep);
    let g = notes_pushed_absent_all(removed);
    lemma_notes_compose(p0, q1, q2, clip_id, f, g);
    if let Some(ns) = clip_notes(p0.clips@, clip_id) {
        let k = first_where(p0.clips@, clip_id_is(clip_id));
        lemma_first_where(p0.clips@, clip_id_is(clip_id));
        assert forall|i: int| 0 <= i < p0.clips@.len() implies
            clip_id_is(clip_id)(#[trigger] p0.clips@[i]) == clip_id_is(clip_id)(q1.clips@[i]) by {
            if i == k {
                assert(q1.clips@[i]@.id == p0.clips@[i]@.id);
            }
        }
        lemma_first_where_same(p0.clips@, q1.clips@, clip_id_is(clip_id));
        let rest = ns.filter(keep);
        assert(clip_notes(q1.clips@, clip_id) == Some(rest));
        assert forall|i: int, j: int| 0 <= i < rest.len() && 0 <= j < removed.len()
            implies #[trigger] rest[i].id != #[trigger] removed[j].id by {
            ns.lemma_filter_pred(keep, i);
            lemma_first_where(removed, note_id_is(rest[i].id));
        }
        lemma_push_absent_all_fresh(rest, removed);
        assert forall|i: int| 0 <= i < rest.len() implies keep(#[trigger] rest[i]) by {
            ns.lemma_filter_pred(keep, i);
        }
        lemma_filter_all(rest, keep);
        assert forall|i: int| 0 <= i < removed.len() implies !keep(#[trigger] removed[i]) by {
            lemma_first_where(removed, note_id_is(removed[i].id));
        }
        lemma_filter_none(removed, keep);
        Seq::filter_distributes_over_add(rest, removed, keep);
        assert((rest + removed).filter(keep) == rest + Seq::<MidiNote>::empty());
        assert(rest + Seq::<MidiNote>::empty() =~= rest);
    }
    lemma_notes_roundtrip(q1, q2, q3, clip_id, g, f);
}

/// No item of `s` passes the filter.
proof fn lemma_filter_none<T>(s: Seq<T>, p: spec_fn(T) -> bool)
    requires
        forall|i: int| 0 <= i < s.len() ==> !p(#[trigger] s[i]),
    ensures
        s.filter(p) == Seq::<T>::empty(),
    decreases s.len(),
{
    reveal(Seq::filter);
    if s.len() > 0 {
        lemma_filter_none(s.drop_last(), p);
        assert(!p(s[s.len() - 1]));
    } else {
        assert(s.filter(p) =~= Seq::<T>::empty());
    }
}

/// Moving a clip to another track through the stack, undoing and redoing:
/// the undo gives back the clips from before the push (when the command
/// recorded the clip's track), the redo the clips from after it.
pub proof fn law_clip_track_push_undo_redo(p0: Project, s0: CommandStack, clip_id: ClipId, old_track: TrackId,
    new_track: TrackId, p1: Project, s1: CommandStack, r2: bool, p2: Project, s2: CommandStack, r3: bool,
    p3: Project, s3: CommandStack)
    requires
        s0.depth() > 0,
        first_where(p0.clips@, clip_id_is(clip_id)) >= 0
            ==> p0.clips@[first_where(p0.clips@, clip_id_is(clip_id))].track_id == old_track,
        stack_pushed(p0, s0, Command::SetClipTrack { clip_id, old_track, new_track }, p1, s1),
        stack_undone(p1, s1, r2, p2, s2),
        stack_redone(p2, s2, r3, p3, s3),
    ensures
        r2 && r3,
        p2.clips@ == p0.clips@,
        p3.clips@ == p1.clips@,
        s2.redo_seq().len() > 0,
        s3.undo_seq().len() > 0,
{
    let cmd = Command::SetClipTrack { clip_id, old_track, new_track };
    let (q1, q2, q3) = lemma_stack_chain(p0, s0, cmd, p1, s1, r2, p2, s2, r3, p3, s3);
    law_clip_track_undo(p0, q1, q2, clip_id, old_track, new_track, s1.pending(), s2.pending());
    assert(p2.clips@ == p0.clips@);
    let k = first_where(p0.clips@, clip_id_is(clip_id));
    lemma_first_where(p0.clips@, clip_id_is(clip_id));
    if k >= 0 {
        lemma_first_where_same(p0.clips@, q2.clips@, clip_id_is(clip_id));
        assert(q3.clips@ =~= q1.clips@);
    }
}

/// Adding a node whose id is new through the stack, undoing and redoing:
/// the undo gives back the nodes (by their views) and edges from before the
/// push, the redo those from after it.
pub proof fn law_add_node_push_undo_redo(p0: Project, s0: CommandStack, node: GraphNode, p1: Project,
    s1: CommandStack, r2: bool, p2: Project, s2: CommandStack, r3: bool, p3: Project, s3: CommandStack)
    requires
        s0.depth() > 0,
        p0.wf(),
        !p0.graph.has_node(node.id),
        stack_pushed(p0, s0, Command::AddNode { node }, p1, s1),
        stack_undone(p1, s1, r2, p2, s2),
        stack_redone(p2, s2, r3, p3, s3),
    ensures
        r2 && r3,
        p2.graph.nodes_view() == p0.graph.nodes_view(),
        p2.graph.edge_seq() == p0.graph.edge_seq(),
        p3.graph.nodes_view() == p1.graph.nodes_view(),
        p3.graph.edge_seq() == p1.graph.edge_seq(),
        s2.redo_seq().len() > 0,
        s3.undo_seq().len() > 0,
{
    let cmd = Command::AddNode { node };
    let (q1, q2, q3) = lemma_stack_chain(p0, s0, cmd, p1, s1, r2, p2, s2, r3, p3, s3);
    assert(q1.graph == p1.graph);
    law_add_node_undo(p0, q1, q2, node, s1.pending(), s2.pending());
    assert(seq![node].drop_last() =~= Seq::<GraphNode>::empty());
    assert(insert_views(q2.graph.nodes_view(), seq![node].drop_last()) == q2.graph.nodes_view());
    assert(insert_views(p0.graph.nodes_view(), seq![node].drop_last()) == p0.graph.nodes_view());
}

} // verus!
