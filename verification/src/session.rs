//! Decisions the editor takes on the project before it records a command:
//! which graph nodes may be deleted, the command that re-adds a track, and
//! the commands for a gain change and a clip deletion.
use vstd::prelude::*;
use crate::ids::{ClipId, EdgeId, NodeId, PluginInstanceId, TrackId};
use crate::graph::{AudioGraph, GraphEdge, GraphNode, GraphNodeView, NodeKind, with_status, plugin_status_set,
    nodes_get_index};
use crate::clips::{Clip, Track, TrackKind};
use crate::notes::clip_id_is;
use crate::project::{Project, PluginStateBlob, blob_entries, blobs_shift_remove, settings_kept};
use crate::keyed::{value_of, remove_entry, lemma_key_index_unique};
use crate::commands::node_removed;
use crate::commands::{Command, track_id_is};
use crate::vecs::{first_where, position_where, any_where, lemma_first_where};

verus! {

/// Whether `id` occurs in `ids`.
fn contains_id(ids: &Vec<NodeId>, id: NodeId) -> (r: bool)
    ensures
        r == ids@.contains(id),
{
    let mut i: usize = 0;
    while i < ids.len()
        invariant
            i <= ids.len(),
            forall|j: int| 0 <= j < i ==> ids@[j] != id,
        decreases ids.len() - i,
    {
        if ids[i] == id {
            return true;
        }
        i = i + 1;
    }
    false
}

pub open spec fn gain_node_is(id: NodeId) -> spec_fn(Track) -> bool {
    |t: Track| t.gain_node == Some(id)
}

/// A node may be deleted unless it is the master output, a clip source, or
/// the gain stage of a track; a missing node may not.
pub open spec fn removable(p: Project, id: NodeId) -> bool {
    &&& p.graph.has_node(id)
    &&& match p.graph.node_of(id).kind {
        NodeKind::MasterOutput => false,
        NodeKind::MidiClipSource { .. } => false,
        NodeKind::AudioClipSource { .. } => false,
        NodeKind::GainPan { .. } => first_where(p.tracks@, gain_node_is(id)) == -1,
        _ => true,
    }
}

/// A node of the graph may be deleted exactly unless it is the master
/// output, a MIDI or audio clip source, or the gain stage of some track:
/// plugin instruments and effects, built-in synths, mixers, splitters and
/// gain stages no track uses may always be deleted. A node that is not in
/// the graph may not.
pub proof fn law_removable_nodes(p: Project, id: NodeId)
    ensures
        removable(p, id) <==> {
            let kind = p.graph.node_of(id).kind;
            &&& p.graph.has_node(id)
            &&& !(kind is MasterOutput)
            &&& !(kind is MidiClipSource)
            &&& !(kind is AudioClipSource)
            &&& !(kind is GainPan && exists|i: int| 0 <= i < p.tracks@.len()
                && (#[trigger] p.tracks@[i]).gain_node == Some(id))
        },
        p.graph.has_node(id) && (p.graph.node_of(id).kind is PluginEffect
            || p.graph.node_of(id).kind is PluginInstrument) ==> removable(p, id),
{
    let ts = p.tracks@;
    lemma_first_where(ts, gain_node_is(id));
    let k = first_where(ts, gain_node_is(id));
    if k >= 0 {
        assert(ts[k].gain_node == Some(id));
    }
}

pub fn can_remove_graph_node(project: &Project, node_id: NodeId) -> (r: bool)
    ensures
        r == removable(*project, node_id),
{
    let node = match project.graph.node(node_id) {
        Some(n) => n,
        None => return false,
    };
    match &node.kind {
        NodeKind::MasterOutput | NodeKind::MidiClipSource { .. } | NodeKind::AudioClipSource { .. } => false,
        NodeKind::GainPan { .. } => !any_where(
            &project.tracks,
            |t: &Track| -> (b: bool) ensures b == (t.gain_node == Some(node_id)) { t.gain_node == Some(node_id) },
            Ghost(gain_node_is(node_id)),
        ),
        _ => true,
    }
}

/// The node ids of a track's default chain: MIDI source, audio source, gain
/// stage, instrument, those that are set.
pub open spec fn chain_ids(t: Track) -> Seq<NodeId> {
    opt_ids(t.midi_source_node) + opt_ids(t.audio_source_node) + opt_ids(t.gain_node) + opt_ids(t.instrument_node)
}

pub open spec fn opt_ids(o: Option<NodeId>) -> Seq<NodeId> {
    match o {
        Some(x) => seq![x],
        None => Seq::empty(),
    }
}

/// The nodes of `ids` that the graph holds, in the order of `ids`.
pub open spec fn present_nodes(g: AudioGraph, ids: Seq<NodeId>) -> Seq<GraphNodeView>
    decreases ids.len(),
{
    if ids.len() == 0 {
        Seq::empty()
    } else {
        let rest = present_nodes(g, ids.drop_last());
        if g.has_node(ids.last()) {
            rest.push(g.node_of(ids.last())@)
        } else {
            rest
        }
    }
}

/// The edges with an end among `ids`, in the graph's order.
pub open spec fn touching_edges(g: AudioGraph, ids: Seq<NodeId>) -> Seq<GraphEdge> {
    g.edge_seq().map_values(|kv: (EdgeId, GraphEdge)| kv.1).filter(
        |e: GraphEdge| ids.contains(e.from_node) || ids.contains(e.to_node),
    )
}

/// The edges of `g` with an end among `ids`, in the graph's order.
fn edges_touching(g: &AudioGraph, ids: &Vec<NodeId>) -> (edges: Vec<GraphEdge>)
    ensures
        edges@ == touching_edges(*g, ids@),
{
    let ghost all = g.edge_seq().map_values(|kv: (EdgeId, GraphEdge)| kv.1);
    let ghost touches = |e: GraphEdge| ids@.contains(e.from_node) || ids@.contains(e.to_node);
    let mut edges: Vec<GraphEdge> = Vec::new();
    let m = g.edge_count();
    let mut j: usize = 0;
    proof {
        reveal(Seq::filter);
        assert(all.take(0).filter(touches) =~= Seq::<GraphEdge>::empty());
    }
    while j < m
        invariant
            j <= m,
            m == g.edge_seq().len(),
            all == g.edge_seq().map_values(|kv: (EdgeId, GraphEdge)| kv.1),
            touches == (|e: GraphEdge| ids@.contains(e.from_node) || ids@.contains(e.to_node)),
            edges@ == all.take(j as int).filter(touches),
        decreases m - j,
    {
        let e = g.edge_at(j).unwrap();
        proof {
            assert(all.take(j as int + 1) =~= all.take(j as int).push(e));
            all.take(j as int).lemma_filter_push(e, touches);
        }
        if contains_id(ids, e.from_node) || contains_id(ids, e.to_node) {
            edges.push(e);
        }
        j = j + 1;
    }
    proof {
        assert(all.take(m as int) =~= all);
    }
    edges
}

/// The command that adds back track `track_id` with its chain nodes and the
/// edges touching them; `None` when there is no such track.
pub fn track_add_command(project: &Project, track_id: TrackId) -> (r: Option<Command>)
    ensures
        first_where(project.tracks@, track_id_is(track_id)) == -1 ==> r is None,
        first_where(project.tracks@, track_id_is(track_id)) != -1 ==> (r matches Some(
            Command::AddTrack { track, nodes, edges },
        ) && track == project.tracks@[first_where(project.tracks@, track_id_is(track_id))]
            && nodes@.map_values(|n: GraphNode| n@) == present_nodes(project.graph, chain_ids(track))
            && edges@ == touching_edges(project.graph, chain_ids(track))),
{
    let k = position_where(
        &project.tracks,
        |t: &Track| -> (b: bool) ensures b == (t.id == track_id) { t.id == track_id },
        Ghost(track_id_is(track_id)),
    );
    let k = match k {
        Some(k) => k,
        None => return None,
    };
    let track = project.tracks[k].duplicate();
    let mut ids: Vec<NodeId> = Vec::new();
    if let Some(id) = track.midi_source_node {
        ids.push(id);
    }
    if let Some(id) = track.audio_source_node {
        ids.push(id);
    }
    if let Some(id) = track.gain_node {
        ids.push(id);
    }
    if let Some(id) = track.instrument_node {
        ids.push(id);
    }
    proof {
        assert(ids@ =~= chain_ids(track));
    }
    let g = &project.graph;
    let mut nodes: Vec<GraphNode> = Vec::new();
    let mut i: usize = 0;
    while i < ids.len()
        invariant
            i <= ids.len(),
            nodes@.map_values(|n: GraphNode| n@) == present_nodes(*g, ids@.take(i as int)),
        decreases ids.len() - i,
    {
        proof {
            assert(ids@.take(i as int + 1).drop_last() =~= ids@.take(i as int));
        }
        match g.node(ids[i]) {
            Some(n) => {
                let d = n.duplicate();
                nodes.push(d);
                proof {
                    assert(g.node_of(ids@[i as int]) == *n);
                    assert(nodes@.map_values(|n: GraphNode| n@) =~= present_nodes(*g, ids@.take(i as int)).push(
                        d@,
                    ));
                }
            },
            None => {},
        }
        i = i + 1;
    }
    proof {
        assert(ids@.take(ids@.len() as int) =~= ids@);
    }
    let edges = edges_touching(g, &ids);
    Some(Command::AddTrack { track, nodes, edges })
}

/// The tracks with `id` no longer their instrument.
pub open spec fn unlinked(ts: Seq<Track>, id: NodeId) -> Seq<Track> {
    ts.map_values(|t: Track| unlink_one(t, id))
}

pub open spec fn unlink_one(t: Track, id: NodeId) -> Track {
    if t.instrument_node == Some(id) { Track { instrument_node: None, ..t } } else { t }
}

/// The last track whose instrument is `id`.
pub open spec fn last_instrument_track(ts: Seq<Track>, id: NodeId) -> Option<TrackId>
    decreases ts.len(),
{
    if ts.len() == 0 {
        None
    } else if ts.last().instrument_node == Some(id) {
        Some(ts.last().id)
    } else {
        last_instrument_track(ts.drop_last(), id)
    }
}

/// The plugin instance a node hosts, if it is a plugin.
pub open spec fn plugin_instance(k: NodeKind) -> Option<PluginInstanceId> {
    match k {
        NodeKind::PluginInstrument { instance_id, .. } => Some(instance_id),
        NodeKind::PluginEffect { instance_id, .. } => Some(instance_id),
        _ => None,
    }
}

fn unlink_instrument(tracks: &mut Vec<Track>, id: NodeId) -> (last: Option<TrackId>)
    ensures
        final(tracks)@ == unlinked(old(tracks)@, id),
        last == last_instrument_track(old(tracks)@, id),
{
    let ghost ts = tracks@;
    let mut last: Option<TrackId> = None;
    let mut i: usize = 0;
    while i < tracks.len()
        invariant
            i <= tracks.len(),
            tracks@.len() == ts.len(),
            forall|j: int| 0 <= j < i ==> #[trigger] tracks@[j] == unlink_one(ts[j], id),
            forall|j: int| i <= j < ts.len() ==> #[trigger] tracks@[j] == ts[j],
            last == last_instrument_track(ts.take(i as int), id),
        decreases tracks.len() - i,
    {
        proof {
            assert(ts.take(i as int + 1).drop_last() =~= ts.take(i as int));
            assert(ts.take(i as int + 1).last() == ts[i as int]);
        }
        if tracks[i].instrument_node == Some(id) {
            let mut t = tracks[i].duplicate();
            t.instrument_node = None;
            last = Some(t.id);
            tracks.set(i, t);
        }
        i = i + 1;
    }
    proof {
        assert(tracks@ =~= unlinked(ts, id));
        assert(ts.take(i as int) =~= ts);
    }
    last
}

/// Delete a graph node the way the editor does, returning the command that
/// records it; `None`, with nothing changed, when the node may not be
/// deleted. Deleting a plugin also drops its saved state and unlinks it
/// from the tracks that use it as their instrument.
pub fn remove_graph_node(project: &mut Project, node_id: NodeId) -> (r: Option<Command>)
    requires
        old(project).distinct_keys(),
    ensures
        !removable(*old(project), node_id) ==> r is None && *final(project) == *old(project),
        removable(*old(project), node_id) ==> ({
            let p0 = *old(project);
            let p1 = *final(project);
            let node = p0.graph.node_of(node_id);
            &&& r matches Some(Command::RemoveNode { node: n, edges, instrument_track, plugin_state })
                && n@ == node@
                && edges@ == touching_edges(p0.graph, seq![node_id])
                && match plugin_instance(node.kind) {
                    Some(i) => {
                        &&& instrument_track == last_instrument_track(p0.tracks@, node_id)
                        &&& p1.tracks@ == unlinked(p0.tracks@, node_id)
                        &&& plugin_state == value_of(blob_entries(p0.plugin_states), i)
                        &&& blob_entries(p1.plugin_states) == remove_entry(blob_entries(p0.plugin_states), i)
                    },
                    None => {
                        &&& instrument_track is None
                        &&& plugin_state is None
                        &&& p1.tracks == p0.tracks
                        &&& p1.plugin_states == p0.plugin_states
                    },
                }
            &&& node_removed(p0.graph, p1.graph, node_id)
            &&& p0.wf() ==> p1.wf()
            &&& p1.clips == p0.clips
            &&& p1.automation == p0.automation
            &&& p1.tempo == p0.tempo
            &&& p1.master_node == p0.master_node
            &&& p1.meta == p0.meta
            &&& settings_kept(p0, p1)
        }),
{
    if !can_remove_graph_node(project, node_id) {
        return None;
    }
    let node = project.graph.node(node_id).unwrap().duplicate();
    let mut ids: Vec<NodeId> = Vec::new();
    ids.push(node_id);
    proof {
        assert(ids@ =~= seq![node_id]);
    }
    let edges = edges_touching(&project.graph, &ids);
    let mut instrument_track: Option<TrackId> = None;
    let mut plugin_state: Option<PluginStateBlob> = None;
    match &node.kind {
        NodeKind::PluginInstrument { instance_id, .. } | NodeKind::PluginEffect { instance_id, .. } => {
            plugin_state = blobs_shift_remove(&mut project.plugin_states, *instance_id);
            instrument_track = unlink_instrument(&mut project.tracks, node_id);
        },
        _ => {},
    }
    proof {
        crate::keyed::lemma_remove_keeps_unique(blob_entries(old(project).plugin_states),
            match plugin_instance(node.kind) { Some(i) => i, None => 0 });
    }
    project.graph.remove_node(node_id);
    Some(Command::RemoveNode { node, edges, instrument_track, plugin_state })
}

pub open spec fn midi_track_is(id: TrackId) -> spec_fn(Track) -> bool {
    |t: Track| t.id == id && t.kind == TrackKind::Midi
}

pub open spec fn is_midi_track() -> spec_fn(Track) -> bool {
    |t: Track| t.kind == TrackKind::Midi
}

/// The track an instrument is loaded onto: the selected track if it is a
/// MIDI track, else the first MIDI track.
pub open spec fn target_track(ts: Seq<Track>, selected: Option<TrackId>) -> Option<TrackId> {
    let own = match selected {
        Some(id) => first_where(ts, midi_track_is(id)),
        None => -1,
    };
    if own >= 0 {
        Some(ts[own].id)
    } else if first_where(ts, is_midi_track()) >= 0 {
        Some(ts[first_where(ts, is_midi_track())].id)
    } else {
        None
    }
}

pub fn instrument_target_track(tracks: &Vec<Track>, selected: Option<TrackId>) -> (r: Option<TrackId>)
    ensures
        r == target_track(tracks@, selected),
{
    proof {
        crate::vecs::lemma_first_where(tracks@, is_midi_track());
    }
    if let Some(id) = selected {
        let k = position_where(
            tracks,
            |t: &Track| -> (b: bool) ensures b == (t.id == id && t.kind == TrackKind::Midi) {
                t.id == id && t.kind == TrackKind::Midi
            },
            Ghost(midi_track_is(id)),
        );
        if let Some(k) = k {
            return Some(tracks[k].id);
        }
    }
    let k = position_where(
        tracks,
        |t: &Track| -> (b: bool) ensures b == (t.kind == TrackKind::Midi) { t.kind == TrackKind::Midi },
        Ghost(is_midi_track()),
    );
    match k {
        Some(k) => Some(tracks[k].id),
        None => None,
    }
}

pub open spec fn instrument_is(node: NodeId) -> spec_fn(Track) -> bool {
    |t: Track| t.instrument_node == Some(node)
}

/// Undo the attachment of a plugin whose loading failed: drop its state and
/// its node, and unlink it from the first track using it as instrument.
pub fn discard_failed_plugin(project: &mut Project, node_id: NodeId, instance_id: PluginInstanceId)
    requires
        old(project).distinct_keys(),
    ensures
        ({
            let p0 = *old(project);
            let p1 = *final(project);
            let k = first_where(p0.tracks@, instrument_is(node_id));
            &&& blob_entries(p1.plugin_states) == remove_entry(blob_entries(p0.plugin_states), instance_id)
            &&& node_removed(p0.graph, p1.graph, node_id)
            &&& p1.tracks@ == (if k >= 0 {
                p0.tracks@.update(k, Track { instrument_node: None, ..p0.tracks@[k] })
            } else {
                p0.tracks@
            })
            &&& p0.wf() ==> p1.wf()
            &&& p1.clips == p0.clips
            &&& p1.automation == p0.automation
            &&& p1.tempo == p0.tempo
            &&& p1.meta == p0.meta
            &&& settings_kept(p0, p1)
        }),
{
    let _ = blobs_shift_remove(&mut project.plugin_states, instance_id);
    proof {
        crate::keyed::lemma_remove_keeps_unique(blob_entries(old(project).plugin_states), instance_id);
    }
    project.graph.remove_node(node_id);
    let k = position_where(
        &project.tracks,
        |t: &Track| -> (b: bool) ensures b == (t.instrument_node == Some(node_id)) { t.instrument_node == Some(node_id) },
        Ghost(instrument_is(node_id)),
    );
    if let Some(k) = k {
        let mut t = project.tracks[k].duplicate();
        t.instrument_node = None;
        project.tracks.set(k, t);
    }
}

/// What the plugin host reports of an instance, as the first entry of `st`
/// for it: whether it failed, and its latency.
pub open spec fn status_of(st: Seq<(PluginInstanceId, bool, u32)>, inst: PluginInstanceId) -> Option<(bool, u32)>
    decreases st.len(),
{
    if st.len() == 0 {
        None
    } else if st[0].0 == inst {
        Some((st[0].1, st[0].2))
    } else {
        status_of(st.drop_first(), inst)
    }
}

/// A node view with the reported status of its plugin instance, if any.
pub open spec fn synced(v: GraphNodeView, st: Seq<(PluginInstanceId, bool, u32)>) -> GraphNodeView {
    match plugin_instance(v.kind) {
        Some(i) => match status_of(st, i) {
            Some(r) => with_status(v, r.0, r.1),
            None => v,
        },
        None => v,
    }
}

fn find_status(st: &Vec<(PluginInstanceId, bool, u32)>, inst: PluginInstanceId) -> (r: Option<(bool, u32)>)
    ensures
        r == status_of(st@, inst),
{
    let mut i: usize = 0;
    proof {
        assert(st@.skip(0) =~= st@);
    }
    while i < st.len()
        invariant
            i <= st.len(),
            status_of(st@, inst) == status_of(st@.skip(i as int), inst),
        decreases st.len() - i,
    {
        proof {
            assert(st@.skip(i as int).drop_first() =~= st@.skip(i as int + 1));
            assert(st@.skip(i as int)[0] == st@[i as int]);
        }
        if st[i].0 == inst {
            return Some((st[i].1, st[i].2));
        }
        i = i + 1;
    }
    proof {
        assert(st@.skip(i as int) =~= Seq::<(PluginInstanceId, bool, u32)>::empty());
    }
    None
}

/// Bring the plugin nodes' failed flags and latencies in line with what the
/// plugin host reports (`status`, one entry per loaded instance); returns
/// whether anything changed, when the engine must get the new graph.
pub fn sync_plugin_runtime_state(graph: &mut AudioGraph, status: &Vec<(PluginInstanceId, bool, u32)>) -> (dirty: bool)
    requires
        old(graph).distinct_keys(),
    ensures
        old(graph).wf() ==> final(graph).wf(),
        final(graph).nodes_view() == old(graph).nodes_view().map_values(
            |e: (NodeId, GraphNodeView)| (e.0, synced(e.1, status@)),
        ),
        final(graph).edge_seq() == old(graph).edge_seq(),
        final(graph).user_arranged == old(graph).user_arranged,
        dirty == exists|i: int| 0 <= i < old(graph).nodes_view().len()
            && synced((#[trigger] old(graph).nodes_view()[i]).1, status@) != old(graph).nodes_view()[i].1,
{
    let ghost vs = graph.nodes_view();
    let ghost st = status@;
    let n = graph.node_count();
    let mut dirty = false;
    let mut i: usize = 0;
    proof {
        crate::keyed::lemma_map_vals_keys(graph.node_seq(), crate::graph::node_view_fn());
    }
    while i < n
        invariant
            i <= n,
            n == vs.len(),
            graph.distinct_keys(),
            old(graph).wf() ==> graph.wf(),
            st == status@,
            graph.edge_seq() == old(graph).edge_seq(),
            graph.user_arranged == old(graph).user_arranged,
            vs == old(graph).nodes_view(),
            crate::keyed::keys_unique(vs),
            graph.nodes_view().len() == n,
            forall|j: int| 0 <= j < n ==> (#[trigger] graph.nodes_view()[j]).0 == vs[j].0,
            forall|j: int| 0 <= j < i ==> (#[trigger] graph.nodes_view()[j]).1 == synced(vs[j].1, st),
            forall|j: int| i <= j < n ==> (#[trigger] graph.nodes_view()[j]).1 == vs[j].1,
            dirty == exists|j: int| 0 <= j < i && synced((#[trigger] vs[j]).1, st) != vs[j].1,
        decreases n - i,
    {
        let ghost cur = graph.nodes_view();
        let (id, node) = nodes_get_index(&graph.nodes, i).unwrap();
        let id = *id;
        let latency = node.latency_samples;
        let (inst, was_failed) = match &node.kind {
            NodeKind::PluginInstrument { instance_id, failed, .. } => (Some(*instance_id), *failed),
            NodeKind::PluginEffect { instance_id, failed, .. } => (Some(*instance_id), *failed),
            _ => (None, false),
        };
        proof {
            assert(cur[i as int].1 == graph.node_seq()[i as int].1@);
            assert(cur[i as int].0 == id);
        }
        if let Some(inst) = inst {
            if let Some((failed, lat)) = find_status(status, inst) {
                if failed != was_failed || lat != latency {
                    proof {
                        crate::keyed::lemma_map_vals_keys(graph.node_seq(), crate::graph::node_view_fn());
                        lemma_key_index_unique(cur, id, i as int);
                    }
                    graph.set_plugin_status(id, failed, lat);
                    dirty = true;
                    proof {
                        assert(graph.nodes_view() =~= cur.update(i as int, (id, with_status(vs[i as int].1, failed, lat))));
                    }
                }
            }
        }
        i = i + 1;
    }
    proof {
        assert(graph.nodes_view() =~= vs.map_values(|e: (NodeId, GraphNodeView)| (e.0, synced(e.1, st))));
    }
    dirty
}

/// The command that sets gain stage `node_id` to `gain_db` (an `f32` bit
/// pattern), keeping its pan and mute and recording the values it replaces;
/// `None` when no gain stage has that id.
pub fn gain_command(graph: &AudioGraph, node_id: NodeId, gain_db: u32) -> (r: Option<Command>)
    ensures
        match value_of(graph.node_seq(), node_id) {
            Some(n) => match n.kind {
                NodeKind::GainPan { gain_db: old_gain, pan, mute, .. } => r == Some(Command::SetGainPan {
                    node_id,
                    old_gain,
                    new_gain: gain_db,
                    old_pan: pan,
                    new_pan: pan,
                    old_mute: mute,
                    new_mute: mute,
                }),
                _ => r is None,
            },
            None => r is None,
        },
{
    match graph.node(node_id) {
        Some(n) => match &n.kind {
            NodeKind::GainPan { gain_db: old_gain, pan, mute, .. } => Some(Command::SetGainPan {
                node_id,
                old_gain: *old_gain,
                new_gain: gain_db,
                old_pan: *pan,
                new_pan: *pan,
                old_mute: *mute,
                new_mute: *mute,
            }),
            _ => None,
        },
        None => None,
    }
}

/// The command that deletes clip `clip_id`, carrying a copy of the clip
/// for undo; `None` when no clip has that id.
pub fn clip_removal_command(clips: &Vec<Clip>, clip_id: ClipId) -> (r: Option<Command>)
    ensures
        first_where(clips@, clip_id_is(clip_id)) == -1 ==> r is None,
        first_where(clips@, clip_id_is(clip_id)) != -1 ==> (r matches Some(Command::RemoveClip { clip })
            && clip@ == clips@[first_where(clips@, clip_id_is(clip_id))]@),
{
    match position_where(clips, |c: &Clip| -> (b: bool) ensures b == (c.id == clip_id) { c.id == clip_id },
        Ghost(clip_id_is(clip_id))) {
        Some(k) => Some(Command::RemoveClip { clip: clips[k].duplicate() }),
        None => None,
    }
}

/// What the host loads for a plugin node: the node id, the instance id, and
/// the plugin's uid and path; nothing for other nodes.
pub open spec fn load_target(e: (NodeId, GraphNode)) -> Option<(NodeId, PluginInstanceId, Seq<char>, Seq<char>)> {
    match e.1.kind {
        NodeKind::PluginInstrument { instance_id, plugin_uid, plugin_path, .. } =>
            Some((e.0, instance_id, plugin_uid@, plugin_path@)),
        NodeKind::PluginEffect { instance_id, plugin_uid, plugin_path, .. } =>
            Some((e.0, instance_id, plugin_uid@, plugin_path@)),
        _ => None,
    }
}

/// The load targets of the plugin nodes of `ns`, in order.
pub open spec fn load_targets(ns: Seq<(NodeId, GraphNode)>) -> Seq<(NodeId, PluginInstanceId, Seq<char>, Seq<char>)>
    decreases ns.len(),
{
    if ns.len() == 0 {
        Seq::empty()
    } else {
        let front = load_targets(ns.drop_last());
        match load_target(ns.last()) {
            Some(t) => front.push(t),
            None => front,
        }
    }
}

pub open spec fn target_view(t: (NodeId, PluginInstanceId, String, String)) -> (NodeId, PluginInstanceId, Seq<char>, Seq<char>) {
    (t.0, t.1, t.2@, t.3@)
}

/// The plugin nodes the host loads again when a project is opened, in node
/// order, each with its instance id, uid and path.
pub fn plugin_load_targets(graph: &AudioGraph) -> (r: Vec<(NodeId, PluginInstanceId, String, String)>)
    ensures
        r@.map_values(|t: (NodeId, PluginInstanceId, String, String)| target_view(t)) == load_targets(graph.node_seq()),
{
    let mut out: Vec<(NodeId, PluginInstanceId, String, String)> = Vec::new();
    let n = graph.node_count();
    let mut i: usize = 0;
    while i < n
        invariant
            n == graph.node_seq().len(),
            i <= n,
            out@.map_values(|t: (NodeId, PluginInstanceId, String, String)| target_view(t))
                == load_targets(graph.node_seq().take(i as int)),
        decreases n - i,
    {
        let ghost before = out@;
        let (id, node) = nodes_get_index(&graph.nodes, i).unwrap();
        match &node.kind {
            NodeKind::PluginInstrument { instance_id, plugin_uid, plugin_path, .. } => {
                out.push((*id, *instance_id, plugin_uid.clone(), plugin_path.clone()));
            },
            NodeKind::PluginEffect { instance_id, plugin_uid, plugin_path, .. } => {
                out.push((*id, *instance_id, plugin_uid.clone(), plugin_path.clone()));
            },
            _ => {},
        }
        proof {
            let ns = graph.node_seq();
            assert(ns.take(i + 1).drop_last() =~= ns.take(i as int));
            assert(ns.take(i + 1).last() == ns[i as int]);
            assert(out@.map_values(|t: (NodeId, PluginInstanceId, String, String)| target_view(t))
                =~= load_targets(ns.take(i + 1)));
        }
        i = i + 1;
    }
    proof {
        assert(graph.node_seq().take(n as int) =~= graph.node_seq());
    }
    out
}

} // verus!
