//! The project document: tracks, clips, routing graph, plugin state and
//! automation lanes.
use vstd::prelude::*;
use crate::ids::{new_id, AssetId, NodeId, TrackId, PluginInstanceId, AutomationLaneId, PortId};
use crate::keyed::{keys_unique, has_key, key_index, value_of, insert_entry, remove_entry, map_vals,
    lemma_insert_keeps_unique, lemma_remove_keeps_unique, lemma_map_vals_insert, lemma_map_vals_remove,
    lemma_map_vals_keys};
use crate::graph::{AudioGraph, GraphNode, GraphNodeView, NodeKind, Port, PortType, port_is, stereo_pair,
    connect_stereo_post, connect_post, first_port, edge_filter, EdgeFilter, retain_edges, POS_200, normalized_from};
use crate::dag::has_cycle;
use crate::clips::{Clip, Track, TrackKind};
use crate::time::TransportState;
use crate::text::concat;
use crate::plan::CompiledPlan;
use indexmap::IndexMap;

verus! {

broadcast use vstd::string::group_string_axioms;

pub const PROJECT_VERSION: u32 = 2;

#[verifier::external_type_specification]
#[verifier::external_body]
pub struct ExIoError(std::io::Error);

#[verifier::external_type_specification]
#[verifier::external_body]
pub struct ExJsonError(serde_json::Error);

#[verifier::external_type_specification]
#[verifier::external_body]
pub struct ExZipError(zip::result::ZipError);

/// Why loading, saving or checking a project failed.
#[derive(Debug)]
pub enum ProjectError {
    Io(std::io::Error),
    Serde(serde_json::Error),
    Zip(zip::result::ZipError),
    UnsupportedVersion(u32),
    Invalid(String),
}

/// The version a loaded project is brought to: the current one, unless it
/// was written by a newer version, which is refused.
pub fn migrated_version(version: u32) -> (r: Result<u32, ProjectError>)
    ensures
        version > PROJECT_VERSION ==> (r matches Err(ProjectError::UnsupportedVersion(v)) && v == version),
        version <= PROJECT_VERSION ==> (r matches Ok(v) && v == PROJECT_VERSION),
{
    if version > PROJECT_VERSION {
        Err(ProjectError::UnsupportedVersion(version))
    } else {
        Ok(PROJECT_VERSION)
    }
}

/// `f64` bit patterns of 120.0 (default tempo) and 16.0 (default loop end).
pub const BPM_120_BITS: u64 = 0x405e_0000_0000_0000;
pub const BEATS_16_BITS: u64 = 0x4030_0000_0000_0000;

/// `f32` bit patterns of the x positions of new track nodes (40.0, 360.0).
pub const POS_40: u32 = 0x4220_0000;
pub const POS_360: u32 = 0x43b4_0000;

/// Constant-tempo map; `bpm` is an `f64` bit pattern.
#[derive(Debug, Clone, Copy, PartialEq, Eq, Structural)]
pub struct TempoMap {
    pub bpm: u64,
    pub beats_per_bar: u32,
    pub beat_unit: u32,
    pub sample_rate: u32,
}

impl TempoMap {
    pub fn default() -> (t: TempoMap)
        ensures
            t == (TempoMap { bpm: BPM_120_BITS, beats_per_bar: 4, beat_unit: 4, sample_rate: 48_000 }),
    {
        TempoMap { bpm: BPM_120_BITS, beats_per_bar: 4, beat_unit: 4, sample_rate: 48_000 }
    }

    /// Length of one bar in quarter-note beats, as the fraction
    /// `(numerator, denominator)`: the bar's count of beats times 4, over the
    /// beat unit (6/8 gives 24/8, three quarter notes). A count or unit of 0
    /// is taken as 1.
    pub fn bar_length_beats(&self) -> (r: (u64, u64))
        ensures
            r.0 == 4 * (if self.beats_per_bar == 0 { 1 } else { self.beats_per_bar }),
            r.1 == (if self.beat_unit == 0 { 1 } else { self.beat_unit }),
    {
        let count: u64 = if self.beats_per_bar == 0 { 1 } else { self.beats_per_bar as u64 };
        let unit: u64 = if self.beat_unit == 0 { 1 } else { self.beat_unit as u64 };
        (4 * count, unit)
    }
}

#[derive(Debug, Clone, PartialEq, Eq)]
pub struct ProjectMeta {
    pub version: u32,
    pub name: String,
    pub created_unix_ms: u64,
    pub modified_unix_ms: u64,
}

#[derive(Debug, Clone)]
pub struct PluginStateBlob {
    pub instance_id: PluginInstanceId,
    pub plugin_uid: String,
    pub data: Vec<u8>,
}

pub ghost struct BlobView {
    pub instance_id: PluginInstanceId,
    pub plugin_uid: Seq<char>,
    pub data: Seq<u8>,
}

impl View for PluginStateBlob {
    type V = BlobView;

    open spec fn view(&self) -> BlobView {
        BlobView { instance_id: self.instance_id, plugin_uid: self.plugin_uid@, data: self.data@ }
    }
}

pub open spec fn blob_view_fn() -> spec_fn(PluginStateBlob) -> BlobView {
    |b: PluginStateBlob| b@
}

impl PluginStateBlob {
    pub fn duplicate(&self) -> (r: PluginStateBlob)
        ensures
            r@ == self@,
    {
        let mut data: Vec<u8> = Vec::new();
        let mut i: usize = 0;
        while i < self.data.len()
            invariant
                i <= self.data.len(),
                data@ == self.data@.take(i as int),
            decreases self.data.len() - i,
        {
            data.push(self.data[i]);
            i = i + 1;
        }
        assert(self.data@.take(self.data.len() as int) =~= self.data@);
        PluginStateBlob { instance_id: self.instance_id, plugin_uid: self.plugin_uid.clone(), data }
    }
}

/// A media file registered with the project.
#[derive(Debug, Clone)]
pub struct Asset {
    pub id: AssetId,
    pub name: String,
    /// Path relative to the project directory.
    pub relative_path: String,
    pub kind: AssetKind,
    pub sample_rate: u32,
    pub channels: u16,
    pub length_samples: u64,
    pub missing: bool,
}

#[derive(Debug, Clone, Copy, PartialEq, Eq, Structural)]
pub enum AssetKind {
    Audio,
    MidiFile,
}

/// Entries of the asset registry, in order.
pub uninterp spec fn asset_entries(m: IndexMap<AssetId, Asset>) -> Seq<(AssetId, Asset)>;

/// `IndexMap::new` for the asset registry: an empty map.
#[verifier::external_body]
fn assets_new() -> (m: IndexMap<AssetId, Asset>)
    ensures
        asset_entries(m) == Seq::<(AssetId, Asset)>::empty(),
{
    IndexMap::new()
}

/// Entries of the plugin-state map, in order.
pub uninterp spec fn blob_entries(m: IndexMap<PluginInstanceId, PluginStateBlob>) -> Seq<(PluginInstanceId, PluginStateBlob)>;

/// `IndexMap::new` for the plugin-state map: an empty map.
#[verifier::external_body]
fn blobs_new() -> (m: IndexMap<PluginInstanceId, PluginStateBlob>)
    ensures
        blob_entries(m) == Seq::<(PluginInstanceId, PluginStateBlob)>::empty(),
{
    IndexMap::new()
}

/// `IndexMap::insert` on the plugin-state map: an existing key keeps its
/// place and takes the new value; a new key goes last.
#[verifier::external_body]
pub(crate) fn blobs_insert(m: &mut IndexMap<PluginInstanceId, PluginStateBlob>, k: PluginInstanceId, v: PluginStateBlob) -> (r: Option<PluginStateBlob>)
    ensures
        blob_entries(*final(m)) == insert_entry(blob_entries(*old(m)), k, v),
        r == value_of(blob_entries(*old(m)), k),
{
    m.insert(k, v)
}

/// `IndexMap::shift_remove` on the plugin-state map: removes the entry of
/// `k`, shifting the later entries down.
#[verifier::external_body]
pub(crate) fn blobs_shift_remove(m: &mut IndexMap<PluginInstanceId, PluginStateBlob>, k: PluginInstanceId) -> (r: Option<PluginStateBlob>)
    ensures
        blob_entries(*final(m)) == remove_entry(blob_entries(*old(m)), k),
        r == value_of(blob_entries(*old(m)), k),
{
    m.shift_remove(&k)
}

/// `IndexMap::len` on the plugin-state map.
#[verifier::external_body]
fn blobs_len(m: &IndexMap<PluginInstanceId, PluginStateBlob>) -> (r: usize)
    ensures
        r == blob_entries(*m).len(),
{
    m.len()
}

/// `IndexMap::get_index` on the plugin-state map: the entry at position `i`.
#[verifier::external_body]
fn blobs_get_index(m: &IndexMap<PluginInstanceId, PluginStateBlob>, i: usize)
    -> (r: Option<(&PluginInstanceId, &PluginStateBlob)>)
    ensures
        r is Some <==> i < blob_entries(*m).len(),
        r matches Some(kv) ==> *kv.0 == blob_entries(*m)[i as int].0 && *kv.1 == blob_entries(*m)[i as int].1,
{
    m.get_index(i)
}

/// Milliseconds since the Unix epoch from the system clock, by
/// `SystemTime::elapsed` on `UNIX_EPOCH` (0 if the clock is before the
/// epoch). Nothing is stated of the value: it is the time.
#[verifier::external_body]
pub(crate) fn unix_ms() -> (t: u64) {
    std::time::UNIX_EPOCH.elapsed().map(|d| d.as_millis() as u64).unwrap_or(0)
}

#[derive(Debug, Clone, Copy, PartialEq, Eq, Structural)]
pub enum AutomationTarget {
    NodeGain { node_id: NodeId },
    NodePan { node_id: NodeId },
    PluginParam { instance_id: PluginInstanceId, param_id: u32 },
}

/// One automation point: `beat` is an `f64` and `value` an `f32` bit pattern.
#[derive(Debug, Clone, Copy, PartialEq, Eq, Structural)]
pub struct AutomationPoint {
    pub beat: u64,
    pub value: u32,
}

#[derive(Debug, Clone)]
pub struct AutomationLane {
    pub id: AutomationLaneId,
    pub target: AutomationTarget,
    pub points: Vec<AutomationPoint>,
    pub enabled: bool,
}

pub ghost struct LaneView {
    pub id: AutomationLaneId,
    pub target: AutomationTarget,
    pub points: Seq<AutomationPoint>,
    pub enabled: bool,
}

impl View for AutomationLane {
    type V = LaneView;

    open spec fn view(&self) -> LaneView {
        LaneView { id: self.id, target: self.target, points: self.points@, enabled: self.enabled }
    }
}

#[derive(Debug)]
pub struct Project {
    pub meta: ProjectMeta,
    pub tempo: TempoMap,
    pub transport: TransportState,
    pub loop_enabled: bool,
    /// Loop bounds in beats (`f64` bits).
    pub loop_start_beats: u64,
    pub loop_end_beats: u64,
    pub tracks: Vec<Track>,
    pub clips: Vec<Clip>,
    pub graph: AudioGraph,
    pub master_node: NodeId,
    pub automation: Vec<AutomationLane>,
    pub assets: IndexMap<AssetId, Asset>,
    pub plugin_states: IndexMap<PluginInstanceId, PluginStateBlob>,
    /// Working directory for live asset I/O (runtime only).
    ///
    /// For `.ctgdaw` projects this is an extracted temporary workspace; the
    /// user-facing path lives in the host app as `project_path`.
    pub root_dir: Option<String>,
}

/// Transport, loop, master, assets, workspace and the name, version and
/// creation time of the project are the same in `p0` and `p1`.
pub open spec fn settings_kept(p0: Project, p1: Project) -> bool {
    &&& p1.meta.version == p0.meta.version
    &&& p1.meta.name == p0.meta.name
    &&& p1.meta.created_unix_ms == p0.meta.created_unix_ms
    &&& p1.transport == p0.transport
    &&& p1.loop_enabled == p0.loop_enabled
    &&& p1.loop_start_beats == p0.loop_start_beats
    &&& p1.loop_end_beats == p0.loop_end_beats
    &&& p1.master_node == p0.master_node
    &&& p1.assets == p0.assets
    &&& p1.root_dir == p0.root_dir
}

/// `p1` is `p0` with only its modification time changed.
pub open spec fn touched(p0: Project, p1: Project) -> bool {
    p1 == Project { meta: ProjectMeta { modified_unix_ms: p1.meta.modified_unix_ms, ..p0.meta }, ..p0 }
}

/// A MIDI clip source node of the given track, as `add_midi_track` builds it.
pub open spec fn is_midi_source_view(v: GraphNodeView, id: NodeId, track_id: TrackId, name: Seq<char>, y: u32) -> bool {
    &&& v.id == id
    &&& v.name == name + " MIDI"@
    &&& v.kind == (NodeKind::MidiClipSource { track_id })
    &&& v.inputs.len() == 0
    &&& v.outputs.len() == 1
    &&& port_is(v.outputs[0], "MIDI Out"@, PortType::Midi, false, 0)
    &&& v.position == [POS_40, y]
    &&& v.latency_samples == 0
}

/// An audio clip source node of the given track, as `add_audio_track` builds it.
pub open spec fn is_audio_source_view(v: GraphNodeView, id: NodeId, track_id: TrackId, name: Seq<char>, y: u32) -> bool {
    &&& v.id == id
    &&& v.name == name + " Audio"@
    &&& v.kind == (NodeKind::AudioClipSource { track_id })
    &&& v.inputs.len() == 0
    &&& stereo_pair(v.outputs, false)
    &&& v.position == [POS_40, y]
    &&& v.latency_samples == 0
}

/// A track gain stage, as the track constructors build it.
pub open spec fn is_gain_view(v: GraphNodeView, id: NodeId, name: Seq<char>, y: u32) -> bool {
    &&& v.id == id
    &&& v.name == name + " Gain"@
    &&& v.kind == (NodeKind::GainPan { gain_db: 0, pan: 0, mute: false, solo: false })
    &&& stereo_pair(v.inputs, true)
    &&& stereo_pair(v.outputs, false)
    &&& v.position == [POS_360, y]
    &&& v.latency_samples == 0
}

/// How `add_midi_track` wires the graph: the source `mv` and gain `gv` are
/// added (giving `g1`), then the gain is wired to the master.
pub open spec fn midi_track_wiring(g0: AudioGraph, g: AudioGraph, master: NodeId, t: Track, name: Seq<char>, y: u32,
    mv: GraphNodeView, gv: GraphNodeView, g1: AudioGraph, r: Result<(crate::ids::EdgeId, crate::ids::EdgeId), crate::graph::GraphError>) -> bool
{
    &&& is_midi_source_view(mv, t.midi_source_node->0, t.id, name, y)
    &&& is_gain_view(gv, t.gain_node->0, name, y)
    &&& g0.wf() ==> g1.wf()
    &&& g1.nodes_view() == insert_entry(insert_entry(g0.nodes_view(), mv.id, mv), gv.id, gv)
    &&& g1.edge_seq() == g0.edge_seq()
    &&& connect_stereo_post(g1, g, gv.id, master, r)
}

/// How `add_audio_track` wires the graph: source `av` and gain `gv` are
/// added (giving `g1`), the source is wired to the gain (`g2`), then the
/// gain to the master.
pub open spec fn audio_track_wiring(g0: AudioGraph, g: AudioGraph, master: NodeId, t: Track, name: Seq<char>, y: u32,
    av: GraphNodeView, gv: GraphNodeView, g1: AudioGraph, g2: AudioGraph,
    r1: Result<(crate::ids::EdgeId, crate::ids::EdgeId), crate::graph::GraphError>,
    r2: Result<(crate::ids::EdgeId, crate::ids::EdgeId), crate::graph::GraphError>) -> bool
{
    &&& is_audio_source_view(av, t.audio_source_node->0, t.id, name, y)
    &&& is_gain_view(gv, t.gain_node->0, name, y)
    &&& g0.wf() ==> g1.wf()
    &&& g1.nodes_view() == insert_entry(insert_entry(g0.nodes_view(), av.id, av), gv.id, gv)
    &&& g1.edge_seq() == g0.edge_seq()
    &&& connect_stereo_post(g1, g2, av.id, gv.id, r1)
    &&& connect_stereo_post(g2, g, gv.id, master, r2)
}

impl Project {
    /// Plugin-state entries, each blob by its view.
    pub open spec fn states_view(&self) -> Seq<(PluginInstanceId, BlobView)> {
        map_vals(blob_entries(self.plugin_states), blob_view_fn())
    }

    /// The routing graph is well formed and plugin states have distinct ids.
    pub open spec fn wf(&self) -> bool {
        &&& self.graph.wf()
        &&& keys_unique(blob_entries(self.plugin_states))
    }

    /// Each key occurs once in the graph's maps and in the plugin states.
    /// Every `IndexMap` meets this; it is stated because the maps are read
    /// through the names of their entries.
    pub open spec fn distinct_keys(&self) -> bool {
        &&& self.graph.distinct_keys()
        &&& keys_unique(blob_entries(self.plugin_states))
    }

    /// Room for `n` more nodes and `e` more edges.
    pub open spec fn has_room(&self, n: int, e: int) -> bool {
        &&& self.graph.node_seq().len() + n < u32::MAX
        &&& self.graph.edge_seq().len() + e < u32::MAX
    }

    pub fn new(name: String) -> (p: Project)
        ensures
            p.wf(),
            p.meta.version == PROJECT_VERSION,
            p.meta.name == name,
            p.meta.created_unix_ms == p.meta.modified_unix_ms,
            p.tempo == (TempoMap { bpm: BPM_120_BITS, beats_per_bar: 4, beat_unit: 4, sample_rate: 48_000 }),
            p.transport == TransportState::Stopped,
            !p.loop_enabled,
            p.loop_start_beats == 0,
            p.loop_end_beats == BEATS_16_BITS,
            p.tracks@.len() == 0,
            p.clips@.len() == 0,
            p.automation@.len() == 0,
            blob_entries(p.plugin_states).len() == 0,
            asset_entries(p.assets).len() == 0,
            p.root_dir is None,
            p.graph.edge_seq().len() == 0,
            p.graph.node_seq().len() == 1,
            p.graph.node_seq()[0].0 == p.master_node,
            p.graph.node_seq()[0].1.kind == NodeKind::MasterOutput,
            !p.graph.user_arranged,
    {
        let mut graph = AudioGraph::new();
        let master = GraphNode::master_output();
        let master_id = master.id;
        graph.add_node(master);
        let now = unix_ms();
        Project {
            meta: ProjectMeta { version: PROJECT_VERSION, name, created_unix_ms: now, modified_unix_ms: now },
            tempo: TempoMap::default(),
            transport: TransportState::Stopped,
            loop_enabled: false,
            loop_start_beats: 0,
            loop_end_beats: BEATS_16_BITS,
            tracks: Vec::new(),
            clips: Vec::new(),
            graph,
            master_node: master_id,
            automation: Vec::new(),
            assets: assets_new(),
            plugin_states: blobs_new(),
            root_dir: None,
        }
    }

    /// Stamp the modification time from the system clock.
    pub fn touch(&mut self)
        ensures
            final(self).meta.version == old(self).meta.version,
            final(self).meta.name == old(self).meta.name,
            final(self).meta.created_unix_ms == old(self).meta.created_unix_ms,
            final(self).tempo == old(self).tempo,
            final(self).transport == old(self).transport,
            final(self).loop_enabled == old(self).loop_enabled,
            final(self).loop_start_beats == old(self).loop_start_beats,
            final(self).loop_end_beats == old(self).loop_end_beats,
            final(self).tracks == old(self).tracks,
            final(self).clips == old(self).clips,
            final(self).graph == old(self).graph,
            final(self).master_node == old(self).master_node,
            final(self).automation == old(self).automation,
            final(self).plugin_states == old(self).plugin_states,
            final(self).assets == old(self).assets,
            final(self).root_dir == old(self).root_dir,
            touched(*old(self), *final(self)),
    {
        self.meta.modified_unix_ms = unix_ms();
    }

    /// Add a MIDI track: a MIDI clip source and a gain stage wired to the
    /// master. `row_y` is the `f32` bit pattern of the editor row of the new
    /// nodes (`tracks.len() * 100.0`).
    pub fn add_midi_track(&mut self, name: String, row_y: u32) -> (id: TrackId)
        requires
            old(self).distinct_keys(),
            old(self).has_room(2, 2),
        ensures
            old(self).wf() ==> final(self).wf(),
            final(self).tracks@.len() == old(self).tracks@.len() + 1,
            final(self).tracks@.drop_last() == old(self).tracks@,
            ({
                let t = final(self).tracks@.last();
                &&& t.id == id
                &&& t.name == name
                &&& t.kind == TrackKind::Midi
                &&& t.midi_source_node is Some
                &&& t.gain_node is Some
                &&& t.instrument_node is None
                &&& t.audio_source_node is None
                &&& exists|mv: GraphNodeView, gv: GraphNodeView, g1: AudioGraph, r: Result<(crate::ids::EdgeId, crate::ids::EdgeId), crate::graph::GraphError>|
                    #[trigger] midi_track_wiring(old(self).graph, final(self).graph, old(self).master_node, t, name@, row_y, mv, gv, g1, r)
            }),
            final(self).clips == old(self).clips,
            final(self).master_node == old(self).master_node,
            final(self).tempo == old(self).tempo,
            final(self).plugin_states == old(self).plugin_states,
            final(self).automation == old(self).automation,
            settings_kept(*old(self), *final(self)),
    {
        let mut track = Track::new_midi(name.clone());
        let mut midi_src = GraphNode::midi_clip_source(track.id, concat(name.as_str(), " MIDI"));
        midi_src.position = [POS_40, row_y];
        let midi_id = midi_src.id;
        let mut gain = GraphNode::stereo_gain_pan(concat(name.as_str(), " Gain"));
        gain.position = [POS_360, row_y];
        let gain_id = gain.id;
        track.midi_source_node = Some(midi_id);
        track.gain_node = Some(gain_id);
        let ghost mv = midi_src@;
        let ghost gv = gain@;
        self.graph.add_node(midi_src);
        self.graph.add_node(gain);
        let ghost g1 = self.graph;
        proof {
            lemma_insert_keeps_unique(self.graph.node_seq(), gain_id, gain);
        }
        let r = self.graph.connect_stereo(gain_id, self.master_node);
        let id = track.id;
        self.tracks.push(track);
        self.touch();
        proof {
            assert(is_midi_source_view(mv, midi_id, id, name@, row_y));
            assert(is_gain_view(gv, gain_id, name@, row_y));
            assert(connect_stereo_post(g1, self.graph, gv.id, self.master_node, r));
            assert(midi_track_wiring(old(self).graph, self.graph, old(self).master_node, self.tracks@.last(), name@, row_y, mv, gv, g1, r));
        }
        id
    }

    /// Add an audio track: an audio clip source wired through a gain stage
    /// to the master. `row_y` as for `add_midi_track`.
    pub fn add_audio_track(&mut self, name: String, row_y: u32) -> (id: TrackId)
        requires
            old(self).distinct_keys(),
            old(self).has_room(2, 4),
        ensures
            old(self).wf() ==> final(self).wf(),
            final(self).tracks@.len() == old(self).tracks@.len() + 1,
            final(self).tracks@.drop_last() == old(self).tracks@,
            ({
                let t = final(self).tracks@.last();
                &&& t.id == id
                &&& t.name == name
                &&& t.kind == TrackKind::Audio
                &&& t.audio_source_node is Some
                &&& t.gain_node is Some
                &&& t.instrument_node is None
                &&& t.midi_source_node is None
                &&& exists|av: GraphNodeView, gv: GraphNodeView, g1: AudioGraph, g2: AudioGraph,
                    r1: Result<(crate::ids::EdgeId, crate::ids::EdgeId), crate::graph::GraphError>,
                    r2: Result<(crate::ids::EdgeId, crate::ids::EdgeId), crate::graph::GraphError>|
                    #[trigger] audio_track_wiring(old(self).graph, final(self).graph, old(self).master_node, t, name@, row_y, av, gv, g1, g2, r1, r2)
            }),
            final(self).clips == old(self).clips,
            final(self).master_node == old(self).master_node,
            final(self).tempo == old(self).tempo,
            final(self).plugin_states == old(self).plugin_states,
            final(self).automation == old(self).automation,
            settings_kept(*old(self), *final(self)),
    {
        let mut track = Track::new_audio(name.clone());
        let mut audio_src = GraphNode::audio_clip_source(track.id, concat(name.as_str(), " Audio"));
        audio_src.position = [POS_40, row_y];
        let audio_id = audio_src.id;
        let mut gain = GraphNode::stereo_gain_pan(concat(name.as_str(), " Gain"));
        gain.position = [POS_360, row_y];
        let gain_id = gain.id;
        track.audio_source_node = Some(audio_id);
        track.gain_node = Some(gain_id);
        let ghost av = audio_src@;
        let ghost gv = gain@;
        self.graph.add_node(audio_src);
        self.graph.add_node(gain);
        let ghost g1 = self.graph;
        let r1 = self.graph.connect_stereo(audio_id, gain_id);
        let ghost g2 = self.graph;
        proof {
            lemma_stereo_growth(g1, g2, audio_id, gain_id, r1);
        }
        let r2 = self.graph.connect_stereo(gain_id, self.master_node);
        let id = track.id;
        self.tracks.push(track);
        self.touch();
        proof {
            assert(is_audio_source_view(av, audio_id, id, name@, row_y));
            assert(is_gain_view(gv, gain_id, name@, row_y));
            assert(connect_stereo_post(g1, g2, av.id, gv.id, r1));
            assert(connect_stereo_post(g2, self.graph, gv.id, self.master_node, r2));
            assert(audio_track_wiring(old(self).graph, self.graph, old(self).master_node, self.tracks@.last(), name@, row_y, av, gv, g1, g2, r1, r2));
        }
        id
    }
}

/// Position of the first track with id `id`, or -1.
pub open spec fn track_pos(ts: Seq<Track>, id: TrackId) -> int
    decreases ts.len(),
{
    if ts.len() == 0 {
        -1
    } else if ts.last().id == id && track_pos(ts.drop_last(), id) == -1 {
        ts.len() - 1
    } else {
        track_pos(ts.drop_last(), id)
    }
}

proof fn lemma_track_pos(ts: Seq<Track>, id: TrackId)
    ensures
        -1 <= track_pos(ts, id) < ts.len(),
        track_pos(ts, id) >= 0 ==> ts[track_pos(ts, id)].id == id
            && forall|j: int| 0 <= j < track_pos(ts, id) ==> (#[trigger] ts[j]).id != id,
        track_pos(ts, id) == -1 ==> forall|j: int| 0 <= j < ts.len() ==> (#[trigger] ts[j]).id != id,
    decreases ts.len(),
{
    if ts.len() > 0 {
        lemma_track_pos(ts.drop_last(), id);
        assert forall|j: int| 0 <= j < ts.len() - 1 implies ts.drop_last()[j] == ts[j] by {}
    }
}

/// Position of the first track with id `id`, if any.
pub fn find_track(ts: &Vec<Track>, id: TrackId) -> (r: Option<usize>)
    ensures
        r is None <==> track_pos(ts@, id) == -1,
        r matches Some(i) ==> i as int == track_pos(ts@, id) && i < ts@.len() && ts@[i as int].id == id,
{
    proof {
        lemma_track_pos(ts@, id);
    }
    let mut i: usize = 0;
    while i < ts.len()
        invariant
            i <= ts.len(),
            forall|j: int| 0 <= j < i ==> (#[trigger] ts@[j]).id != id,
        decreases ts.len() - i,
    {
        if ts[i].id == id {
            proof {
                lemma_track_pos(ts@, id);
                assert(ts@[i as int].id == id);
                let p = track_pos(ts@, id);
                if p >= 0 && p < i {
                    assert(ts@[p].id == id);
                }
            }
            return Some(i);
        }
        i = i + 1;
    }
    proof {
        lemma_track_pos(ts@, id);
        if track_pos(ts@, id) >= 0 {
            assert(ts@[track_pos(ts@, id)].id == id);
        }
    }
    None
}

/// A plugin instrument node as `attach_plugin_instrument` builds it.
pub open spec fn is_instrument_view(v: GraphNodeView, id: NodeId, instance_id: PluginInstanceId, format: String,
    uid: String, path: String, name: String, y: u32) -> bool
{
    &&& v.id == id
    &&& v.name == name@
    &&& v.kind == (NodeKind::PluginInstrument { instance_id, plugin_format: format, plugin_uid: uid,
        plugin_path: path, plugin_name: name, failed: false })
    &&& v.inputs.len() == 1
    &&& port_is(v.inputs[0], "MIDI"@, PortType::Midi, true, 0)
    &&& v.outputs.len() == 2
    &&& port_is(v.outputs[0], "L"@, PortType::Audio, false, 0)
    &&& port_is(v.outputs[1], "R"@, PortType::Audio, false, 1)
    &&& v.position == [POS_200, y]
    &&& v.latency_samples == 0
}

/// How `attach_plugin_instrument` rewires the graph of a MIDI track whose
/// source is `src` and gain `gain`: the previous instrument (if any) is
/// removed (`g1`), edges leaving the source are dropped (`g2`), the new
/// instrument `iv` is added (`g3`), source -> instrument MIDI is wired
/// (`g4`), then instrument -> gain stereo.
pub open spec fn instrument_wiring(g0: AudioGraph, g: AudioGraph, old_instrument: Option<NodeId>, src: NodeId,
    gain: NodeId, iv: GraphNodeView, g1: AudioGraph, g2: AudioGraph, g3: AudioGraph, g4: AudioGraph,
    rm: Result<crate::ids::EdgeId, crate::graph::GraphError>,
    rs: Result<(crate::ids::EdgeId, crate::ids::EdgeId), crate::graph::GraphError>) -> bool
{
    &&& (match old_instrument {
        Some(old_id) => g1.nodes_view() == remove_entry(g0.nodes_view(), old_id) && (g0.wf() ==> g1.wf())
            && (has_key(g0.nodes_view(), old_id) ==> g1.edge_seq() == retain_edges(g0.edge_seq(), edge_filter(EdgeFilter::NotTouching(old_id))))
            && (!has_key(g0.nodes_view(), old_id) ==> g1.edge_seq() == g0.edge_seq()),
        None => g1 == g0,
    })
    &&& (g0.wf() ==> g2.wf()) && g2.nodes_view() == g1.nodes_view()
    &&& g2.edge_seq() == retain_edges(g1.edge_seq(), edge_filter(EdgeFilter::NotFrom(src)))
    &&& (g0.wf() ==> g3.wf()) && g3.nodes_view() == insert_entry(g2.nodes_view(), iv.id, iv) && g3.edge_seq() == g2.edge_seq()
    &&& (g0.wf() ==> g4.wf()) && g4.node_seq() == g3.node_seq()
    &&& ({
        let fp = if g3.has_node(src) { first_port(g3.node_of(src).outputs@, PortType::Midi, None) } else { None };
        let tp = if g3.has_node(iv.id) { first_port(g3.node_of(iv.id).inputs@, PortType::Midi, None) } else { None };
        if fp is None || tp is None {
            rm == Err::<crate::ids::EdgeId, crate::graph::GraphError>(crate::graph::GraphError::PortNotFound) && g4 == g3
        } else {
            connect_post(g3, g4, src, fp->0, iv.id, tp->0, rm)
        }
    })
    &&& connect_stereo_post(g4, g, iv.id, gain, rs)
}

/// What `attach_plugin_instrument` does to `p0`, giving `p1` and `r`: nothing
/// and `None` when the track is missing, is not a MIDI track, or lacks its
/// source or gain node; otherwise the track records the new instrument node
/// and the graph and plugin states change as `instrument_attached` says.
pub open spec fn attach_outcome(p0: Project, p1: Project, track_id: TrackId, format: String, uid: String,
    path: String, name: String, r: Option<(NodeId, Option<PluginInstanceId>)>) -> bool
{
    let ts = p0.tracks@;
    let k = track_pos(ts, track_id);
    if k == -1 || ts[k].kind != TrackKind::Midi || ts[k].midi_source_node is None || ts[k].gain_node is None {
        r is None && p1 == p0
    } else {
        let t = ts[k];
        &&& r is Some
        &&& p1.tracks@ == ts.update(k, Track { instrument_node: Some((r->0).0), ..t })
        &&& instrument_attached(p0, p1, t, format, uid, path, name, (r->0).0, (r->0).1)
    }
}

impl Project {
    /// Load a plugin instrument on a MIDI track, replacing (and tearing down)
    /// any previous one. Returns the new node and the instance id of a
    /// replaced plugin instrument; `None` (nothing changed) when the track is
    /// missing, is not a MIDI track, or lacks its source or gain node.
    #[verifier::rlimit(80)]
    pub fn attach_plugin_instrument(&mut self, track_id: TrackId, plugin_format: String, plugin_uid: String,
        plugin_path: String, plugin_name: String) -> (r: Option<(NodeId, Option<PluginInstanceId>)>)
        requires
            old(self).distinct_keys(),
            old(self).has_room(1, 3),
        ensures
            old(self).wf() ==> final(self).wf(),
            attach_outcome(*old(self), *final(self), track_id, plugin_format, plugin_uid, plugin_path, plugin_name, r),
            final(self).clips == old(self).clips,
            final(self).master_node == old(self).master_node,
            final(self).tempo == old(self).tempo,
            final(self).automation == old(self).automation,
            settings_kept(*old(self), *final(self)),
    {
        let k = match find_track(&self.tracks, track_id) {
            Some(k) => k,
            None => return None,
        };
        if self.tracks[k].kind != TrackKind::Midi {
            return None;
        }
        let midi_src = match self.tracks[k].midi_source_node {
            Some(m) => m,
            None => return None,
        };
        let gain = match self.tracks[k].gain_node {
            Some(g) => g,
            None => return None,
        };
        let old_instrument = self.tracks[k].instrument_node;
        let ghost fmt = plugin_format;
        let ghost uid = plugin_uid;
        let ghost path = plugin_path;
        let ghost pname = plugin_name;
        let y: u32 = match self.graph.node(gain) {
            Some(n) => n.position[1],
            None => 0,
        };
        let ghost p0 = *self;
        let ghost g0 = self.graph;
        let mut unloaded: Option<PluginInstanceId> = None;
        if let Some(old_id) = old_instrument {
            if let Some(old) = self.graph.remove_node(old_id) {
                if let NodeKind::PluginInstrument { instance_id, .. } = old.kind {
                    proof {
                        lemma_map_vals_remove(blob_entries(self.plugin_states), instance_id, blob_view_fn());
                        lemma_remove_keeps_unique(blob_entries(self.plugin_states), instance_id);
                    }
                    blobs_shift_remove(&mut self.plugin_states, instance_id);
                    unloaded = Some(instance_id);
                }
            }
        }
        let ghost g1 = self.graph;
        let ghost s0 = self.states_view();
        proof {
            assert(unloaded_states(p0, p0.tracks@[k as int], s0, unloaded));
            if let Some(old_id) = old_instrument {
                crate::graph::lemma_retain_edges_len(g0.edge_seq(), edge_filter(EdgeFilter::NotTouching(old_id)));
            }
            assert(g1.edge_seq().len() <= g0.edge_seq().len());
        }
        let instance_id = new_id();
        let mut inputs: Vec<Port> = Vec::new();
        inputs.push(Port::midi_in(crate::text::owned("MIDI")));
        let mut outputs: Vec<Port> = Vec::new();
        outputs.push(Port::audio_out(crate::text::owned("L"), 0));
        outputs.push(Port::audio_out(crate::text::owned("R"), 1));
        let inst = GraphNode {
            id: new_id(),
            name: plugin_name.clone(),
            kind: NodeKind::PluginInstrument {
                instance_id,
                plugin_format,
                plugin_uid: plugin_uid.clone(),
                plugin_path,
                plugin_name,
                failed: false,
            },
            inputs,
            outputs,
            position: [POS_200, y],
            latency_samples: 0,
        };
        let inst_id = inst.id;
        let ghost iv = inst@;
        self.graph.remove_edges_from(midi_src);
        let ghost g2 = self.graph;
        proof {
            crate::graph::lemma_retain_edges_len(g1.edge_seq(), edge_filter(EdgeFilter::NotFrom(midi_src)));
            lemma_map_vals_keys(g1.node_seq(), crate::graph::node_view_fn());
        }
        self.graph.add_node(inst);
        let ghost g3 = self.graph;
        let rm = self.graph.connect_midi(midi_src, inst_id);
        let ghost g4 = self.graph;
        proof {
            crate::graph::lemma_connect_growth_midi(g3, g4, midi_src, inst_id, rm);
        }
        let rs = self.graph.connect_stereo(inst_id, gain);
        self.tracks.set(k, Track { instrument_node: Some(inst_id), ..self.tracks[k].duplicate() });
        let blob = PluginStateBlob { instance_id, plugin_uid, data: Vec::new() };
        proof {
            lemma_insert_keeps_unique(blob_entries(self.plugin_states), instance_id, blob);
            lemma_map_vals_insert(blob_entries(self.plugin_states), instance_id, blob, blob_view_fn());
        }
        blobs_insert(&mut self.plugin_states, instance_id, blob);
        self.touch();
        proof {
            let t = p0.tracks@[k as int];
            assert(instrument_wiring(g0, self.graph, old_instrument, midi_src, gain, iv, g1, g2, g3, g4, rm, rs));
            assert(is_instrument_view(iv, inst_id, instance_id, fmt, uid, path, pname,
                if p0.graph.has_node(gain) { p0.graph.node_of(gain).position[1] } else { 0 }));
            assert(unloaded_states(p0, t, s0, unloaded));
            assert(self.states_view() == insert_entry(s0, instance_id,
                BlobView { instance_id, plugin_uid: uid@, data: Seq::empty() }));
            assert(self.tracks@ == p0.tracks@.update(k as int, Track { instrument_node: Some(inst_id), ..t }));
            assert(p0 == *old(self));
            assert(instrument_attached(p0, *self, t, fmt, uid, path, pname, inst_id, unloaded));
        }
        Some((inst_id, unloaded))
    }

    /// `attach_plugin_instrument` with the VST3 format.
    pub fn attach_instrument(&mut self, track_id: TrackId, plugin_uid: String, plugin_path: String,
        plugin_name: String) -> (r: Option<(NodeId, Option<PluginInstanceId>)>)
        requires
            old(self).distinct_keys(),
            old(self).has_room(1, 3),
        ensures
            old(self).wf() ==> final(self).wf(),
            exists|format: String| format@ == "vst3"@
                && #[trigger] attach_outcome(*old(self), *final(self), track_id, format, plugin_uid, plugin_path, plugin_name, r),
            final(self).clips == old(self).clips,
            final(self).master_node == old(self).master_node,
            final(self).tempo == old(self).tempo,
            final(self).automation == old(self).automation,
            settings_kept(*old(self), *final(self)),
    {
        let format = crate::graph::default_vst3_format();
        let ghost f = format;
        let r = self.attach_plugin_instrument(track_id, format, plugin_uid, plugin_path, plugin_name);
        proof {
            assert(attach_outcome(*old(self), *self, track_id, f, plugin_uid, plugin_path, plugin_name, r));
        }
        r
    }
}

/// The graph and plugin states of `p1` are those of `p0` after MIDI track
/// `t` got a new plugin instrument node `node` (built from the given format,
/// uid, path and name), replacing its previous instrument, whose plugin
/// instance (if it was one) is reported in `unloaded`.
pub open spec fn instrument_attached(p0: Project, p1: Project, t: Track, format: String, uid: String, path: String,
    name: String, node: NodeId, unloaded: Option<PluginInstanceId>) -> bool
{
    let src = t.midi_source_node->0;
    let gain = t.gain_node->0;
    let y = if p0.graph.has_node(gain) { p0.graph.node_of(gain).position[1] } else { 0 };
    exists|iv: GraphNodeView, g1: AudioGraph, g2: AudioGraph, g3: AudioGraph, g4: AudioGraph,
        rm: Result<crate::ids::EdgeId, crate::graph::GraphError>,
        rs: Result<(crate::ids::EdgeId, crate::ids::EdgeId), crate::graph::GraphError>|
        #[trigger] instrument_wiring(p0.graph, p1.graph, t.instrument_node, src, gain, iv, g1, g2, g3, g4, rm, rs)
        && iv.id == node
        && (iv.kind matches NodeKind::PluginInstrument { instance_id, .. }
            && is_instrument_view(iv, node, instance_id, format, uid, path, name, y)
            && (exists|s0: Seq<(PluginInstanceId, BlobView)>| #[trigger] unloaded_states(p0, t, s0, unloaded)
                && p1.states_view() == insert_entry(s0, instance_id,
                    BlobView { instance_id, plugin_uid: uid@, data: Seq::empty() })))
}

impl Project {
    /// Add a floating plugin effect node at `position` (`f32` bit patterns)
    /// with an empty plugin state; it is not wired to anything.
    pub fn add_plugin_effect(&mut self, plugin_format: String, plugin_uid: String, plugin_path: String,
        plugin_name: String, position: [u32; 2]) -> (id: NodeId)
        requires
            old(self).distinct_keys(),
            old(self).has_room(1, 0),
        ensures
            old(self).wf() ==> final(self).wf(),
            final(self).graph.edge_seq() == old(self).graph.edge_seq(),
            exists|v: GraphNodeView| #![trigger v.id] {
                &&& v.id == id
                &&& final(self).graph.nodes_view() == insert_entry(old(self).graph.nodes_view(), id, v)
                &&& v.name == plugin_name@
                &&& stereo_pair(v.inputs, true)
                &&& stereo_pair(v.outputs, false)
                &&& v.position == position
                &&& v.latency_samples == 0
                &&& v.kind matches NodeKind::PluginEffect { instance_id, plugin_format: f, plugin_uid: u,
                        plugin_path: pa, plugin_name: n, bypass, failed }
                &&& f == plugin_format && u == plugin_uid && pa == plugin_path && n == plugin_name
                &&& !bypass && !failed
                &&& final(self).states_view() == insert_entry(old(self).states_view(), instance_id,
                        BlobView { instance_id, plugin_uid: plugin_uid@, data: Seq::empty() })
            },
            final(self).tracks == old(self).tracks,
            final(self).clips == old(self).clips,
            final(self).master_node == old(self).master_node,
            final(self).tempo == old(self).tempo,
            final(self).automation == old(self).automation,
            settings_kept(*old(self), *final(self)),
    {
        let instance_id = new_id();
        let ghost uid = plugin_uid;
        let mut effect = GraphNode::plugin_effect(instance_id, plugin_format, plugin_uid.clone(), plugin_path,
            plugin_name);
        effect.position = position;
        let ghost v = effect@;
        let node_id = self.graph.add_node(effect);
        let blob = PluginStateBlob { instance_id, plugin_uid, data: Vec::new() };
        proof {
            lemma_insert_keeps_unique(blob_entries(self.plugin_states), instance_id, blob);
            lemma_map_vals_insert(blob_entries(self.plugin_states), instance_id, blob, blob_view_fn());
        }
        blobs_insert(&mut self.plugin_states, instance_id, blob);
        self.touch();
        proof {
            assert(v.id == node_id);
        }
        node_id
    }

    /// `add_plugin_effect` with the VST3 format.
    pub fn add_effect(&mut self, plugin_uid: String, plugin_path: String, plugin_name: String,
        position: [u32; 2]) -> (id: NodeId)
        requires
            old(self).distinct_keys(),
            old(self).has_room(1, 0),
        ensures
            old(self).wf() ==> final(self).wf(),
            final(self).graph.edge_seq() == old(self).graph.edge_seq(),
            exists|v: GraphNodeView| #![trigger v.id] {
                &&& v.id == id
                &&& final(self).graph.nodes_view() == insert_entry(old(self).graph.nodes_view(), id, v)
                &&& v.name == plugin_name@
                &&& stereo_pair(v.inputs, true)
                &&& stereo_pair(v.outputs, false)
                &&& v.position == position
                &&& v.latency_samples == 0
                &&& v.kind matches NodeKind::PluginEffect { instance_id, plugin_format: f, plugin_uid: u,
                        plugin_path: pa, plugin_name: n, bypass, failed }
                &&& f@ == "vst3"@ && u == plugin_uid && pa == plugin_path && n == plugin_name
                &&& !bypass && !failed
                &&& final(self).states_view() == insert_entry(old(self).states_view(), instance_id,
                        BlobView { instance_id, plugin_uid: plugin_uid@, data: Seq::empty() })
            },
            final(self).tracks == old(self).tracks,
            final(self).clips == old(self).clips,
            final(self).master_node == old(self).master_node,
            final(self).tempo == old(self).tempo,
            final(self).automation == old(self).automation,
            settings_kept(*old(self), *final(self)),
    {
        self.add_plugin_effect(crate::graph::default_vst3_format(), plugin_uid, plugin_path, plugin_name, position)
    }
}

impl Project {
    /// The compiled plan of the routing graph (the empty plan if the graph
    /// cannot be compiled).
    pub fn compiled_plan(&self) -> (plan: CompiledPlan)
        requires
            self.graph.node_seq().len() < u32::MAX,
            self.graph.edge_seq().len() < u32::MAX,
        ensures
            has_cycle(self.graph.live_pairs()) ==> plan.is_empty_plan(),
            !has_cycle(self.graph.live_pairs()) ==> exists|h: AudioGraph| #[trigger] normalized_from(self.graph, h)
                && plan.compiled_from(h),
            self.graph.wf() ==> plan.compiled_from(self.graph),
    {
        proof {
            if self.graph.linked() {
                crate::graph::lemma_linked_live_pairs(self.graph);
            }
        }
        match CompiledPlan::compile(&self.graph) {
            Ok(plan) => plan,
            Err(_) => CompiledPlan::empty(),
        }
    }

    /// Whether the project is well formed (`wf`: a linked, acyclic graph and
    /// distinct plugin-state ids) with its graph within the sizes the library
    /// handles. The commands keep `wf`; they also run on a project without it.
    pub fn is_well_formed(&self) -> (r: bool)
        ensures
            r == (self.wf() && self.graph.node_seq().len() < u32::MAX && self.graph.edge_seq().len() < u32::MAX),
    {
        if self.graph.node_count() >= 0xffff_ffff || self.graph.edge_count() >= 0xffff_ffff {
            return false;
        }
        if !self.graph.is_linked() || self.graph.has_cycle_linked() {
            return false;
        }
        self.states_keys_distinct()
    }

    /// Whether no plugin instance id occurs twice among the saved states.
    fn states_keys_distinct(&self) -> (r: bool)
        ensures
            r == keys_unique(blob_entries(self.plugin_states)),
    {
        let ghost bs = blob_entries(self.plugin_states);
        let n = blobs_len(&self.plugin_states);
        let mut i: usize = 0;
        while i < n
            invariant
                i <= n,
                n == bs.len(),
                bs == blob_entries(self.plugin_states),
                forall|a: int, b: int| 0 <= a < i && 0 <= b < n && a != b ==> bs[a].0 != bs[b].0,
            decreases n - i,
        {
            let (k, _) = blobs_get_index(&self.plugin_states, i).unwrap();
            let mut j: usize = 0;
            while j < n
                invariant
                    j <= n,
                    i < n,
                    n == bs.len(),
                    bs == blob_entries(self.plugin_states),
                    *k == bs[i as int].0,
                    forall|b: int| 0 <= b < j && b != i ==> bs[i as int].0 != bs[b].0,
                decreases n - j,
            {
                let (k2, _) = blobs_get_index(&self.plugin_states, j).unwrap();
                if j != i && *k2 == *k {
                    return false;
                }
                j = j + 1;
            }
            i = i + 1;
        }
        true
    }

    /// Whether each key occurs once in the graph's maps and in the plugin
    /// states (`distinct_keys`), as the commands require.
    pub fn has_distinct_keys(&self) -> (r: bool)
        ensures
            r == self.distinct_keys(),
    {
        self.graph.keys_are_distinct();
        self.states_keys_distinct()
    }

    pub fn try_compiled_plan(&self) -> (r: Result<CompiledPlan, crate::graph::GraphError>)
        requires
            self.graph.node_seq().len() < u32::MAX,
            self.graph.edge_seq().len() < u32::MAX,
        ensures
            r is Err <==> has_cycle(self.graph.live_pairs()),
            r is Err ==> r == Err::<CompiledPlan, crate::graph::GraphError>(crate::graph::GraphError::Cycle),
            r matches Ok(plan) ==> exists|h: AudioGraph| #[trigger] normalized_from(self.graph, h)
                && plan.compiled_from(h),
            self.graph.wf() ==> (r matches Ok(plan) && plan.compiled_from(self.graph)),
    {
        proof {
            if self.graph.linked() {
                crate::graph::lemma_linked_live_pairs(self.graph);
            }
        }
        CompiledPlan::compile(&self.graph)
    }
}

/// Plugin states after the teardown step of `attach_plugin_instrument`: the
/// replaced instrument's state is dropped when it was a plugin instrument.
pub open spec fn unloaded_states(p: Project, t: Track, s0: Seq<(PluginInstanceId, BlobView)>,
    unloaded: Option<PluginInstanceId>) -> bool
{
    match t.instrument_node {
        Some(old_id) => if p.graph.has_node(old_id) && p.graph.node_of(old_id).kind is PluginInstrument {
            let iid = p.graph.node_of(old_id).kind->PluginInstrument_instance_id;
            unloaded == Some(iid) && s0 == remove_entry(p.states_view(), iid)
        } else {
            unloaded is None && s0 == p.states_view()
        },
        None => unloaded is None && s0 == p.states_view(),
    }
}

/// `connect_stereo` adds at most two edges.
pub proof fn lemma_stereo_growth(g: AudioGraph, h: AudioGraph, from: NodeId, to: NodeId,
    r: Result<(crate::ids::EdgeId, crate::ids::EdgeId), crate::graph::GraphError>)
    requires
        connect_stereo_post(g, h, from, to, r),
    ensures
        h.edge_seq().len() <= g.edge_seq().len() + 2,
        h.node_seq() == g.node_seq(),
{
    let fl = first_port(g.node_of(from).outputs@, PortType::Audio, Some(0u32));
    let fr = first_port(g.node_of(from).outputs@, PortType::Audio, Some(1u32));
    let tl = first_port(g.node_of(to).inputs@, PortType::Audio, Some(0u32));
    let tr = first_port(g.node_of(to).inputs@, PortType::Audio, Some(1u32));
    if g.has_node(from) && g.has_node(to) && fl is Some && fr is Some && tl is Some && tr is Some {
        let (mid, r0) = choose|mid: AudioGraph, r0: Result<crate::ids::EdgeId, crate::graph::GraphError>|
            #[trigger] connect_post(g, mid, from, fl->0, to, tl->0, r0)
            && match r0 {
                Err(e) => r == Err::<(crate::ids::EdgeId, crate::ids::EdgeId), crate::graph::GraphError>(e) && h == mid,
                Ok(e0) => exists|r1: Result<crate::ids::EdgeId, crate::graph::GraphError>| #[trigger] connect_post(mid, h, from, fr->0, to, tr->0, r1)
                    && match r1 {
                        Err(e) => r == Err::<(crate::ids::EdgeId, crate::ids::EdgeId), crate::graph::GraphError>(e),
                        Ok(e1) => r == Ok::<(crate::ids::EdgeId, crate::ids::EdgeId), crate::graph::GraphError>((e0, e1)),
                    },
            };
        crate::graph::lemma_connect_growth(g, mid, from, fl->0, to, tl->0, r0);
        if r0 is Ok {
            let r1 = choose|r1: Result<crate::ids::EdgeId, crate::graph::GraphError>| #[trigger] connect_post(mid, h, from, fr->0, to, tr->0, r1)
                && match r1 {
                    Err(e) => r == Err::<(crate::ids::EdgeId, crate::ids::EdgeId), crate::graph::GraphError>(e),
                    Ok(e1) => r == Ok::<(crate::ids::EdgeId, crate::ids::EdgeId), crate::graph::GraphError>((r0->Ok_0, e1)),
                };
            crate::graph::lemma_connect_growth(mid, h, from, fr->0, to, tr->0, r1);
        }
    }
}

} // verus!
