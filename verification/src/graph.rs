//! Typed acyclic audio/MIDI routing graph.
//!
//! Floating-point parameters (gains, pans, editor positions) are carried as
//! the bit patterns of their `f32` values: the routing logic stores and copies
//! them and never computes with them.
use vstd::prelude::*;
use crate::ids::{new_id, id_to_string, uuid_text, NodeId, PortId, EdgeId, TrackId, PluginInstanceId};
use crate::keyed::{keys_unique, has_key, key_index, value_of, insert_entry, remove_entry, map_vals, lemma_key_index_unique, lemma_insert_keeps_unique, lemma_remove_keeps_unique, lemma_map_vals_insert, lemma_map_vals_remove, lemma_map_vals_keys};
use crate::dag::{has_cycle, leads_to, is_cycle_walk, pairs_within, renamed, is_topo_order, toposort_of, edges_in_range, lemma_cycle_within, lemma_renamed_cycle, petgraph_is_cyclic, petgraph_toposort};
use crate::text::{owned, concat, push_char};
use indexmap::IndexMap;

verus! {

broadcast use vstd::string::group_string_axioms;

#[derive(Debug, Clone, Copy, PartialEq, Eq, Structural)]
pub enum PortType {
    Audio,
    Midi,
}

#[derive(Debug, Clone)]
pub struct Port {
    pub id: PortId,
    pub name: String,
    pub port_type: PortType,
    pub is_input: bool,
    pub channel: u32,
}

impl Port {
    /// A copy equal to `self`.
    pub fn duplicate(&self) -> (r: Port)
        ensures
            r == *self,
    {
        Port {
            id: self.id,
            name: self.name.clone(),
            port_type: self.port_type,
            is_input: self.is_input,
            channel: self.channel,
        }
    }

    pub fn audio_in(name: String, channel: u32) -> (p: Port)
        ensures
            p.name == name,
            p.port_type == PortType::Audio,
            p.is_input,
            p.channel == channel,
    {
        Port { id: new_id(), name, port_type: PortType::Audio, is_input: true, channel }
    }

    pub fn audio_out(name: String, channel: u32) -> (p: Port)
        ensures
            p.name == name,
            p.port_type == PortType::Audio,
            !p.is_input,
            p.channel == channel,
    {
        Port { id: new_id(), name, port_type: PortType::Audio, is_input: false, channel }
    }

    pub fn midi_in(name: String) -> (p: Port)
        ensures
            p.name == name,
            p.port_type == PortType::Midi,
            p.is_input,
            p.channel == 0,
    {
        Port { id: new_id(), name, port_type: PortType::Midi, is_input: true, channel: 0 }
    }

    pub fn midi_out(name: String) -> (p: Port)
        ensures
            p.name == name,
            p.port_type == PortType::Midi,
            !p.is_input,
            p.channel == 0,
    {
        Port { id: new_id(), name, port_type: PortType::Midi, is_input: false, channel: 0 }
    }
}

/// A copy of a port list equal to it.
pub fn duplicate_ports(ports: &Vec<Port>) -> (r: Vec<Port>)
    ensures
        r@ == ports@,
{
    let mut r: Vec<Port> = Vec::new();
    let mut i: usize = 0;
    while i < ports.len()
        invariant
            i <= ports.len(),
            r@ == ports@.subrange(0, i as int),
        decreases ports.len() - i,
    {
        r.push(ports[i].duplicate());
        i = i + 1;
    }
    assert(r@ == ports@);
    r
}

/// Number of stereo input strips on a bus mixer.
pub const MIXER_STRIP_COUNT: usize = 4;

/// Number of MIDI input jacks on a MIDI mixer.
pub const MIDI_MIXER_INPUT_COUNT: usize = 4;

/// One stereo strip on a bus mixer; `gain_db` and `pan` are `f32` bit patterns.
#[derive(Debug, Clone, Copy, PartialEq, Eq, Structural)]
pub struct MixerStrip {
    pub gain_db: u32,
    pub pan: u32,
    pub mute: bool,
}

impl MixerStrip {
    /// Unity strip: 0 dB, centre, not muted.
    pub fn unity() -> (s: MixerStrip)
        ensures
            s == (MixerStrip { gain_db: 0, pan: 0, mute: false }),
    {
        MixerStrip { gain_db: 0, pan: 0, mute: false }
    }
}

/// Stereo A/B branch controls of a splitter; `f32` bit patterns.
#[derive(Debug, Clone, Copy, PartialEq, Eq, Structural)]
pub struct SplitterBranch {
    pub gain_db: u32,
    pub pan: u32,
}

pub fn default_mixer_strips() -> (s: [MixerStrip; 4])
    ensures
        forall|i: int| 0 <= i < 4 ==> s@[i] == (MixerStrip { gain_db: 0, pan: 0, mute: false }),
{
    [MixerStrip::unity(), MixerStrip::unity(), MixerStrip::unity(), MixerStrip::unity()]
}

#[derive(Debug, Clone)]
pub enum NodeKind {
    MidiClipSource { track_id: TrackId },
    AudioClipSource { track_id: TrackId },
    GainPan { gain_db: u32, pan: u32, mute: bool, solo: bool },
    /// Bus mixer with four stereo inputs.
    SumMixer { strips: [MixerStrip; 4], master_gain_db: u32, master_pan: u32, mute: bool },
    /// One stereo in to two stereo outs (A/B).
    StereoSplitter { a: SplitterBranch, b: SplitterBranch },
    /// MIDI merge bus.
    MidiMixer,
    /// MIDI fan-out.
    MidiSplitter,
    MasterOutput,
    /// First-party synth; its parameter block lives with the DSP side.
    BuiltinSynth,
    PluginInstrument {
        instance_id: PluginInstanceId,
        plugin_format: String,
        plugin_uid: String,
        plugin_path: String,
        plugin_name: String,
        failed: bool,
    },
    PluginEffect {
        instance_id: PluginInstanceId,
        plugin_format: String,
        plugin_uid: String,
        plugin_path: String,
        plugin_name: String,
        bypass: bool,
        failed: bool,
    },
}

impl NodeKind {
    pub fn duplicate(&self) -> (r: NodeKind)
        ensures
            r == *self,
    {
        match self {
            NodeKind::MidiClipSource { track_id } => NodeKind::MidiClipSource { track_id: *track_id },
            NodeKind::AudioClipSource { track_id } => NodeKind::AudioClipSource {
                track_id: *track_id,
            },
            NodeKind::GainPan { gain_db, pan, mute, solo } => NodeKind::GainPan {
                gain_db: *gain_db,
                pan: *pan,
                mute: *mute,
                solo: *solo,
            },
            NodeKind::SumMixer { strips, master_gain_db, master_pan, mute } => NodeKind::SumMixer {
                strips: *strips,
                master_gain_db: *master_gain_db,
                master_pan: *master_pan,
                mute: *mute,
            },
            NodeKind::StereoSplitter { a, b } => NodeKind::StereoSplitter { a: *a, b: *b },
            NodeKind::MidiMixer => NodeKind::MidiMixer,
            NodeKind::MidiSplitter => NodeKind::MidiSplitter,
            NodeKind::MasterOutput => NodeKind::MasterOutput,
            NodeKind::BuiltinSynth => NodeKind::BuiltinSynth,
            NodeKind::PluginInstrument {
                instance_id,
                plugin_format,
                plugin_uid,
                plugin_path,
                plugin_name,
                failed,
            } => NodeKind::PluginInstrument {
                instance_id: *instance_id,
                plugin_format: plugin_format.clone(),
                plugin_uid: plugin_uid.clone(),
                plugin_path: plugin_path.clone(),
                plugin_name: plugin_name.clone(),
                failed: *failed,
            },
            NodeKind::PluginEffect {
                instance_id,
                plugin_format,
                plugin_uid,
                plugin_path,
                plugin_name,
                bypass,
                failed,
            } => NodeKind::PluginEffect {
                instance_id: *instance_id,
                plugin_format: plugin_format.clone(),
                plugin_uid: plugin_uid.clone(),
                plugin_path: plugin_path.clone(),
                plugin_name: plugin_name.clone(),
                bypass: *bypass,
                failed: *failed,
            },
        }
    }

    /// Master accepts multiple wires on the same input ports (the DSP sums).
    pub fn allows_input_fan_in(&self) -> (r: bool)
        ensures
            r == (*self is MasterOutput),
    {
        matches!(self, NodeKind::MasterOutput)
    }

    /// Pure MIDI routers (no parameters, no editor).
    pub fn is_midi_router(&self) -> (r: bool)
        ensures
            r == (*self is MidiMixer || *self is MidiSplitter),
    {
        matches!(self, NodeKind::MidiMixer | NodeKind::MidiSplitter)
    }

    /// Built-in nodes that have an in-app floating editor.
    pub fn has_builtin_editor(&self) -> (r: bool)
        ensures
            r == (*self is GainPan || *self is SumMixer || *self is StereoSplitter
                || *self is BuiltinSynth),
    {
        match self {
            NodeKind::GainPan { .. } => true,
            NodeKind::SumMixer { .. } => true,
            NodeKind::StereoSplitter { .. } => true,
            NodeKind::BuiltinSynth => true,
            _ => false,
        }
    }
}

pub fn default_vst3_format() -> (s: String)
    ensures
        s@ == "vst3"@,
{
    owned("vst3")
}

/// Letter of a mixer strip or splitter branch: 0 -> 'A', 1 -> 'B', ...
pub open spec fn spec_branch_letter(index: int) -> char {
    ((65 + index) as u8) as char
}

pub fn branch_letter(index: usize) -> (c: char)
    requires
        index <= 190,
    ensures
        c == spec_branch_letter(index as int),
{
    let b: u8 = 65u8 + (index as u8);
    b as char
}

pub fn stereo_in_name(channel: u32) -> (s: String)
    ensures
        s@ == (if channel == 0 { "L In"@ } else { "R In"@ }),
{
    if channel == 0 {
        owned("L In")
    } else {
        owned("R In")
    }
}

pub fn stereo_out_name(channel: u32) -> (s: String)
    ensures
        s@ == (if channel == 0 { "L Out"@ } else { "R Out"@ }),
{
    if channel == 0 {
        owned("L Out")
    } else {
        owned("R Out")
    }
}

pub open spec fn side_of(channel: u32) -> Seq<char> {
    if channel % 2 == 0 {
        "L"@
    } else {
        "R"@
    }
}

pub fn stereo_in_branch_name(strip: usize, channel: u32) -> (s: String)
    requires
        strip <= 190,
    ensures
        s@ == side_of(channel) + " In "@ + seq![spec_branch_letter(strip as int)],
{
    let mut s = if channel % 2 == 0 {
        concat("L", " In ")
    } else {
        concat("R", " In ")
    };
    push_char(&mut s, branch_letter(strip));
    s
}

pub fn stereo_out_branch_name(branch: usize, channel: u32) -> (s: String)
    requires
        branch <= 190,
    ensures
        s@ == side_of(channel) + " Out "@ + seq![spec_branch_letter(branch as int)],
{
    let mut s = if channel % 2 == 0 {
        concat("L", " Out ")
    } else {
        concat("R", " Out ")
    };
    push_char(&mut s, branch_letter(branch));
    s
}

/// "MIDI In A", "MIDI In B", ...
pub fn midi_in_branch_name(index: usize) -> (s: String)
    requires
        index <= 190,
    ensures
        s@ == "MIDI In "@ + seq![spec_branch_letter(index as int)],
{
    let mut s = owned("MIDI In ");
    push_char(&mut s, branch_letter(index));
    s
}

/// "MIDI Out A", "MIDI Out B", ...
pub fn midi_out_branch_name(index: usize) -> (s: String)
    requires
        index <= 190,
    ensures
        s@ == "MIDI Out "@ + seq![spec_branch_letter(index as int)],
{
    let mut s = owned("MIDI Out ");
    push_char(&mut s, branch_letter(index));
    s
}


/// `p` has the given label, type, direction and channel.
pub open spec fn port_is(p: Port, name: Seq<char>, t: PortType, input: bool, ch: u32) -> bool {
    &&& p.name@ == name
    &&& p.port_type == t
    &&& p.is_input == input
    &&& p.channel == ch
}

/// The stereo pair `L <suffix>` (channel 0) and `R <suffix>` (channel 1).
pub open spec fn stereo_pair(ports: Seq<Port>, input: bool) -> bool {
    &&& ports.len() == 2
    &&& port_is(ports[0], if input { "L In"@ } else { "L Out"@ }, PortType::Audio, input, 0)
    &&& port_is(ports[1], if input { "R In"@ } else { "R Out"@ }, PortType::Audio, input, 1)
}

fn stereo_inputs() -> (v: Vec<Port>)
    ensures
        stereo_pair(v@, true),
{
    let mut v = Vec::new();
    v.push(Port::audio_in(stereo_in_name(0), 0));
    v.push(Port::audio_in(stereo_in_name(1), 1));
    v
}

fn stereo_outputs() -> (v: Vec<Port>)
    ensures
        stereo_pair(v@, false),
{
    let mut v = Vec::new();
    v.push(Port::audio_out(stereo_out_name(0), 0));
    v.push(Port::audio_out(stereo_out_name(1), 1));
    v
}

fn single_midi(input: bool, name: &str) -> (v: Vec<Port>)
    ensures
        v@.len() == 1,
        port_is(v@[0], name@, PortType::Midi, input, 0),
{
    let mut v = Vec::new();
    if input {
        v.push(Port::midi_in(owned(name)));
    } else {
        v.push(Port::midi_out(owned(name)));
    }
    v
}

#[derive(Debug, Clone)]
pub struct GraphNode {
    pub id: NodeId,
    pub name: String,
    pub kind: NodeKind,
    pub inputs: Vec<Port>,
    pub outputs: Vec<Port>,
    /// Editor position, as the bit patterns of two `f32` values.
    pub position: [u32; 2],
    /// Declared processing latency in samples.
    pub latency_samples: u32,
}

/// A node with its port lists as sequences.
pub ghost struct GraphNodeView {
    pub id: NodeId,
    pub name: Seq<char>,
    pub kind: NodeKind,
    pub inputs: Seq<Port>,
    pub outputs: Seq<Port>,
    pub position: [u32; 2],
    pub latency_samples: u32,
}

impl View for GraphNode {
    type V = GraphNodeView;

    open spec fn view(&self) -> GraphNodeView {
        GraphNodeView {
            id: self.id,
            name: self.name@,
            kind: self.kind,
            inputs: self.inputs@,
            outputs: self.outputs@,
            position: self.position,
            latency_samples: self.latency_samples,
        }
    }
}

pub open spec fn node_view_fn() -> spec_fn(GraphNode) -> GraphNodeView {
    |n: GraphNode| n@
}

/// `f32` bit patterns of editor coordinates used by the constructors.
pub const POS_200: u32 = 0x4348_0000;
pub const POS_100: u32 = 0x42c8_0000;
pub const POS_400: u32 = 0x43c8_0000;
pub const POS_300: u32 = 0x4396_0000;
pub const POS_160: u32 = 0x4320_0000;
pub const POS_240: u32 = 0x4370_0000;
/// Column 3 of the routing layout (808.0) and the top margin (40.0).
pub const POS_MASTER_X: u32 = 0x444a_0000;
pub const POS_ORIGIN_Y: u32 = 0x4220_0000;

impl GraphNode {
    /// Equal field by field, the port lists by their contents.
    pub open spec fn same_as(self, other: GraphNode) -> bool {
        &&& self.id == other.id
        &&& self.name == other.name
        &&& self.kind == other.kind
        &&& self.inputs@ == other.inputs@
        &&& self.outputs@ == other.outputs@
        &&& self.position == other.position
        &&& self.latency_samples == other.latency_samples
    }

    /// A copy of `self`.
    pub fn duplicate(&self) -> (r: GraphNode)
        ensures
            r.same_as(*self),
            r@ == self@,
    {
        GraphNode {
            id: self.id,
            name: self.name.clone(),
            kind: self.kind.duplicate(),
            inputs: duplicate_ports(&self.inputs),
            outputs: duplicate_ports(&self.outputs),
            position: self.position,
            latency_samples: self.latency_samples,
        }
    }

    pub fn stereo_gain_pan(name: String) -> (n: GraphNode)
        ensures
            n.name == name,
            n.kind == (NodeKind::GainPan { gain_db: 0, pan: 0, mute: false, solo: false }),
            stereo_pair(n.inputs@, true),
            stereo_pair(n.outputs@, false),
            n.position == [0u32, 0u32],
            n.latency_samples == 0,
    {
        GraphNode {
            id: new_id(),
            name,
            kind: NodeKind::GainPan { gain_db: 0, pan: 0, mute: false, solo: false },
            inputs: stereo_inputs(),
            outputs: stereo_outputs(),
            position: [0, 0],
            latency_samples: 0,
        }
    }

    pub fn midi_clip_source(track_id: TrackId, name: String) -> (n: GraphNode)
        ensures
            n.name == name,
            n.kind == (NodeKind::MidiClipSource { track_id }),
            n.inputs@.len() == 0,
            n.outputs@.len() == 1,
            port_is(n.outputs@[0], "MIDI Out"@, PortType::Midi, false, 0),
            n.position == [0u32, 0u32],
            n.latency_samples == 0,
    {
        GraphNode {
            id: new_id(),
            name,
            kind: NodeKind::MidiClipSource { track_id },
            inputs: Vec::new(),
            outputs: single_midi(false, "MIDI Out"),
            position: [0, 0],
            latency_samples: 0,
        }
    }

    pub fn audio_clip_source(track_id: TrackId, name: String) -> (n: GraphNode)
        ensures
            n.name == name,
            n.kind == (NodeKind::AudioClipSource { track_id }),
            n.inputs@.len() == 0,
            stereo_pair(n.outputs@, false),
            n.position == [0u32, 0u32],
            n.latency_samples == 0,
    {
        GraphNode {
            id: new_id(),
            name,
            kind: NodeKind::AudioClipSource { track_id },
            inputs: Vec::new(),
            outputs: stereo_outputs(),
            position: [0, 0],
            latency_samples: 0,
        }
    }

    pub fn master_output() -> (n: GraphNode)
        ensures
            n.name@ == "Master"@,
            n.kind == NodeKind::MasterOutput,
            stereo_pair(n.inputs@, true),
            n.outputs@.len() == 0,
            n.position == [POS_MASTER_X, POS_ORIGIN_Y],
            n.latency_samples == 0,
    {
        GraphNode {
            id: new_id(),
            name: owned("Master"),
            kind: NodeKind::MasterOutput,
            inputs: stereo_inputs(),
            outputs: Vec::new(),
            position: [POS_MASTER_X, POS_ORIGIN_Y],
            latency_samples: 0,
        }
    }

    pub fn sum_mixer(name: String) -> (n: GraphNode)
        ensures
            n.name == name,
            n.kind matches NodeKind::SumMixer { strips, master_gain_db, master_pan, mute }
                && master_gain_db == 0 && master_pan == 0 && !mute
                && forall|i: int| 0 <= i < 4 ==> strips@[i] == (MixerStrip { gain_db: 0, pan: 0, mute: false }),
            n.inputs@.len() == 8,
            forall|i: int| 0 <= i < 8 ==> port_is(#[trigger] n.inputs@[i],
                side_of(i as u32) + " In "@ + seq![spec_branch_letter(i / 2)],
                PortType::Audio, true, i as u32),
            stereo_pair(n.outputs@, false),
            n.position == [POS_400, POS_100],
            n.latency_samples == 0,
    {
        let mut inputs: Vec<Port> = Vec::new();
        let mut i: usize = 0;
        while i < MIXER_STRIP_COUNT
            invariant
                i <= 4,
                inputs@.len() == 2 * i,
                forall|j: int| 0 <= j < 2 * i ==> port_is(#[trigger] inputs@[j],
                    side_of(j as u32) + " In "@ + seq![spec_branch_letter(j / 2)],
                    PortType::Audio, true, j as u32),
            decreases 4 - i,
        {
            inputs.push(Port::audio_in(stereo_in_branch_name(i, 0), (i * 2) as u32));
            inputs.push(Port::audio_in(stereo_in_branch_name(i, 1), (i * 2 + 1) as u32));
            assert((2 * i) as u32 % 2 == 0);
            assert((2 * i + 1) as u32 % 2 == 1);
            assert((2 * i) / 2 == i as int);
            assert((2 * i + 1) / 2 == i as int);
            i = i + 1;
        }
        GraphNode {
            id: new_id(),
            name,
            kind: NodeKind::SumMixer {
                strips: default_mixer_strips(),
                master_gain_db: 0,
                master_pan: 0,
                mute: false,
            },
            inputs,
            outputs: stereo_outputs(),
            position: [POS_400, POS_100],
            latency_samples: 0,
        }
    }

    pub fn stereo_splitter(name: String) -> (n: GraphNode)
        ensures
            n.name == name,
            n.kind == (NodeKind::StereoSplitter {
                a: SplitterBranch { gain_db: 0, pan: 0 },
                b: SplitterBranch { gain_db: 0, pan: 0 },
            }),
            stereo_pair(n.inputs@, true),
            n.outputs@.len() == 4,
            port_is(n.outputs@[0], "L Out A"@, PortType::Audio, false, 0),
            port_is(n.outputs@[1], "R Out A"@, PortType::Audio, false, 1),
            port_is(n.outputs@[2], "L Out B"@, PortType::Audio, false, 2),
            port_is(n.outputs@[3], "R Out B"@, PortType::Audio, false, 3),
            n.position == [POS_400, POS_200],
            n.latency_samples == 0,
    {
        proof {
            reveal_strlit("L Out A");
            reveal_strlit("R Out A");
            reveal_strlit("L Out B");
            reveal_strlit("R Out B");
            reveal_strlit("L");
            reveal_strlit("R");
            reveal_strlit(" Out ");
        }
        let mut outputs: Vec<Port> = Vec::new();
        outputs.push(Port::audio_out(stereo_out_branch_name(0, 0), 0));
        outputs.push(Port::audio_out(stereo_out_branch_name(0, 1), 1));
        outputs.push(Port::audio_out(stereo_out_branch_name(1, 0), 2));
        outputs.push(Port::audio_out(stereo_out_branch_name(1, 1), 3));
        assert(outputs@[0].name@ =~= "L Out A"@);
        assert(outputs@[1].name@ =~= "R Out A"@);
        assert(outputs@[2].name@ =~= "L Out B"@);
        assert(outputs@[3].name@ =~= "R Out B"@);
        GraphNode {
            id: new_id(),
            name,
            kind: NodeKind::StereoSplitter {
                a: SplitterBranch { gain_db: 0, pan: 0 },
                b: SplitterBranch { gain_db: 0, pan: 0 },
            },
            inputs: stereo_inputs(),
            outputs,
            position: [POS_400, POS_200],
            latency_samples: 0,
        }
    }

    pub fn midi_mixer(name: String) -> (n: GraphNode)
        ensures
            n.name == name,
            n.kind == NodeKind::MidiMixer,
            n.inputs@.len() == 4,
            forall|i: int| 0 <= i < 4 ==> port_is(#[trigger] n.inputs@[i],
                "MIDI In "@ + seq![spec_branch_letter(i)], PortType::Midi, true, 0),
            n.outputs@.len() == 1,
            port_is(n.outputs@[0], "MIDI Out"@, PortType::Midi, false, 0),
            n.position == [POS_300, POS_160],
            n.latency_samples == 0,
    {
        let mut inputs: Vec<Port> = Vec::new();
        let mut i: usize = 0;
        while i < MIDI_MIXER_INPUT_COUNT
            invariant
                i <= 4,
                inputs@.len() == i,
                forall|j: int| 0 <= j < i ==> port_is(#[trigger] inputs@[j],
                    "MIDI In "@ + seq![spec_branch_letter(j)], PortType::Midi, true, 0),
            decreases 4 - i,
        {
            inputs.push(Port::midi_in(midi_in_branch_name(i)));
            i = i + 1;
        }
        GraphNode {
            id: new_id(),
            name,
            kind: NodeKind::MidiMixer,
            inputs,
            outputs: single_midi(false, "MIDI Out"),
            position: [POS_300, POS_160],
            latency_samples: 0,
        }
    }

    pub fn midi_splitter(name: String) -> (n: GraphNode)
        ensures
            n.name == name,
            n.kind == NodeKind::MidiSplitter,
            n.inputs@.len() == 1,
            port_is(n.inputs@[0], "MIDI In"@, PortType::Midi, true, 0),
            n.outputs@.len() == 2,
            port_is(n.outputs@[0], "MIDI Out A"@, PortType::Midi, false, 0),
            port_is(n.outputs@[1], "MIDI Out B"@, PortType::Midi, false, 0),
            n.position == [POS_300, POS_240],
            n.latency_samples == 0,
    {
        let mut outputs: Vec<Port> = Vec::new();
        outputs.push(Port::midi_out(owned("MIDI Out A")));
        outputs.push(Port::midi_out(owned("MIDI Out B")));
        GraphNode {
            id: new_id(),
            name,
            kind: NodeKind::MidiSplitter,
            inputs: single_midi(true, "MIDI In"),
            outputs,
            position: [POS_300, POS_240],
            latency_samples: 0,
        }
    }

    pub fn builtin_synth(name: String) -> (n: GraphNode)
        ensures
            n.name == name,
            n.kind == NodeKind::BuiltinSynth,
            n.inputs@.len() == 1,
            port_is(n.inputs@[0], "MIDI In"@, PortType::Midi, true, 0),
            stereo_pair(n.outputs@, false),
            n.position == [POS_200, 0u32],
            n.latency_samples == 0,
    {
        GraphNode {
            id: new_id(),
            name,
            kind: NodeKind::BuiltinSynth,
            inputs: single_midi(true, "MIDI In"),
            outputs: stereo_outputs(),
            position: [POS_200, 0],
            latency_samples: 0,
        }
    }

    pub fn plugin_instrument(
        instance_id: PluginInstanceId,
        plugin_format: String,
        plugin_uid: String,
        plugin_path: String,
        plugin_name: String,
    ) -> (n: GraphNode)
        ensures
            n.name == plugin_name,
            n.kind == (NodeKind::PluginInstrument {
                instance_id,
                plugin_format,
                plugin_uid,
                plugin_path,
                plugin_name,
                failed: false,
            }),
            n.inputs@.len() == 1,
            port_is(n.inputs@[0], "MIDI In"@, PortType::Midi, true, 0),
            stereo_pair(n.outputs@, false),
            n.position == [0u32, 0u32],
            n.latency_samples == 0,
    {
        GraphNode {
            id: new_id(),
            name: plugin_name.clone(),
            kind: NodeKind::PluginInstrument {
                instance_id,
                plugin_format,
                plugin_uid,
                plugin_path,
                plugin_name,
                failed: false,
            },
            inputs: single_midi(true, "MIDI In"),
            outputs: stereo_outputs(),
            position: [0, 0],
            latency_samples: 0,
        }
    }

    pub fn plugin_effect(
        instance_id: PluginInstanceId,
        plugin_format: String,
        plugin_uid: String,
        plugin_path: String,
        plugin_name: String,
    ) -> (n: GraphNode)
        ensures
            n.name == plugin_name,
            n.kind == (NodeKind::PluginEffect {
                instance_id,
                plugin_format,
                plugin_uid,
                plugin_path,
                plugin_name,
                bypass: false,
                failed: false,
            }),
            stereo_pair(n.inputs@, true),
            stereo_pair(n.outputs@, false),
            n.position == [0u32, 0u32],
            n.latency_samples == 0,
    {
        GraphNode {
            id: new_id(),
            name: plugin_name.clone(),
            kind: NodeKind::PluginEffect {
                instance_id,
                plugin_format,
                plugin_uid,
                plugin_path,
                plugin_name,
                bypass: false,
                failed: false,
            },
            inputs: stereo_inputs(),
            outputs: stereo_outputs(),
            position: [0, 0],
            latency_samples: 0,
        }
    }

    pub fn vst3_effect(
        instance_id: PluginInstanceId,
        plugin_uid: String,
        plugin_path: String,
        plugin_name: String,
    ) -> (n: GraphNode)
        ensures
            n.name == plugin_name,
            n.kind matches NodeKind::PluginEffect {
                instance_id: iid, plugin_format, plugin_uid: uid, plugin_path: path,
                plugin_name: pname, bypass, failed,
            } && iid == instance_id && plugin_format@ == "vst3"@ && uid == plugin_uid
                && path == plugin_path && pname == plugin_name && !bypass && !failed,
            stereo_pair(n.inputs@, true),
            stereo_pair(n.outputs@, false),
            n.position == [0u32, 0u32],
            n.latency_samples == 0,
    {
        GraphNode::plugin_effect(instance_id, default_vst3_format(), plugin_uid, plugin_path, plugin_name)
    }

    /// All ports, inputs first.
    pub open spec fn all_ports(&self) -> Seq<Port> {
        self.inputs@ + self.outputs@
    }

    /// First port (inputs before outputs) whose id is `id`.
    pub fn find_port(&self, id: PortId) -> (r: Option<&Port>)
        ensures
            r is None <==> forall|i: int| 0 <= i < self.all_ports().len() ==> (#[trigger] self.all_ports()[i]).id != id,
            r matches Some(p) ==> exists|i: int| 0 <= i < self.all_ports().len()
                && self.all_ports()[i] == *p && p.id == id
                && forall|j: int| 0 <= j < i ==> (#[trigger] self.all_ports()[j]).id != id,
    {
        let ghost all = self.all_ports();
        let mut i: usize = 0;
        while i < self.inputs.len()
            invariant
                i <= self.inputs.len(),
                all == self.all_ports(),
                forall|j: int| 0 <= j < i ==> (#[trigger] all[j]).id != id,
            decreases self.inputs.len() - i,
        {
            assert(all[i as int] == self.inputs@[i as int]);
            if self.inputs[i].id == id {
                return Some(&self.inputs[i]);
            }
            i = i + 1;
        }
        let mut k: usize = 0;
        while k < self.outputs.len()
            invariant
                k <= self.outputs.len(),
                all == self.all_ports(),
                forall|j: int| 0 <= j < self.inputs.len() + k ==> (#[trigger] all[j]).id != id,
            decreases self.outputs.len() - k,
        {
            assert(all[self.inputs.len() + k] == self.outputs@[k as int]);
            if self.outputs[k].id == id {
                return Some(&self.outputs[k]);
            }
            k = k + 1;
        }
        None
    }
}


/// First port in `ps` whose id is `id`.
pub open spec fn find_port_in(ps: Seq<Port>, id: PortId) -> Option<Port>
    decreases ps.len(),
{
    if ps.len() == 0 {
        None
    } else if ps[0].id == id {
        Some(ps[0])
    } else {
        find_port_in(ps.drop_first(), id)
    }
}

pub(crate) proof fn lemma_find_port_in(ps: Seq<Port>, id: PortId, i: int)
    requires
        0 <= i <= ps.len(),
        forall|j: int| 0 <= j < i ==> (#[trigger] ps[j]).id != id,
    ensures
        i < ps.len() && ps[i].id == id ==> find_port_in(ps, id) == Some(ps[i]),
        i == ps.len() ==> find_port_in(ps, id) is None,
    decreases i,
{
    if i > 0 {
        assert(ps[0].id != id);
        assert forall|j: int| 0 <= j < i - 1 implies (#[trigger] ps.drop_first()[j]).id != id by {
            assert(ps.drop_first()[j] == ps[j + 1]);
        }
        lemma_find_port_in(ps.drop_first(), id, i - 1);
        if i < ps.len() {
            assert(ps.drop_first()[i - 1] == ps[i]);
        }
    }
}

#[derive(Debug, Clone, Copy, PartialEq, Eq, Structural)]
pub struct GraphEdge {
    pub id: EdgeId,
    pub from_node: NodeId,
    pub from_port: PortId,
    pub to_node: NodeId,
    pub to_port: PortId,
}

#[derive(Debug, Clone, PartialEq, Eq)]
pub enum GraphError {
    NodeNotFound(String),
    PortNotFound,
    TypeMismatch { from: PortType, to: PortType },
    DirectionMismatch,
    SelfConnection,
    Cycle,
    DuplicateEdge,
}

/// Entries of the node map, in order.
pub uninterp spec fn node_entries(m: IndexMap<NodeId, GraphNode>) -> Seq<(NodeId, GraphNode)>;

/// Entries of the edge map, in order.
pub uninterp spec fn edge_entries(m: IndexMap<EdgeId, GraphEdge>) -> Seq<(EdgeId, GraphEdge)>;

/// `IndexMap::new` for the node map: an empty map.
#[verifier::external_body]
pub(crate) fn nodes_new() -> (m: IndexMap<NodeId, GraphNode>)
    ensures
        node_entries(m) == Seq::<(NodeId, GraphNode)>::empty(),
{
    IndexMap::new()
}

/// `IndexMap::insert` on the node map: an existing key keeps its place and
/// takes the new value (the old one is returned); a new key goes last. The
/// map held each key once.
#[verifier::external_body]
pub(crate) fn nodes_insert(m: &mut IndexMap<NodeId, GraphNode>, k: NodeId, v: GraphNode) -> (r: Option<GraphNode>)
    ensures
        keys_unique(node_entries(*old(m))),
        node_entries(*final(m)) == insert_entry(node_entries(*old(m)), k, v),
        r == value_of(node_entries(*old(m)), k),
{
    m.insert(k, v)
}

/// `IndexMap::shift_remove` on the node map: removes the entry of `k`,
/// shifting the later entries down, and returns its value. The map held
/// each key once.
#[verifier::external_body]
fn nodes_shift_remove(m: &mut IndexMap<NodeId, GraphNode>, k: NodeId) -> (r: Option<GraphNode>)
    ensures
        keys_unique(node_entries(*old(m))),
        node_entries(*final(m)) == remove_entry(node_entries(*old(m)), k),
        r == value_of(node_entries(*old(m)), k),
{
    m.shift_remove(&k)
}

/// `IndexMap::len` on the node map.
#[verifier::external_body]
pub(crate) fn nodes_len(m: &IndexMap<NodeId, GraphNode>) -> (r: usize)
    ensures
        r == node_entries(*m).len(),
{
    m.len()
}

/// `IndexMap::get_index` on the node map: the entry at position `i`.
#[verifier::external_body]
pub(crate) fn nodes_get_index(m: &IndexMap<NodeId, GraphNode>, i: usize) -> (r: Option<(&NodeId, &GraphNode)>)
    ensures
        r is Some <==> i < node_entries(*m).len(),
        r matches Some(kv) ==> *kv.0 == node_entries(*m)[i as int].0 && *kv.1 == node_entries(*m)[i as int].1,
{
    m.get_index(i)
}

/// `IndexMap::get` on the node map.
#[verifier::external_body]
pub(crate) fn nodes_get(m: &IndexMap<NodeId, GraphNode>, k: NodeId) -> (r: Option<&GraphNode>)
    ensures
        r is Some <==> has_key(node_entries(*m), k),
        r matches Some(v) ==> Some(*v) == value_of(node_entries(*m), k),
{
    m.get(&k)
}

/// `IndexMap::new` for the edge map: an empty map.
#[verifier::external_body]
fn edges_new() -> (m: IndexMap<EdgeId, GraphEdge>)
    ensures
        edge_entries(m) == Seq::<(EdgeId, GraphEdge)>::empty(),
{
    IndexMap::new()
}

/// `IndexMap::insert` on the edge map (see `nodes_insert`).
#[verifier::external_body]
fn edges_insert(m: &mut IndexMap<EdgeId, GraphEdge>, k: EdgeId, v: GraphEdge) -> (r: Option<GraphEdge>)
    ensures
        keys_unique(edge_entries(*old(m))),
        edge_entries(*final(m)) == insert_entry(edge_entries(*old(m)), k, v),
        r == value_of(edge_entries(*old(m)), k),
{
    m.insert(k, v)
}

/// `IndexMap::shift_remove` on the edge map (see `nodes_shift_remove`).
#[verifier::external_body]
fn edges_shift_remove(m: &mut IndexMap<EdgeId, GraphEdge>, k: EdgeId) -> (r: Option<GraphEdge>)
    ensures
        keys_unique(edge_entries(*old(m))),
        edge_entries(*final(m)) == remove_entry(edge_entries(*old(m)), k),
        r == value_of(edge_entries(*old(m)), k),
{
    m.shift_remove(&k)
}

/// `IndexMap::len` on the edge map.
#[verifier::external_body]
pub(crate) fn edges_len(m: &IndexMap<EdgeId, GraphEdge>) -> (r: usize)
    ensures
        r == edge_entries(*m).len(),
{
    m.len()
}

/// `IndexMap::get_index` on the edge map: the entry at position `i`.
#[verifier::external_body]
pub(crate) fn edges_get_index(m: &IndexMap<EdgeId, GraphEdge>, i: usize) -> (r: Option<(&EdgeId, &GraphEdge)>)
    ensures
        r is Some <==> i < edge_entries(*m).len(),
        r matches Some(kv) ==> *kv.0 == edge_entries(*m)[i as int].0 && *kv.1 == edge_entries(*m)[i as int].1,
{
    m.get_index(i)
}

/// `IndexMap::keys` on the node map, collected: the keys in order, each
/// once (an `IndexMap` holds a key at most once).
#[verifier::external_body]
fn nodes_keys(m: &IndexMap<NodeId, GraphNode>) -> (r: Vec<NodeId>)
    ensures
        r@ == node_entries(*m).map_values(|e: (NodeId, GraphNode)| e.0),
        forall|i: int, j: int| 0 <= i < r@.len() && 0 <= j < r@.len() && i != j ==> r@[i] != r@[j],
{
    m.keys().copied().collect()
}

/// `IndexMap::keys` on the edge map, collected (see `nodes_keys`).
#[verifier::external_body]
fn edges_keys(m: &IndexMap<EdgeId, GraphEdge>) -> (r: Vec<EdgeId>)
    ensures
        r@ == edge_entries(*m).map_values(|e: (EdgeId, GraphEdge)| e.0),
        forall|i: int, j: int| 0 <= i < r@.len() && 0 <= j < r@.len() && i != j ==> r@[i] != r@[j],
{
    m.keys().copied().collect()
}

/// (from node, to node) of each edge, in order.
pub open spec fn edge_pairs(es: Seq<(EdgeId, GraphEdge)>) -> Seq<(NodeId, NodeId)> {
    es.map_values(|e: (EdgeId, GraphEdge)| (e.1.from_node, e.1.to_node))
}

/// The edges of `es` that `keep` accepts, in order.
pub open spec fn retain_edges(es: Seq<(EdgeId, GraphEdge)>, keep: spec_fn(GraphEdge) -> bool) -> Seq<(EdgeId, GraphEdge)>
    decreases es.len(),
{
    if es.len() == 0 {
        Seq::empty()
    } else {
        let r = retain_edges(es.drop_last(), keep);
        if keep(es.last().1) {
            r.push(es.last())
        } else {
            r
        }
    }
}

proof fn lemma_retain_edges(es: Seq<(EdgeId, GraphEdge)>, keep: spec_fn(GraphEdge) -> bool)
    ensures
        forall|i: int| 0 <= i < retain_edges(es, keep).len() ==> exists|j: int| 0 <= j < es.len()
            && #[trigger] es[j] == #[trigger] retain_edges(es, keep)[i],
        forall|i: int| 0 <= i < retain_edges(es, keep).len() ==> keep(#[trigger] retain_edges(es, keep)[i].1),
        forall|j: int| 0 <= j < es.len() && keep(#[trigger] es[j].1) ==> exists|i: int| 0 <= i < retain_edges(es, keep).len()
            && #[trigger] retain_edges(es, keep)[i] == es[j],
        keys_unique(es) ==> keys_unique(retain_edges(es, keep)),
    decreases es.len(),
{
    if es.len() > 0 {
        let d = es.drop_last();
        lemma_retain_edges(d, keep);
        let r = retain_edges(d, keep);
        let t = retain_edges(es, keep);
        assert forall|i: int| 0 <= i < t.len() implies exists|j: int| 0 <= j < es.len()
            && #[trigger] es[j] == #[trigger] t[i] by {
            if i < r.len() {
                assert(t[i] == r[i]);
                let j = choose|j: int| 0 <= j < d.len() && #[trigger] d[j] == r[i];
                assert(es[j] == d[j]);
            } else {
                assert(t[i] == es[es.len() - 1]);
            }
        }
        assert forall|i: int| 0 <= i < t.len() implies keep(#[trigger] t[i].1) by {
            if i < r.len() {
                assert(t[i] == r[i]);
            }
        }
        assert forall|j: int| 0 <= j < es.len() && keep(#[trigger] es[j].1) implies exists|i: int| 0 <= i < t.len()
            && #[trigger] t[i] == es[j] by {
            if j < d.len() {
                assert(d[j] == es[j]);
                let i = choose|i: int| 0 <= i < r.len() && #[trigger] r[i] == d[j];
                assert(t[i] == r[i]);
            } else {
                assert(t[r.len() as int] == es[j]);
            }
        }
        if keys_unique(es) {
            assert(keys_unique(d));
            if keep(es.last().1) {
                assert forall|a: int, b: int| 0 <= a < t.len() && 0 <= b < t.len() && a != b implies t[a].0 != t[b].0 by {
                    if a < r.len() && b < r.len() {
                        assert(t[a] == r[a] && t[b] == r[b]);
                    } else if a < r.len() {
                        assert(t[a] == r[a]);
                        let ja = choose|j: int| 0 <= j < d.len() && #[trigger] d[j] == r[a];
                        assert(es[ja] == d[ja]);
                        assert(t[b] == es[es.len() - 1]);
                    } else if b < r.len() {
                        assert(t[b] == r[b]);
                        let jb = choose|j: int| 0 <= j < d.len() && #[trigger] d[j] == r[b];
                        assert(es[jb] == d[jb]);
                        assert(t[a] == es[es.len() - 1]);
                    }
                }
            }
        }
    }
}

proof fn lemma_retain_pairs_within(es: Seq<(EdgeId, GraphEdge)>, keep: spec_fn(GraphEdge) -> bool)
    ensures
        pairs_within(edge_pairs(retain_edges(es, keep)), edge_pairs(es)),
{
    lemma_retain_edges(es, keep);
    let t = retain_edges(es, keep);
    assert forall|i: int| 0 <= i < edge_pairs(t).len() implies edge_pairs(es).contains(#[trigger] edge_pairs(t)[i]) by {
        let j = choose|j: int| 0 <= j < es.len() && #[trigger] es[j] == #[trigger] t[i];
        assert(edge_pairs(es)[j] == edge_pairs(t)[i]);
    }
}

proof fn lemma_remove_pairs_within(es: Seq<(EdgeId, GraphEdge)>, k: EdgeId)
    ensures
        pairs_within(edge_pairs(remove_entry(es, k)), edge_pairs(es)),
{
    let t = remove_entry(es, k);
    assert forall|i: int| 0 <= i < edge_pairs(t).len() implies edge_pairs(es).contains(#[trigger] edge_pairs(t)[i]) by {
        if has_key(es, k) {
            let p = key_index(es, k);
            if i < p {
                assert(edge_pairs(es)[i] == edge_pairs(t)[i]);
            } else {
                assert(edge_pairs(es)[i + 1] == edge_pairs(t)[i]);
            }
        } else {
            assert(edge_pairs(es)[i] == edge_pairs(t)[i]);
        }
    }
}


/// Which edges a filtering pass keeps.
pub enum EdgeFilter {
    /// Edges that neither leave nor enter the node.
    NotTouching(NodeId),
    /// Edges that do not land on the given input port of the node.
    NotInto(NodeId, PortId),
    /// Edges that do not leave the node.
    NotFrom(NodeId),
}

pub open spec fn keeps_edge(f: EdgeFilter, e: GraphEdge) -> bool {
    match f {
        EdgeFilter::NotTouching(id) => e.from_node != id && e.to_node != id,
        EdgeFilter::NotInto(n, p) => !(e.to_node == n && e.to_port == p),
        EdgeFilter::NotFrom(n) => e.from_node != n,
    }
}

pub open spec fn edge_filter(f: EdgeFilter) -> spec_fn(GraphEdge) -> bool {
    |e: GraphEdge| keeps_edge(f, e)
}

fn keeps_edge_exec(f: &EdgeFilter, e: &GraphEdge) -> (r: bool)
    ensures
        r == keeps_edge(*f, *e),
{
    match f {
        EdgeFilter::NotTouching(id) => e.from_node != *id && e.to_node != *id,
        EdgeFilter::NotInto(n, p) => !(e.to_node == *n && e.to_port == *p),
        EdgeFilter::NotFrom(n) => e.from_node != *n,
    }
}

/// The node id at each position of an entry sequence.
pub open spec fn index_pairs_from(ns: Seq<(NodeId, GraphNode)>, es: Seq<(EdgeId, GraphEdge)>) -> Seq<(usize, usize)> {
    es.map_values(|e: (EdgeId, GraphEdge)| (key_index(ns, e.1.from_node) as usize, key_index(ns, e.1.to_node) as usize))
}

/// An edge whose two endpoints are nodes of `ns`.
pub open spec fn edge_live(ns: Seq<(NodeId, GraphNode)>) -> spec_fn((EdgeId, GraphEdge)) -> bool {
    |e: (EdgeId, GraphEdge)| has_key(ns, e.1.from_node) && has_key(ns, e.1.to_node)
}

/// The node views with each node's id set to its key.
pub open spec fn keyed_views(ns: Seq<(NodeId, GraphNode)>) -> Seq<(NodeId, GraphNodeView)> {
    ns.map_values(|e: (NodeId, GraphNode)| (e.0, GraphNodeView { id: e.0, ..e.1@ }))
}

/// The edges whose endpoints are nodes of `ns`, each with its id set to its
/// key.
pub open spec fn keyed_live_edges(ns: Seq<(NodeId, GraphNode)>, es: Seq<(EdgeId, GraphEdge)>) -> Seq<(EdgeId, GraphEdge)> {
    es.filter(edge_live(ns)).map_values(|e: (EdgeId, GraphEdge)| (e.0, GraphEdge { id: e.0, ..e.1 }))
}

/// `h` is `g` with its edges to missing nodes left out and every id set to
/// its key: a linked graph.
pub open spec fn normalized_from(g: AudioGraph, h: AudioGraph) -> bool {
    &&& h.linked()
    &&& h.nodes_view() == keyed_views(g.node_seq())
    &&& h.edge_seq() == keyed_live_edges(g.node_seq(), g.edge_seq())
    &&& h.user_arranged == g.user_arranged
}

/// A normalized copy has the same node keys and, as its edges, the edges
/// between nodes; on a linked graph those are all the edges.
pub proof fn lemma_normalized_shape(g: AudioGraph, h: AudioGraph)
    requires
        normalized_from(g, h),
    ensures
        h.node_seq().len() == g.node_seq().len(),
        h.edge_seq().len() <= g.edge_seq().len(),
        forall|k: NodeId| #[trigger] has_key(h.node_seq(), k) == has_key(g.node_seq(), k),
        h.pairs() == g.live_pairs(),
        forall|pairs: Seq<(NodeId, NodeId)>, v: Seq<NodeId>|
            #[trigger] is_node_order(h.node_seq(), pairs, v) == is_node_order(g.node_seq(), pairs, v),
        g.linked() ==> g.live_pairs() == g.pairs(),
{
    let (ns, hn) = (g.node_seq(), h.node_seq());
    lemma_map_vals_keys(hn, node_view_fn());
    assert(h.nodes_view().len() == hn.len());
    assert forall|k: NodeId| #[trigger] has_key(hn, k) == has_key(ns, k) by {
        if has_key(hn, k) {
            let a = key_index(hn, k);
            assert(h.nodes_view()[a].0 == k);
            assert(ns[a].0 == k);
        }
        if has_key(ns, k) {
            let a = key_index(ns, k);
            assert(h.nodes_view()[a].0 == k);
            assert(hn[a].0 == k);
        }
    }
    g.edge_seq().lemma_filter_len(edge_live(ns));
    assert(h.pairs() =~= g.live_pairs());
    if g.linked() {
        assert forall|i: int| 0 <= i < g.edge_seq().len() implies edge_live(ns)(#[trigger] g.edge_seq()[i]) by {}
        lemma_filter_everything(g.edge_seq(), edge_live(ns));
    }
}

/// On a linked graph every edge is between nodes.
pub proof fn lemma_linked_live_pairs(g: AudioGraph)
    requires
        g.linked(),
    ensures
        g.live_pairs() == g.pairs(),
{
    assert forall|i: int| 0 <= i < g.edge_seq().len() implies edge_live(g.node_seq())(#[trigger] g.edge_seq()[i]) by {}
    lemma_filter_everything(g.edge_seq(), edge_live(g.node_seq()));
}

/// A linked graph is its own normalized copy.
pub proof fn lemma_linked_normalized(g: AudioGraph)
    requires
        g.linked(),
    ensures
        normalized_from(g, g),
{
    let (ns, es) = (g.node_seq(), g.edge_seq());
    assert(g.nodes_view() =~= keyed_views(ns));
    lemma_normalized_shape_edges(ns, es);
}

/// Edges that are all live and keyed by their ids stay as they are.
pub proof fn lemma_normalized_shape_edges(ns: Seq<(NodeId, GraphNode)>, es: Seq<(EdgeId, GraphEdge)>)
    requires
        forall|i: int| 0 <= i < es.len() ==> edge_live(ns)(#[trigger] es[i]) && es[i].1.id == es[i].0,
    ensures
        keyed_live_edges(ns, es) == es,
{
    lemma_filter_everything(es, edge_live(ns));
    assert(keyed_live_edges(ns, es) =~= es);
}

/// Inserting an edge between two nodes adds at most that edge's pair to the
/// pairs of the edges between nodes; a new key adds exactly it, at the end.
proof fn lemma_insert_live_pairs(ns: Seq<(NodeId, GraphNode)>, es: Seq<(EdgeId, GraphEdge)>, k: EdgeId, e: GraphEdge)
    requires
        has_key(ns, e.from_node),
        has_key(ns, e.to_node),
    ensures
        pairs_within(edge_pairs(insert_entry(es, k, e).filter(edge_live(ns))),
            edge_pairs(es.filter(edge_live(ns))).push((e.from_node, e.to_node))),
        !has_key(es, k) ==> edge_pairs(insert_entry(es, k, e).filter(edge_live(ns)))
            == edge_pairs(es.filter(edge_live(ns))).push((e.from_node, e.to_node)),
{
    let live = edge_live(ns);
    let t = insert_entry(es, k, e);
    let f = t.filter(live);
    let fe = es.filter(live);
    let big = edge_pairs(fe).push((e.from_node, e.to_node));
    assert(live((k, e)));
    assert forall|i: int| 0 <= i < edge_pairs(f).len() implies big.contains(#[trigger] edge_pairs(f)[i]) by {
        let x = f[i];
        t.lemma_filter_pred(live, i);
        assert(f.contains(x));
        t.lemma_filter_contains_rev(live, x);
        let j = choose|j: int| 0 <= j < t.len() && t[j] == x;
        if x == (k, e) {
            assert(big[fe.len() as int] == edge_pairs(f)[i]);
        } else {
            assert(0 <= j < es.len() && es[j] == x) by {
                if has_key(es, k) {
                    assert(t[j] == es[j] || j == key_index(es, k));
                } else {
                    assert(j < es.len());
                }
            }
            es.lemma_filter_contains(live, j);
            let m = choose|m: int| 0 <= m < fe.len() && fe[m] == x;
            assert(big[m] == edge_pairs(f)[i]);
        }
    }
    if !has_key(es, k) {
        es.lemma_filter_push((k, e), live);
        assert(t == es.push((k, e)));
        assert(edge_pairs(f) =~= big);
    }
}

proof fn lemma_filter_everything<T>(s: Seq<T>, p: spec_fn(T) -> bool)
    requires
        forall|i: int| 0 <= i < s.len() ==> p(#[trigger] s[i]),
    ensures
        s.filter(p) == s,
    decreases s.len(),
{
    reveal(Seq::filter);
    if s.len() > 0 {
        lemma_filter_everything(s.drop_last(), p);
        assert(s.drop_last().push(s.last()) =~= s);
    }
}

/// `order` lists every node id once and each edge runs from an earlier
/// node to a later one.
pub open spec fn is_node_order(ns: Seq<(NodeId, GraphNode)>, pairs: Seq<(NodeId, NodeId)>, order: Seq<NodeId>) -> bool {
    &&& order.len() == ns.len()
    &&& forall|i: int| 0 <= i < order.len() ==> has_key(ns, #[trigger] order[i])
    &&& forall|i: int, j: int| 0 <= i < order.len() && 0 <= j < order.len() && i != j ==> order[i] != order[j]
    &&& forall|k: int| 0 <= k < pairs.len() ==> runs_forward(order, #[trigger] pairs[k])
}

/// The edge's source comes before its target in `order`.
pub open spec fn runs_forward(order: Seq<NodeId>, e: (NodeId, NodeId)) -> bool {
    exists|i: int, j: int| 0 <= i < j < order.len() && #[trigger] order[i] == e.0 && #[trigger] order[j] == e.1
}

#[derive(Debug)]
pub struct AudioGraph {
    pub nodes: IndexMap<NodeId, GraphNode>,
    pub edges: IndexMap<EdgeId, GraphEdge>,
    /// Set once the user positions a node by hand.
    pub user_arranged: bool,
}

impl AudioGraph {
    pub open spec fn node_seq(&self) -> Seq<(NodeId, GraphNode)> {
        node_entries(self.nodes)
    }

    pub open spec fn edge_seq(&self) -> Seq<(EdgeId, GraphEdge)> {
        edge_entries(self.edges)
    }

    /// Node entries with each node by its view.
    pub open spec fn nodes_view(&self) -> Seq<(NodeId, GraphNodeView)> {
        map_vals(self.node_seq(), node_view_fn())
    }

    /// (from node, to node) of every edge, in order.
    pub open spec fn pairs(&self) -> Seq<(NodeId, NodeId)> {
        edge_pairs(self.edge_seq())
    }

    /// (from node, to node) of every edge whose endpoints are both nodes of
    /// the graph, in order.
    pub open spec fn live_pairs(&self) -> Seq<(NodeId, NodeId)> {
        edge_pairs(self.edge_seq().filter(edge_live(self.node_seq())))
    }

    pub open spec fn has_node(&self, id: NodeId) -> bool {
        has_key(self.node_seq(), id)
    }

    pub open spec fn node_of(&self, id: NodeId) -> GraphNode {
        self.node_seq()[key_index(self.node_seq(), id)].1
    }

    /// Edges in node-position form, as handed to `petgraph`.
    pub open spec fn index_pairs(&self) -> Seq<(usize, usize)> {
        index_pairs_from(self.node_seq(), self.edge_seq())
    }

    /// Ids are unique and match their entries, and every edge joins two
    /// nodes of the graph.
    pub open spec fn linked(&self) -> bool {
        let ns = self.node_seq();
        let es = self.edge_seq();
        &&& keys_unique(ns)
        &&& keys_unique(es)
        &&& forall|i: int| 0 <= i < ns.len() ==> (#[trigger] ns[i]).1.id == ns[i].0
        &&& forall|i: int| 0 <= i < es.len() ==> (#[trigger] es[i]).1.id == es[i].0
            && has_key(ns, es[i].1.from_node) && has_key(ns, es[i].1.to_node)
        &&& ns.len() <= usize::MAX
        &&& es.len() <= usize::MAX
    }

    /// Each key occurs once in each map. Every `IndexMap` meets this; it is
    /// stated because the maps are read through the names of their entries.
    pub open spec fn distinct_keys(&self) -> bool {
        keys_unique(self.node_seq()) && keys_unique(self.edge_seq())
    }

    /// Well-formed: linked and free of directed cycles, which every editing
    /// operation keeps. Without linkage acyclicity is not kept: adding a node
    /// that an edge to a missing node names can close a cycle.
    pub open spec fn wf(&self) -> bool {
        self.linked() && !has_cycle(self.pairs())
    }

    pub fn new() -> (g: AudioGraph)
        ensures
            g.wf(),
            g.node_seq().len() == 0,
            g.edge_seq().len() == 0,
            !g.user_arranged,
    {
        let g = AudioGraph { nodes: nodes_new(), edges: edges_new(), user_arranged: false };
        assert(!has_cycle(g.pairs())) by {
            if has_cycle(g.pairs()) {
                let p = choose|p: Seq<int>| #[trigger] is_cycle_walk(g.pairs(), p);
                assert(0 <= p[0] < g.pairs().len());
            }
        }
        g
    }

    pub fn add_node(&mut self, node: GraphNode) -> (id: NodeId)
        requires
            old(self).node_seq().len() < usize::MAX,
        ensures
            old(self).wf() ==> final(self).wf(),
            keys_unique(final(self).node_seq()),
            id == node.id,
            final(self).node_seq() == insert_entry(old(self).node_seq(), node.id, node),
            final(self).nodes_view() == insert_entry(old(self).nodes_view(), node.id, node@),
            final(self).edge_seq() == old(self).edge_seq(),
            final(self).user_arranged == old(self).user_arranged,
    {
        let id = node.id;
        let ghost ns = self.node_seq();
        let ghost nd = node;
        let ghost g0 = *self;
        nodes_insert(&mut self.nodes, id, node);
        proof {
            lemma_map_vals_insert(ns, id, nd, node_view_fn());
            lemma_insert_keeps_unique(ns, id, nd);
            if g0.linked() {
                let t = self.node_seq();
                assert forall|i: int| 0 <= i < t.len() implies (#[trigger] t[i]).1.id == t[i].0 by {
                    if has_key(ns, id) && i == key_index(ns, id) {
                    } else if i < ns.len() {
                        assert(t[i] == ns[i]);
                    }
                }
                let es = self.edge_seq();
                assert forall|i: int| 0 <= i < es.len() implies (#[trigger] es[i]).1.id == es[i].0
                    && has_key(t, es[i].1.from_node) && has_key(t, es[i].1.to_node) by {
                    assert(has_key(ns, es[i].1.from_node));
                    assert(has_key(ns, es[i].1.to_node));
                }
            }
        }
        id
    }

    /// Set gain, pan and mute of the `GainPan` node `id`, keeping its solo
    /// flag; any other node, or a missing id, leaves the graph as it was.
    pub fn set_gain_pan(&mut self, id: NodeId, gain_db: u32, pan: u32, mute: bool)
        requires
            old(self).distinct_keys(),
        ensures
            final(self).distinct_keys(),
            old(self).wf() ==> final(self).wf(),
            final(self).nodes_view() == gain_pan_set(old(self).nodes_view(), id, gain_db, pan, mute),
            final(self).edge_seq() == old(self).edge_seq(),
            final(self).user_arranged == old(self).user_arranged,
    {
        let ghost ns = self.node_seq();
        let ghost g0 = *self;
        proof {
            lemma_map_vals_remove(ns, id, node_view_fn());
        }
        let replacement = match self.node(id) {
            Some(n) => match &n.kind {
                NodeKind::GainPan { solo, .. } => {
                    let d = n.duplicate();
                    Some(GraphNode {
                        id: d.id,
                        name: d.name,
                        kind: NodeKind::GainPan { gain_db, pan, mute, solo: *solo },
                        inputs: d.inputs,
                        outputs: d.outputs,
                        position: d.position,
                        latency_samples: d.latency_samples,
                    })
                },
                _ => None,
            },
            None => None,
        };
        if let Some(node) = replacement {
            let ghost nd = node;
            nodes_insert(&mut self.nodes, id, node);
            proof {
                lemma_map_vals_insert(ns, id, nd, node_view_fn());
                lemma_insert_keeps_unique(ns, id, nd);
                let t = self.node_seq();
                assert(t.len() == ns.len());
                let es = self.edge_seq();
                if g0.linked() {
                    assert forall|i: int| 0 <= i < t.len() implies (#[trigger] t[i]).1.id == t[i].0 by {
                        if i != key_index(ns, id) {
                            assert(t[i] == ns[i]);
                        }
                    }
                    assert forall|i: int| 0 <= i < es.len() implies (#[trigger] es[i]).1.id == es[i].0
                        && has_key(t, es[i].1.from_node) && has_key(t, es[i].1.to_node) by {
                        assert(has_key(ns, es[i].1.from_node));
                        assert(has_key(ns, es[i].1.to_node));
                    }
                }
                assert(self.nodes_view() == gain_pan_set(old(self).nodes_view(), id, gain_db, pan, mute));
            }
        }
    }

    /// Record what the plugin host reports of the plugin node `id`: whether
    /// it failed, and its latency. Any other node, or a missing id, leaves
    /// the graph as it was.
    pub fn set_plugin_status(&mut self, id: NodeId, failed: bool, latency: u32)
        requires
            old(self).distinct_keys(),
        ensures
            final(self).distinct_keys(),
            old(self).wf() ==> final(self).wf(),
            final(self).nodes_view() == plugin_status_set(old(self).nodes_view(), id, failed, latency),
            final(self).edge_seq() == old(self).edge_seq(),
            final(self).user_arranged == old(self).user_arranged,
    {
        let ghost ns = self.node_seq();
        let ghost g0 = *self;
        proof {
            lemma_map_vals_remove(ns, id, node_view_fn());
        }
        let replacement = match self.node(id) {
            Some(n) => {
                let d = n.duplicate();
                let kind = match d.kind {
                    NodeKind::PluginInstrument { instance_id, plugin_format, plugin_uid, plugin_path, plugin_name, .. } =>
                        Some(NodeKind::PluginInstrument { instance_id, plugin_format, plugin_uid, plugin_path, plugin_name, failed }),
                    NodeKind::PluginEffect { instance_id, plugin_format, plugin_uid, plugin_path, plugin_name, bypass, .. } =>
                        Some(NodeKind::PluginEffect { instance_id, plugin_format, plugin_uid, plugin_path, plugin_name, bypass, failed }),
                    _ => None,
                };
                match kind {
                    Some(kind) => Some(GraphNode {
                        id: d.id,
                        name: d.name,
                        kind,
                        inputs: d.inputs,
                        outputs: d.outputs,
                        position: d.position,
                        latency_samples: latency,
                    }),
                    None => None,
                }
            },
            None => None,
        };
        if let Some(node) = replacement {
            let ghost nd = node;
            nodes_insert(&mut self.nodes, id, node);
            proof {
                lemma_map_vals_insert(ns, id, nd, node_view_fn());
                lemma_insert_keeps_unique(ns, id, nd);
                let t = self.node_seq();
                assert(t.len() == ns.len());
                let es = self.edge_seq();
                if g0.linked() {
                    assert forall|i: int| 0 <= i < t.len() implies (#[trigger] t[i]).1.id == t[i].0 by {
                        if i != key_index(ns, id) {
                            assert(t[i] == ns[i]);
                        }
                    }
                    assert forall|i: int| 0 <= i < es.len() implies (#[trigger] es[i]).1.id == es[i].0
                        && has_key(t, es[i].1.from_node) && has_key(t, es[i].1.to_node) by {
                        assert(has_key(ns, es[i].1.from_node));
                        assert(has_key(ns, es[i].1.to_node));
                    }
                }
                assert(self.nodes_view() == plugin_status_set(old(self).nodes_view(), id, failed, latency));
            }
        }
    }

    /// Copy of the edge map keeping the edges `f` accepts.
    fn filtered_edges(&self, f: &EdgeFilter) -> (m: IndexMap<EdgeId, GraphEdge>)
        requires
            keys_unique(self.edge_seq()),
        ensures
            edge_entries(m) == retain_edges(self.edge_seq(), edge_filter(*f)),
    {
        let ghost es = self.edge_seq();
        let ghost keep = edge_filter(*f);
        let mut m = edges_new();
        let n = edges_len(&self.edges);
        let mut i: usize = 0;
        assert(es.take(0) =~= Seq::<(EdgeId, GraphEdge)>::empty());
        while i < n
            invariant
                i <= n,
                n == es.len(),
                es == self.edge_seq(),
                keys_unique(es),
                keep == edge_filter(*f),
                edge_entries(m) == retain_edges(es.take(i as int), keep),
            decreases n - i,
        {
            let kv = edges_get_index(&self.edges, i).unwrap();
            let k = *kv.0;
            let e = *kv.1;
            proof {
                assert(es.take(i as int + 1).drop_last() =~= es.take(i as int));
                assert(es.take(i as int + 1).last() == es[i as int]);
            }
            if keeps_edge_exec(f, &e) {
                proof {
                    let r = retain_edges(es.take(i as int), keep);
                    lemma_retain_edges(es.take(i as int), keep);
                    if has_key(r, k) {
                        let a = key_index(r, k);
                        let j = choose|j: int| 0 <= j < es.take(i as int).len()
                            && #[trigger] es.take(i as int)[j] == #[trigger] r[a];
                        assert(es[j] == es.take(i as int)[j]);
                        assert(false);
                    }
                }
                edges_insert(&mut m, k, e);
            }
            i = i + 1;
        }
        assert(es.take(n as int) =~= es);
        m
    }

    proof fn lemma_filtered_keeps_wf(old_g: AudioGraph, new_g: AudioGraph, f: EdgeFilter)
        requires
            old_g.wf(),
            new_g.edge_seq() == retain_edges(old_g.edge_seq(), edge_filter(f)),
            keys_unique(new_g.node_seq()),
            forall|i: int| 0 <= i < new_g.node_seq().len() ==> (#[trigger] new_g.node_seq()[i]).1.id == new_g.node_seq()[i].0,
            new_g.node_seq().len() <= usize::MAX,
            forall|i: int| 0 <= i < new_g.edge_seq().len() ==> has_key(new_g.node_seq(), (#[trigger] new_g.edge_seq()[i]).1.from_node)
                && has_key(new_g.node_seq(), new_g.edge_seq()[i].1.to_node),
        ensures
            new_g.wf(),
    {
        lemma_retain_edges(old_g.edge_seq(), edge_filter(f));
        lemma_retain_pairs_within(old_g.edge_seq(), edge_filter(f));
        let es = new_g.edge_seq();
        assert forall|i: int| 0 <= i < es.len() implies (#[trigger] es[i]).1.id == es[i].0 by {
            let j = choose|j: int| 0 <= j < old_g.edge_seq().len() && #[trigger] old_g.edge_seq()[j] == #[trigger] es[i];
            assert(old_g.edge_seq()[j].1.id == old_g.edge_seq()[j].0);
        }
        if has_cycle(new_g.pairs()) {
            lemma_cycle_within(new_g.pairs(), old_g.pairs());
        }
        assert(es.len() <= old_g.edge_seq().len()) by {
            lemma_retain_edges_len(old_g.edge_seq(), edge_filter(f));
        }
    }

    pub fn remove_node(&mut self, id: NodeId) -> (r: Option<GraphNode>)
        requires
            old(self).distinct_keys(),
        ensures
            old(self).wf() ==> final(self).wf(),
            old(self).distinct_keys() ==> final(self).distinct_keys(),
            r == value_of(old(self).node_seq(), id),
            final(self).node_seq() == remove_entry(old(self).node_seq(), id),
            final(self).nodes_view() == remove_entry(old(self).nodes_view(), id),
            has_key(old(self).nodes_view(), id) == (r is Some),
            r is Some ==> final(self).edge_seq() == retain_edges(old(self).edge_seq(), edge_filter(EdgeFilter::NotTouching(id))),
            r is None ==> final(self).edge_seq() == old(self).edge_seq(),
            final(self).user_arranged == old(self).user_arranged,
    {
        let ghost old_g = *self;
        let ghost ns = self.node_seq();
        proof {
            lemma_map_vals_remove(ns, id, node_view_fn());
            lemma_map_vals_keys(ns, node_view_fn());
        }
        let removed = nodes_shift_remove(&mut self.nodes, id);
        proof {
            lemma_remove_keeps_unique(ns, id);
        }
        match removed {
            None => {
                assert(self.edge_seq() == old_g.edge_seq());
                None
            },
            Some(node) => {
                let f = EdgeFilter::NotTouching(id);
                let kept = self.filtered_edges(&f);
                self.edges = kept;
                proof {
                    let t = self.node_seq();
                    lemma_retain_edges(old_g.edge_seq(), edge_filter(f));
                    if old_g.wf() {
                    assert forall|i: int| 0 <= i < t.len() implies (#[trigger] t[i]).1.id == t[i].0 by {
                        let p = key_index(ns, id);
                        if i < p {
                            assert(t[i] == ns[i]);
                        } else {
                            assert(t[i] == ns[i + 1]);
                        }
                    }
                    lemma_retain_edges(old_g.edge_seq(), edge_filter(f));
                    let es = self.edge_seq();
                    assert forall|i: int| 0 <= i < es.len() implies has_key(t, (#[trigger] es[i]).1.from_node)
                        && has_key(t, es[i].1.to_node) by {
                        let j = choose|j: int| 0 <= j < old_g.edge_seq().len() && #[trigger] old_g.edge_seq()[j] == #[trigger] es[i];
                        assert(keeps_edge(f, es[i].1));
                        assert(has_key(ns, old_g.edge_seq()[j].1.from_node));
                        assert(has_key(ns, old_g.edge_seq()[j].1.to_node));
                    }
                    Self::lemma_filtered_keeps_wf(old_g, *self, f);
                    }
                }
                Some(node)
            }
        }
    }

    pub fn disconnect(&mut self, id: EdgeId) -> (r: Option<GraphEdge>)
        ensures
            old(self).wf() ==> final(self).wf(),
            old(self).distinct_keys() ==> final(self).distinct_keys(),
            r == value_of(old(self).edge_seq(), id),
            final(self).edge_seq() == remove_entry(old(self).edge_seq(), id),
            final(self).node_seq() == old(self).node_seq(),
            final(self).user_arranged == old(self).user_arranged,
    {
        let ghost es = self.edge_seq();
        let ghost g0 = *self;
        let r = edges_shift_remove(&mut self.edges, id);
        proof {
            lemma_remove_keeps_unique(es, id);
            if g0.wf() {
            lemma_remove_pairs_within(es, id);
            let t = self.edge_seq();
            assert forall|i: int| 0 <= i < t.len() implies (#[trigger] t[i]).1.id == t[i].0
                && has_key(self.node_seq(), t[i].1.from_node) && has_key(self.node_seq(), t[i].1.to_node) by {
                if has_key(es, id) {
                    let p = key_index(es, id);
                    if i < p {
                        assert(t[i] == es[i]);
                    } else {
                        assert(t[i] == es[i + 1]);
                    }
                } else {
                    assert(t[i] == es[i]);
                }
            }
            if has_cycle(self.pairs()) {
                lemma_cycle_within(self.pairs(), edge_pairs(es));
            }
            }
        }
        r
    }

    /// Remove every edge that lands on the given input port.
    pub fn disconnect_inputs_to(&mut self, to_node: NodeId, to_port: PortId)
        requires
            old(self).distinct_keys(),
        ensures
            old(self).wf() ==> final(self).wf(),
            old(self).distinct_keys() ==> final(self).distinct_keys(),
            final(self).edge_seq() == retain_edges(old(self).edge_seq(), edge_filter(EdgeFilter::NotInto(to_node, to_port))),
            final(self).node_seq() == old(self).node_seq(),
            final(self).user_arranged == old(self).user_arranged,
    {
        let ghost old_g = *self;
        let f = EdgeFilter::NotInto(to_node, to_port);
        let kept = self.filtered_edges(&f);
        self.edges = kept;
        proof {
            lemma_retain_edges(old_g.edge_seq(), edge_filter(f));
            if old_g.wf() {
            let es = self.edge_seq();
            assert forall|i: int| 0 <= i < es.len() implies has_key(self.node_seq(), (#[trigger] es[i]).1.from_node)
                && has_key(self.node_seq(), es[i].1.to_node) by {
                let j = choose|j: int| 0 <= j < old_g.edge_seq().len() && #[trigger] old_g.edge_seq()[j] == #[trigger] es[i];
                assert(has_key(old_g.node_seq(), old_g.edge_seq()[j].1.from_node));
            }
            Self::lemma_filtered_keeps_wf(old_g, *self, f);
            }
        }
    }
}


/// Node views after the `GainPan` node `id` (if it is one) takes the given
/// gain, pan and mute.
pub open spec fn gain_pan_set(vs: Seq<(NodeId, GraphNodeView)>, id: NodeId, gain_db: u32, pan: u32, mute: bool)
    -> Seq<(NodeId, GraphNodeView)>
{
    match value_of(vs, id) {
        Some(v) => match v.kind {
            NodeKind::GainPan { solo, .. } => insert_entry(vs, id,
                GraphNodeView { kind: NodeKind::GainPan { gain_db, pan, mute, solo }, ..v }),
            _ => vs,
        },
        None => vs,
    }
}

/// A plugin node with its failed flag and latency set.
pub open spec fn with_status(v: GraphNodeView, failed: bool, latency: u32) -> GraphNodeView {
    match v.kind {
        NodeKind::PluginInstrument { instance_id, plugin_format, plugin_uid, plugin_path, plugin_name, .. } =>
            GraphNodeView {
                kind: NodeKind::PluginInstrument { instance_id, plugin_format, plugin_uid, plugin_path, plugin_name, failed },
                latency_samples: latency,
                ..v
            },
        NodeKind::PluginEffect { instance_id, plugin_format, plugin_uid, plugin_path, plugin_name, bypass, .. } =>
            GraphNodeView {
                kind: NodeKind::PluginEffect { instance_id, plugin_format, plugin_uid, plugin_path, plugin_name, bypass, failed },
                latency_samples: latency,
                ..v
            },
        _ => v,
    }
}

/// Node views after the plugin node `id` (if it is one) takes the given
/// failed flag and latency.
pub open spec fn plugin_status_set(vs: Seq<(NodeId, GraphNodeView)>, id: NodeId, failed: bool, latency: u32)
    -> Seq<(NodeId, GraphNodeView)>
{
    match value_of(vs, id) {
        Some(v) => if v.kind is PluginInstrument || v.kind is PluginEffect {
            insert_entry(vs, id, with_status(v, failed, latency))
        } else {
            vs
        },
        None => vs,
    }
}

/// The edge `connect` stores for the given endpoints under `id`.
pub open spec fn new_edge(id: EdgeId, from_node: NodeId, from_port: PortId, to_node: NodeId, to_port: PortId) -> GraphEdge {
    GraphEdge { id, from_node, from_port, to_node, to_port }
}

/// Some edge already joins exactly these two ports.
pub open spec fn has_same_edge(es: Seq<(EdgeId, GraphEdge)>, from_node: NodeId, from_port: PortId, to_node: NodeId, to_port: PortId) -> bool {
    exists|i: int| 0 <= i < es.len() && (#[trigger] es[i]).1.from_node == from_node && es[i].1.from_port == from_port
        && es[i].1.to_node == to_node && es[i].1.to_port == to_port
}

/// What `connect` does, given the graph before (`g`) and after (`h`): the
/// checks in order, then the new edge, refused with `Cycle` when the edges
/// between nodes would then hold a directed cycle (edges to missing nodes are
/// passed over, as `petgraph` sees only the nodes).
pub open spec fn connect_post(g: AudioGraph, h: AudioGraph, from_node: NodeId, from_port: PortId, to_node: NodeId,
    to_port: PortId, r: Result<EdgeId, GraphError>) -> bool
{
    let unchanged = h.node_seq() == g.node_seq() && h.edge_seq() == g.edge_seq();
    let out = find_port_in(g.node_of(from_node).all_ports(), from_port);
    let inp = find_port_in(g.node_of(to_node).all_ports(), to_port);
    &&& h.node_seq() == g.node_seq()
    &&& h.user_arranged == g.user_arranged
    &&& if from_node == to_node {
        r == Err::<EdgeId, GraphError>(GraphError::SelfConnection) && unchanged
    } else if !g.has_node(from_node) {
        (r matches Err(GraphError::NodeNotFound(s)) && s@ == uuid_text(from_node)) && unchanged
    } else if !g.has_node(to_node) {
        (r matches Err(GraphError::NodeNotFound(s)) && s@ == uuid_text(to_node)) && unchanged
    } else if out is None || inp is None {
        r == Err::<EdgeId, GraphError>(GraphError::PortNotFound) && unchanged
    } else if out->0.is_input || !inp->0.is_input {
        r == Err::<EdgeId, GraphError>(GraphError::DirectionMismatch) && unchanged
    } else if out->0.port_type != inp->0.port_type {
        r == Err::<EdgeId, GraphError>(GraphError::TypeMismatch { from: out->0.port_type, to: inp->0.port_type }) && unchanged
    } else if has_same_edge(g.edge_seq(), from_node, from_port, to_node, to_port) {
        r == Err::<EdgeId, GraphError>(GraphError::DuplicateEdge) && unchanged
    } else {
        &&& !has_cycle(g.live_pairs().push((from_node, to_node))) ==> r is Ok
        &&& r matches Ok(id) ==> h.edge_seq() == insert_entry(g.edge_seq(), id,
                new_edge(id, from_node, from_port, to_node, to_port))
        &&& r matches Ok(id) ==> (!has_key(g.edge_seq(), id) ==> !has_cycle(g.live_pairs().push((from_node, to_node))))
        &&& r is Err ==> r == Err::<EdgeId, GraphError>(GraphError::Cycle)
            && has_cycle(g.live_pairs().push((from_node, to_node)))
            && exists|id: EdgeId| h.edge_seq() == remove_entry(insert_entry(g.edge_seq(), id,
                new_edge(id, from_node, from_port, to_node, to_port)), id)
    }
}

/// Every check `connect` makes before the cycle check passes: two distinct
/// nodes, both ports found, an output into an input of the same type, and
/// no such edge yet.
pub open spec fn connect_checks_pass(g: AudioGraph, from_node: NodeId, from_port: PortId, to_node: NodeId,
    to_port: PortId) -> bool
{
    let out = find_port_in(g.node_of(from_node).all_ports(), from_port);
    let inp = find_port_in(g.node_of(to_node).all_ports(), to_port);
    &&& from_node != to_node
    &&& g.has_node(from_node)
    &&& g.has_node(to_node)
    &&& out is Some
    &&& inp is Some
    &&& !out->0.is_input
    &&& inp->0.is_input
    &&& out->0.port_type == inp->0.port_type
    &&& !has_same_edge(g.edge_seq(), from_node, from_port, to_node, to_port)
}

/// On a graph whose edges between nodes form no directed cycle, `connect`
/// refuses with `Cycle` exactly when every other check passes and the target
/// node already leads to the source node over those edges. The one way
/// around it: a new random edge id that equals an existing edge's id, so
/// that the insertion replaces that edge.
pub proof fn law_connect_cycle(g: AudioGraph, h: AudioGraph, from_node: NodeId, from_port: PortId, to_node: NodeId,
    to_port: PortId, r: Result<EdgeId, GraphError>)
    requires
        !has_cycle(g.live_pairs()),
        connect_post(g, h, from_node, from_port, to_node, to_port, r),
    ensures
        r == Err::<EdgeId, GraphError>(GraphError::Cycle) ==> connect_checks_pass(g, from_node, from_port, to_node,
            to_port) && leads_to(g.live_pairs(), to_node, from_node),
        connect_checks_pass(g, from_node, from_port, to_node, to_port) && leads_to(g.live_pairs(), to_node, from_node)
            ==> r == Err::<EdgeId, GraphError>(GraphError::Cycle) || (r matches Ok(id) && has_key(g.edge_seq(), id)),
{
    if connect_checks_pass(g, from_node, from_port, to_node, to_port) {
        crate::dag::law_new_edge_cycle(g.live_pairs(), from_node, to_node);
    }
}

proof fn lemma_index_pairs_renamed(ns: Seq<(NodeId, GraphNode)>, es: Seq<(EdgeId, GraphEdge)>)
    requires
        ns.len() <= usize::MAX,
        forall|i: int| 0 <= i < es.len() ==> has_key(ns, (#[trigger] es[i]).1.from_node) && has_key(ns, es[i].1.to_node),
    ensures
        renamed(edge_pairs(es), index_pairs_from(ns, es)),
        edges_in_range(ns.len(), index_pairs_from(ns, es)),
{
    let a = edge_pairs(es);
    let b = index_pairs_from(ns, es);
    assert forall|i: int, j: int| 0 <= i < a.len() && 0 <= j < a.len() implies (#[trigger] a[i].1 == #[trigger] a[j].0 <==> b[i].1 == b[j].0) by {
        assert(has_key(ns, es[i].1.to_node));
        assert(has_key(ns, es[j].1.from_node));
        let x = key_index(ns, es[i].1.to_node);
        let y = key_index(ns, es[j].1.from_node);
        assert(0 <= x < ns.len() && ns[x].0 == es[i].1.to_node);
        assert(0 <= y < ns.len() && ns[y].0 == es[j].1.from_node);
    }
    assert forall|k: int| 0 <= k < b.len() implies (#[trigger] b[k]).0 < ns.len() && b[k].1 < ns.len() by {
        assert(has_key(ns, es[k].1.from_node));
        assert(has_key(ns, es[k].1.to_node));
    }
}

impl AudioGraph {
    /// Position of node `id` in the node map.
    fn node_index(&self, id: NodeId) -> (r: usize)
        requires
            keys_unique(self.node_seq()),
            self.has_node(id),
        ensures
            r == key_index(self.node_seq(), id),
    {
        let ghost ns = self.node_seq();
        let n = nodes_len(&self.nodes);
        let mut i: usize = 0;
        proof {
            let p = key_index(ns, id);
            assert(0 <= p < ns.len() && ns[p].0 == id);
        }
        while i < n
            invariant
                i <= n,
                n == ns.len(),
                ns == self.node_seq(),
                keys_unique(ns),
                has_key(ns, id),
                forall|j: int| 0 <= j < i ==> (#[trigger] ns[j]).0 != id,
            decreases n - i,
        {
            let kv = nodes_get_index(&self.nodes, i).unwrap();
            if *kv.0 == id {
                proof {
                    lemma_key_index_unique(ns, id, i as int);
                }
                return i;
            }
            i = i + 1;
        }
        proof {
            let p = key_index(ns, id);
            assert(ns[p].0 == id);
        }
        0
    }

    /// The edges in node-position form.
    fn index_pairs_exec(&self) -> (r: Vec<(usize, usize)>)
        requires
            self.linked(),
        ensures
            r@ == self.index_pairs(),
    {
        let ghost es = self.edge_seq();
        let ghost ns = self.node_seq();
        let n = edges_len(&self.edges);
        let mut r: Vec<(usize, usize)> = Vec::new();
        let mut i: usize = 0;
        while i < n
            invariant
                i <= n,
                n == es.len(),
                es == self.edge_seq(),
                ns == self.node_seq(),
                self.linked(),
                r@ == index_pairs_from(ns, es.take(i as int)),
            decreases n - i,
        {
            let kv = edges_get_index(&self.edges, i).unwrap();
            let e = *kv.1;
            assert(has_key(ns, es[i as int].1.from_node));
            let a = self.node_index(e.from_node);
            let b = self.node_index(e.to_node);
            r.push((a, b));
            proof {
                assert(index_pairs_from(ns, es.take(i as int + 1)) =~= index_pairs_from(ns, es.take(i as int)).push((a, b)));
            }
            i = i + 1;
        }
        assert(es.take(n as int) =~= es);
        r
    }

    /// Whether the edges contain a directed cycle (`petgraph`'s
    /// `is_cyclic_directed`).
    pub(crate) fn has_cycle_linked(&self) -> (r: bool)
        requires
            self.linked(),
            self.node_seq().len() < u32::MAX,
            self.edge_seq().len() < u32::MAX,
        ensures
            r == has_cycle(self.pairs()),
    {
        let n = nodes_len(&self.nodes);
        let ip = self.index_pairs_exec();
        proof {
            lemma_index_pairs_renamed(self.node_seq(), self.edge_seq());
            lemma_renamed_cycle(self.pairs(), self.index_pairs());
        }
        petgraph_is_cyclic(n, &ip)
    }

    /// Node ids in an order where every edge runs forward (`petgraph`'s
    /// `toposort`), or `Cycle`.
    pub(crate) fn topological_order_linked(&self) -> (r: Result<Vec<NodeId>, GraphError>)
        requires
            self.linked(),
            self.node_seq().len() < u32::MAX,
            self.edge_seq().len() < u32::MAX,
        ensures
            r is Ok <==> !has_cycle(self.pairs()),
            r is Err ==> r == Err::<Vec<NodeId>, GraphError>(GraphError::Cycle),
            r matches Ok(v) ==> topo_ids(*self) == Some(v@),
            r is Err ==> topo_ids(*self) is None,
            r matches Ok(v) ==> is_node_order(self.node_seq(), self.pairs(), v@),
    {
        let ghost ns = self.node_seq();
        let n = nodes_len(&self.nodes);
        let ip = self.index_pairs_exec();
        proof {
            lemma_index_pairs_renamed(ns, self.edge_seq());
            lemma_renamed_cycle(self.pairs(), self.index_pairs());
        }
        match petgraph_toposort(n, &ip) {
            None => Err(GraphError::Cycle),
            Some(o) => {
                let ghost om = o@;
                let mut v: Vec<NodeId> = Vec::new();
                let mut i: usize = 0;
                while i < o.len()
                    invariant
                        i <= o.len(),
                        o@ == om,
                        ns == self.node_seq(),
                        n == ns.len(),
                        is_topo_order(n as nat, ip@, om),
                        v@ == om.take(i as int).map_values(|x: usize| ns[x as int].0),
                    decreases o.len() - i,
                {
                    let x = o[i];
                    let kv = nodes_get_index(&self.nodes, x).unwrap();
                    v.push(*kv.0);
                    proof {
                        assert(om.take(i as int + 1).map_values(|x: usize| ns[x as int].0)
                            =~= om.take(i as int).map_values(|x: usize| ns[x as int].0).push(ns[x as int].0));
                    }
                    i = i + 1;
                }
                proof {
                    assert(om.take(om.len() as int) =~= om);
                    assert(v@ =~= om.map_values(|x: usize| self.node_seq()[x as int].0));
                    let pairs = self.pairs();
                    assert forall|i: int| 0 <= i < v@.len() implies has_key(ns, #[trigger] v@[i]) by {
                        assert(om[i] < n);
                        assert(v@[i] == ns[om[i] as int].0);
                    }
                    assert forall|i: int, j: int| 0 <= i < v@.len() && 0 <= j < v@.len() && i != j implies v@[i] != v@[j] by {
                        assert(om[i] < n && om[j] < n);
                        assert(om[i] != om[j]);
                        assert(v@[i] == ns[om[i] as int].0);
                        assert(v@[j] == ns[om[j] as int].0);
                    }
                    assert forall|k: int| 0 <= k < pairs.len() implies runs_forward(v@, #[trigger] pairs[k]) by {
                        let ipk = ip@[k];
                        let (a, b) = choose|a: int, b: int| 0 <= a < b < n && #[trigger] om[a] == ipk.0 && #[trigger] om[b] == ipk.1;
                        let e = self.edge_seq()[k].1;
                        assert(has_key(ns, e.from_node) && has_key(ns, e.to_node));
                        let fi = key_index(ns, e.from_node);
                        let ti = key_index(ns, e.to_node);
                        assert(ns[fi].0 == e.from_node && ns[ti].0 == e.to_node);
                        assert(v@[a] == ns[om[a] as int].0);
                        assert(v@[b] == ns[om[b] as int].0);
                    }
                }
                Ok(v)
            }
        }
    }

    /// Wire output port `from_port` of `from_node` to input port `to_port`
    /// of `to_node` under a fresh edge id (see `connect_post`).
    pub fn connect(&mut self, from_node: NodeId, from_port: PortId, to_node: NodeId, to_port: PortId)
        -> (r: Result<EdgeId, GraphError>)
        requires
            old(self).node_seq().len() < u32::MAX,
            old(self).edge_seq().len() + 1 < u32::MAX,
        ensures
            old(self).wf() ==> final(self).wf(),
            old(self).distinct_keys() ==> final(self).distinct_keys(),
            connect_post(*old(self), *final(self), from_node, from_port, to_node, to_port, r),
    {
        if from_node == to_node {
            return Err(GraphError::SelfConnection);
        }
        let from = match nodes_get(&self.nodes, from_node) {
            Some(n) => n,
            None => return Err(GraphError::NodeNotFound(id_to_string(from_node))),
        };
        let to = match nodes_get(&self.nodes, to_node) {
            Some(n) => n,
            None => return Err(GraphError::NodeNotFound(id_to_string(to_node))),
        };
        proof {
            let ns = self.node_seq();
            let a = key_index(ns, from_node);
            let b = key_index(ns, to_node);
            assert(0 <= a < ns.len() && ns[a].0 == from_node);
            assert(0 <= b < ns.len() && ns[b].0 == to_node);
        }
        let out = from.find_port(from_port);
        let inp = to.find_port(to_port);
        proof {
            let fa = from.all_ports();
            if out is None {
                lemma_find_port_in(fa, from_port, fa.len() as int);
            } else {
                let i = choose|i: int| 0 <= i < fa.len() && fa[i] == *out->0 && out->0.id == from_port
                    && forall|j: int| 0 <= j < i ==> (#[trigger] fa[j]).id != from_port;
                lemma_find_port_in(fa, from_port, i);
            }
            let ta = to.all_ports();
            if inp is None {
                lemma_find_port_in(ta, to_port, ta.len() as int);
            } else {
                let i = choose|i: int| 0 <= i < ta.len() && ta[i] == *inp->0 && inp->0.id == to_port
                    && forall|j: int| 0 <= j < i ==> (#[trigger] ta[j]).id != to_port;
                lemma_find_port_in(ta, to_port, i);
            }
        }
        let (out, inp) = match (out, inp) {
            (Some(o), Some(i)) => (o, i),
            _ => return Err(GraphError::PortNotFound),
        };
        if out.is_input || !inp.is_input {
            return Err(GraphError::DirectionMismatch);
        }
        if out.port_type != inp.port_type {
            return Err(GraphError::TypeMismatch { from: out.port_type, to: inp.port_type });
        }
        let ghost es = self.edge_seq();
        let n = edges_len(&self.edges);
        let mut i: usize = 0;
        #[verifier::loop_isolation(false)]
        while i < n
            invariant
                i <= n,
                n == es.len(),
                es == self.edge_seq(),
                forall|j: int| 0 <= j < i ==> !((#[trigger] es[j]).1.from_node == from_node && es[j].1.from_port == from_port
                    && es[j].1.to_node == to_node && es[j].1.to_port == to_port),
            decreases n - i,
        {
            let kv = edges_get_index(&self.edges, i).unwrap();
            let e = kv.1;
            if e.from_node == from_node && e.from_port == from_port && e.to_node == to_node && e.to_port == to_port {
                return Err(GraphError::DuplicateEdge);
            }
            i = i + 1;
        }
        let ghost g0 = *self;
        let id = new_id();
        let edge = GraphEdge { id, from_node, from_port, to_node, to_port };
        edges_insert(&mut self.edges, id, edge);
        proof {
            lemma_insert_live_pairs(self.node_seq(), es, id, edge);
            lemma_insert_keeps_unique(es, id, edge);
            if g0.linked() {
                let t = self.edge_seq();
                assert forall|i: int| 0 <= i < t.len() implies (#[trigger] t[i]).1.id == t[i].0
                    && has_key(self.node_seq(), t[i].1.from_node) && has_key(self.node_seq(), t[i].1.to_node) by {
                    if has_key(es, id) && i == key_index(es, id) {
                    } else if i < es.len() {
                        assert(t[i] == es[i]);
                    }
                }
            }
        }
        let cyclic = self.has_cycle();
        proof {
            if cyclic {
                lemma_cycle_within(self.live_pairs(), g0.live_pairs().push((from_node, to_node)));
            }
        }
        if cyclic {
            edges_shift_remove(&mut self.edges, id);
            proof {
                let t = insert_entry(es, id, edge);
                lemma_insert_keeps_unique(es, id, edge);
                lemma_remove_keeps_unique(t, id);
                if g0.linked() {
                    let u = self.edge_seq();
                    assert forall|i: int| 0 <= i < u.len() implies (#[trigger] u[i]).1.id == u[i].0
                        && has_key(self.node_seq(), u[i].1.from_node) && has_key(self.node_seq(), u[i].1.to_node) by {
                        let p = key_index(t, id);
                        assert(0 <= p < t.len() && t[p].0 == id);
                        if i < p {
                            assert(u[i] == t[i]);
                        } else {
                            assert(u[i] == t[i + 1]);
                        }
                    }
                    lemma_insert_remove_within(es, id, edge);
                    if has_cycle(self.pairs()) {
                        lemma_cycle_within(self.pairs(), g0.pairs());
                    }
                }
                assert(self.edge_seq() == remove_entry(insert_entry(g0.edge_seq(), id,
                    new_edge(id, from_node, from_port, to_node, to_port)), id));
            }
            return Err(GraphError::Cycle);
        }
        proof {
            if g0.linked() {
                lemma_linked_live_pairs(*self);
            }
        }
        Ok(id)
    }
}


/// Entries of a per-node latency map, in order.
pub uninterp spec fn latency_entries(m: IndexMap<NodeId, u32>) -> Seq<(NodeId, u32)>;

/// `IndexMap::new` for a latency map: an empty map.
#[verifier::external_body]
pub(crate) fn latency_new() -> (m: IndexMap<NodeId, u32>)
    ensures
        latency_entries(m) == Seq::<(NodeId, u32)>::empty(),
{
    IndexMap::new()
}

/// `IndexMap::insert` on a latency map (see `nodes_insert`).
#[verifier::external_body]
pub(crate) fn latency_insert(m: &mut IndexMap<NodeId, u32>, k: NodeId, v: u32) -> (r: Option<u32>)
    ensures
        latency_entries(*final(m)) == insert_entry(latency_entries(*old(m)), k, v),
        r == value_of(latency_entries(*old(m)), k),
{
    m.insert(k, v)
}

/// `IndexMap::get` on a latency map, the value copied out.
#[verifier::external_body]
pub(crate) fn latency_get(m: &IndexMap<NodeId, u32>, k: NodeId) -> (r: Option<u32>)
    ensures
        r == value_of(latency_entries(*m), k),
{
    m.get(&k).copied()
}

/// Value under `k`, or 0.
pub open spec fn value_or_zero(arr: Seq<(NodeId, u32)>, k: NodeId) -> u32 {
    match value_of(arr, k) {
        Some(v) => v,
        None => 0,
    }
}

/// Largest `arr` value over the sources of the first `j` edges that end at
/// `node` (0 when there are none; sources without a value count as 0).
pub open spec fn incoming_max(es: Seq<(EdgeId, GraphEdge)>, arr: Seq<(NodeId, u32)>, node: NodeId, j: int) -> u32
    decreases j,
{
    if j <= 0 {
        0
    } else {
        let prev = incoming_max(es, arr, node, j - 1);
        let e = es[j - 1].1;
        if e.to_node == node {
            let up = value_or_zero(arr, e.from_node);
            if up > prev { up } else { prev }
        } else {
            prev
        }
    }
}

/// Declared latency of node `id` (0 when absent).
pub open spec fn node_latency(g: AudioGraph, id: NodeId) -> u32 {
    if g.has_node(id) { g.node_of(id).latency_samples } else { 0 }
}

/// Arrival latency of every node among the first `k` of `order`: the
/// largest arrival among its upstream nodes plus its own latency (saturating).
pub open spec fn arrivals(g: AudioGraph, order: Seq<NodeId>, k: int) -> Seq<(NodeId, u32)>
    decreases k,
{
    if k <= 0 {
        Seq::empty()
    } else {
        let arr = arrivals(g, order, k - 1);
        let input = incoming_max(g.edge_seq(), arr, order[k - 1], g.edge_seq().len() as int);
        insert_entry(arr, order[k - 1], input.saturating_add(node_latency(g, order[k - 1])))
    }
}

/// The from port of `e` is an audio port of its node in `g`.
pub open spec fn from_audio(g: AudioGraph, e: GraphEdge) -> bool {
    &&& g.has_node(e.from_node)
    &&& find_port_in(g.node_of(e.from_node).all_ports(), e.from_port) matches Some(p)
    &&& p.port_type == PortType::Audio
}

/// Node `id` is a master output of `g`.
pub open spec fn is_master(g: AudioGraph, id: NodeId) -> bool {
    g.has_node(id) && g.node_of(id).kind is MasterOutput
}

/// Arrival at the last master output among the first `k` of `order` (0 if none).
pub open spec fn master_latency(g: AudioGraph, order: Seq<NodeId>, k: int) -> u32
    decreases k,
{
    if k <= 0 {
        0
    } else if is_master(g, order[k - 1]) {
        value_or_zero(arrivals(g, order, k), order[k - 1])
    } else {
        master_latency(g, order, k - 1)
    }
}

/// The node order `topological_order` yields (`None` on a cycle).
pub open spec fn topo_ids(g: AudioGraph) -> Option<Seq<NodeId>> {
    match toposort_of(g.node_seq().len(), g.index_pairs()) {
        Some(o) => Some(o.map_values(|x: usize| g.node_seq()[x as int].0)),
        None => None,
    }
}

/// `x` clamped to the `u32` range from above.
pub open spec fn clamp_u32(x: int) -> int {
    if x > u32::MAX { u32::MAX as int } else { x }
}

proof fn lemma_incoming_max(es: Seq<(EdgeId, GraphEdge)>, arr: Seq<(NodeId, u32)>, node: NodeId, j: int)
    requires
        0 <= j <= es.len(),
    ensures
        forall|i: int| 0 <= i < j && (#[trigger] es[i]).1.to_node == node
            ==> value_or_zero(arr, es[i].1.from_node) <= incoming_max(es, arr, node, j),
        incoming_max(es, arr, node, j) == 0 || exists|i: int| 0 <= i < j && (#[trigger] es[i]).1.to_node == node
            && incoming_max(es, arr, node, j) == value_or_zero(arr, es[i].1.from_node),
    decreases j,
{
    if j > 0 {
        lemma_incoming_max(es, arr, node, j - 1);
        let prev = incoming_max(es, arr, node, j - 1);
        let cur = incoming_max(es, arr, node, j);
        if cur != 0 && cur != prev {
            assert(es[j - 1].1.to_node == node && cur == value_or_zero(arr, es[j - 1].1.from_node));
        }
    }
}

/// Latencies add up along the signal path: when node `order[k - 1]` is
/// reached, its arrival latency is its own declared latency plus the largest
/// arrival among the nodes that feed it (0 when none does), clamped to the
/// `u32` range. So it is at least the arrival of each feeding node plus its
/// own latency, and a chain of nodes accumulates the sum of their latencies.
pub proof fn law_arrival_adds_latency(g: AudioGraph, order: Seq<NodeId>, k: int)
    requires
        1 <= k <= order.len(),
    ensures
        ({
            let a = value_or_zero(arrivals(g, order, k), order[k - 1]) as int;
            let up = arrivals(g, order, k - 1);
            let lat = node_latency(g, order[k - 1]) as int;
            let es = g.edge_seq();
            &&& forall|i: int| 0 <= i < es.len() && (#[trigger] es[i]).1.to_node == order[k - 1]
                ==> a >= clamp_u32(value_or_zero(up, es[i].1.from_node) + lat)
            &&& a >= lat
            &&& (a == clamp_u32(lat) || exists|i: int| 0 <= i < es.len() && (#[trigger] es[i]).1.to_node == order[k - 1]
                && a == clamp_u32(value_or_zero(up, es[i].1.from_node) + lat))
        }),
{
    let up = arrivals(g, order, k - 1);
    let es = g.edge_seq();
    let node = order[k - 1];
    let lat = node_latency(g, node);
    let input = incoming_max(es, up, node, es.len() as int);
    lemma_arrivals_unique(g, order, k - 1);
    lemma_insert_keeps_unique(up, node, input.saturating_add(lat));
    assert(value_or_zero(arrivals(g, order, k), node) == input.saturating_add(lat));
    lemma_incoming_max(es, up, node, es.len() as int);
}

/// The latency reported among the first `k` nodes of `order` is the arrival
/// at the last master output among them, as it stood when that master was
/// reached; 0 when none of them is a master output.
pub proof fn law_master_latency(g: AudioGraph, order: Seq<NodeId>, k: int)
    requires
        0 <= k <= order.len(),
    ensures
        (forall|i: int| 0 <= i < k ==> !is_master(g, #[trigger] order[i])) ==> master_latency(g, order, k) == 0,
        forall|j: int| 0 <= j < k && is_master(g, #[trigger] order[j])
            && (forall|i: int| j < i < k ==> !is_master(g, #[trigger] order[i]))
            ==> master_latency(g, order, k) == value_or_zero(arrivals(g, order, j + 1), order[j]),
    decreases k,
{
    if k > 0 {
        law_master_latency(g, order, k - 1);
    }
}

/// Total latency to the master output, as `compute_latencies` returns it.
pub open spec fn total_latency(g: AudioGraph) -> u32 {
    match topo_ids(g) {
        Some(o) => master_latency(g, o, o.len() as int),
        None => 0,
    }
}

impl AudioGraph {
    /// Largest arrival over edges into `node` (the inner step of latency
    /// propagation).
    fn incoming_latency(&self, arr: &IndexMap<NodeId, u32>, node: NodeId) -> (r: u32)
        ensures
            r == incoming_max(self.edge_seq(), latency_entries(*arr), node, self.edge_seq().len() as int),
    {
        let ghost es = self.edge_seq();
        let n = edges_len(&self.edges);
        let mut input: u32 = 0;
        let mut j: usize = 0;
        while j < n
            invariant
                j <= n,
                n == es.len(),
                es == self.edge_seq(),
                input == incoming_max(es, latency_entries(*arr), node, j as int),
            decreases n - j,
        {
            let e = *edges_get_index(&self.edges, j).unwrap().1;
            if e.to_node == node {
                let up = match latency_get(arr, e.from_node) {
                    Some(v) => v,
                    None => 0,
                };
                if up > input {
                    input = up;
                }
            }
            j = j + 1;
        }
        input
    }

    fn latency_of(&self, id: NodeId) -> (r: u32)
        ensures
            r == node_latency(*self, id),
    {
        match nodes_get(&self.nodes, id) {
            Some(n) => n.latency_samples,
            None => 0,
        }
    }

    fn is_master_exec(&self, id: NodeId) -> (r: bool)
        ensures
            r == is_master(*self, id),
    {
        match nodes_get(&self.nodes, id) {
            Some(n) => n.kind.allows_input_fan_in(),
            None => false,
        }
    }

    /// Propagate latency through the graph; returns the total latency to the
    /// master output (the arrival at the last master in topological order).
    /// Edges to missing nodes carry nothing: the total is that of the
    /// graph's normalized copy, which is the graph itself when it is linked.
    pub fn compute_latencies(&mut self) -> (r: u32)
        requires
            old(self).node_seq().len() < u32::MAX,
            old(self).edge_seq().len() < u32::MAX,
        ensures
            *final(self) == *old(self),
            exists|h: AudioGraph| #[trigger] normalized_from(*old(self), h) && r == total_latency(h),
            old(self).linked() ==> r == total_latency(*old(self)),
    {
        if self.is_linked() {
            proof {
                lemma_linked_normalized(*self);
            }
            self.latency_total()
        } else {
            let h = self.normalized();
            proof {
                lemma_normalized_shape(*self, h);
            }
            h.latency_total()
        }
    }

    /// Arrival latency of each node of `order` (see `arrivals`).
    pub(crate) fn arrival_map(&self, order: &Vec<NodeId>) -> (m: IndexMap<NodeId, u32>)
        ensures
            latency_entries(m) == arrivals(*self, order@, order@.len() as int),
    {
        let mut arrival = latency_new();
        let mut k: usize = 0;
        while k < order.len()
            invariant
                k <= order.len(),
                latency_entries(arrival) == arrivals(*self, order@, k as int),
            decreases order.len() - k,
        {
            let node_id = order[k];
            let input = self.incoming_latency(&arrival, node_id);
            let out = input.saturating_add(self.latency_of(node_id));
            latency_insert(&mut arrival, node_id, out);
            k = k + 1;
        }
        arrival
    }

    /// Whether the from port of `e` is an audio port of its node.
    pub(crate) fn from_is_audio(&self, e: &GraphEdge) -> (r: bool)
        ensures
            r == from_audio(*self, *e),
    {
        match self.node(e.from_node) {
            None => false,
            Some(n) => {
                let p = n.find_port(e.from_port);
                proof {
                    let all = n.all_ports();
                    match p {
                        None => lemma_find_port_in(all, e.from_port, all.len() as int),
                        Some(q) => {
                            let i = choose|i: int| 0 <= i < all.len() && all[i] == *q && q.id == e.from_port
                                && forall|j: int| 0 <= j < i ==> (#[trigger] all[j]).id != e.from_port;
                            lemma_find_port_in(all, e.from_port, i);
                        },
                    }
                }
                match p {
                    None => false,
                    Some(q) => q.port_type == PortType::Audio,
                }
            },
        }
    }

    /// The total latency to the master output (`compute_latencies`).
    pub(crate) fn latency_total(&self) -> (r: u32)
        requires
            self.linked(),
            self.node_seq().len() < u32::MAX,
            self.edge_seq().len() < u32::MAX,
        ensures
            r == total_latency(*self),
    {
        let order = match self.topological_order_linked() {
            Ok(o) => o,
            Err(_) => return 0,
        };
        let ghost g = *self;
        let mut arrival = latency_new();
        let mut max_to_master: u32 = 0;
        let mut k: usize = 0;
        while k < order.len()
            invariant
                k <= order.len(),
                *self == g,
                latency_entries(arrival) == arrivals(g, order@, k as int),
                max_to_master == master_latency(g, order@, k as int),
            decreases order.len() - k,
        {
            let node_id = order[k];
            let input = self.incoming_latency(&arrival, node_id);
            let out = input.saturating_add(self.latency_of(node_id));
            latency_insert(&mut arrival, node_id, out);
            if self.is_master_exec(node_id) {
                max_to_master = out;
                proof {
                    lemma_arrivals_unique(g, order@, k as int);
                    lemma_value_of_insert(arrivals(g, order@, k as int), node_id, out);
                }
            }
            k = k + 1;
        }
        max_to_master
    }
}


/// Id of the first port in `ps` of the given type (and, for audio, channel).
pub open spec fn first_port(ps: Seq<Port>, t: PortType, ch: Option<u32>) -> Option<PortId>
    decreases ps.len(),
{
    if ps.len() == 0 {
        None
    } else if ps[0].port_type == t && (ch matches Some(c) ==> ps[0].channel == c) {
        Some(ps[0].id)
    } else {
        first_port(ps.drop_first(), t, ch)
    }
}

fn first_port_exec(ps: &Vec<Port>, t: PortType, ch: Option<u32>) -> (r: Option<PortId>)
    ensures
        r == first_port(ps@, t, ch),
{
    let mut i: usize = 0;
    assert(ps@.skip(0) =~= ps@);
    while i < ps.len()
        invariant
            i <= ps.len(),
            first_port(ps@, t, ch) == first_port(ps@.skip(i as int), t, ch),
        decreases ps.len() - i,
    {
        let p = &ps[i];
        let matches_ch = match ch {
            Some(c) => p.channel == c,
            None => true,
        };
        assert(ps@.skip(i as int)[0] == ps@[i as int]);
        if p.port_type == t && matches_ch {
            return Some(p.id);
        }
        assert(ps@.skip(i as int).drop_first() =~= ps@.skip(i as int + 1));
        i = i + 1;
    }
    assert(ps@.skip(i as int).len() == 0);
    None
}

/// What `connect_stereo` does, given the graph before (`g`) and after (`h`).
pub open spec fn connect_stereo_post(g: AudioGraph, h: AudioGraph, from: NodeId, to: NodeId,
    r: Result<(EdgeId, EdgeId), GraphError>) -> bool
{
    let fl = first_port(g.node_of(from).outputs@, PortType::Audio, Some(0u32));
    let fr = first_port(g.node_of(from).outputs@, PortType::Audio, Some(1u32));
    let tl = first_port(g.node_of(to).inputs@, PortType::Audio, Some(0u32));
    let tr = first_port(g.node_of(to).inputs@, PortType::Audio, Some(1u32));
    if !g.has_node(from) {
        (r matches Err(GraphError::NodeNotFound(s)) && s@ == uuid_text(from)) && h == g
    } else if !g.has_node(to) {
        (r matches Err(GraphError::NodeNotFound(s)) && s@ == uuid_text(to)) && h == g
    } else if fl is None || fr is None || tl is None || tr is None {
        r == Err::<(EdgeId, EdgeId), GraphError>(GraphError::PortNotFound) && h == g
    } else {
        exists|mid: AudioGraph, r0: Result<EdgeId, GraphError>| #[trigger] connect_post(g, mid, from, fl->0, to, tl->0, r0)
            && match r0 {
                Err(e) => r == Err::<(EdgeId, EdgeId), GraphError>(e) && h == mid,
                Ok(e0) => exists|r1: Result<EdgeId, GraphError>| #[trigger] connect_post(mid, h, from, fr->0, to, tr->0, r1)
                    && match r1 {
                        Err(e) => r == Err::<(EdgeId, EdgeId), GraphError>(e),
                        Ok(e1) => r == Ok::<(EdgeId, EdgeId), GraphError>((e0, e1)),
                    },
            }
    }
}

impl AudioGraph {
    /// Wire the left/right audio outputs of `from` to the left/right audio
    /// inputs of `to`.
    pub fn connect_stereo(&mut self, from: NodeId, to: NodeId) -> (r: Result<(EdgeId, EdgeId), GraphError>)
        requires
            old(self).node_seq().len() < u32::MAX,
            old(self).edge_seq().len() + 2 < u32::MAX,
        ensures
            old(self).wf() ==> final(self).wf(),
            old(self).distinct_keys() ==> final(self).distinct_keys(),
            connect_stereo_post(*old(self), *final(self), from, to, r),
    {
        let ghost g = *self;
        let from_node = match nodes_get(&self.nodes, from) {
            Some(n) => n,
            None => return Err(GraphError::NodeNotFound(id_to_string(from))),
        };
        let to_node = match nodes_get(&self.nodes, to) {
            Some(n) => n,
            None => return Err(GraphError::NodeNotFound(id_to_string(to))),
        };
        proof {
            let ns = self.node_seq();
            let a = key_index(ns, from);
            let b = key_index(ns, to);
            assert(0 <= a < ns.len() && ns[a].0 == from);
            assert(0 <= b < ns.len() && ns[b].0 == to);
        }
        let fl = first_port_exec(&from_node.outputs, PortType::Audio, Some(0));
        let fr = first_port_exec(&from_node.outputs, PortType::Audio, Some(1));
        let tl = first_port_exec(&to_node.inputs, PortType::Audio, Some(0));
        let tr = first_port_exec(&to_node.inputs, PortType::Audio, Some(1));
        let (fl, fr, tl, tr) = match (fl, fr, tl, tr) {
            (Some(a), Some(b), Some(c), Some(d)) => (a, b, c, d),
            _ => return Err(GraphError::PortNotFound),
        };
        let r0 = self.connect(from, fl, to, tl);
        let ghost mid = *self;
        let e0 = match r0 {
            Ok(e) => e,
            Err(e) => {
                assert(connect_post(g, mid, from, fl, to, tl, r0));
                return Err(e);
            }
        };
        assert(mid.edge_seq().len() <= g.edge_seq().len() + 1) by {
            lemma_insert_len(g.edge_seq(), e0, new_edge(e0, from, fl, to, tl));
        }
        let r1 = self.connect(from, fr, to, tr);
        assert(connect_post(g, mid, from, fl, to, tl, r0));
        assert(connect_post(mid, *self, from, fr, to, tr, r1));
        match r1 {
            Ok(e1) => Ok((e0, e1)),
            Err(e) => Err(e),
        }
    }

    /// Wire the first MIDI output of `from` to the first MIDI input of `to`.
    pub fn connect_midi(&mut self, from: NodeId, to: NodeId) -> (r: Result<EdgeId, GraphError>)
        requires
            old(self).node_seq().len() < u32::MAX,
            old(self).edge_seq().len() + 1 < u32::MAX,
        ensures
            old(self).wf() ==> final(self).wf(),
            old(self).distinct_keys() ==> final(self).distinct_keys(),
            ({
                let fp = if old(self).has_node(from) { first_port(old(self).node_of(from).outputs@, PortType::Midi, None) } else { None };
                let tp = if old(self).has_node(to) { first_port(old(self).node_of(to).inputs@, PortType::Midi, None) } else { None };
                if fp is None || tp is None {
                    r == Err::<EdgeId, GraphError>(GraphError::PortNotFound) && *final(self) == *old(self)
                } else {
                    connect_post(*old(self), *final(self), from, fp->0, to, tp->0, r)
                }
            }),
    {
        let fp = match nodes_get(&self.nodes, from) {
            Some(n) => first_port_exec(&n.outputs, PortType::Midi, None),
            None => None,
        };
        let tp = match nodes_get(&self.nodes, to) {
            Some(n) => first_port_exec(&n.inputs, PortType::Midi, None),
            None => None,
        };
        proof {
            let ns = self.node_seq();
            if has_key(ns, from) {
                let a = key_index(ns, from);
                assert(0 <= a < ns.len() && ns[a].0 == from);
            }
            if has_key(ns, to) {
                let b = key_index(ns, to);
                assert(0 <= b < ns.len() && ns[b].0 == to);
            }
        }
        match (fp, tp) {
            (Some(a), Some(b)) => self.connect(from, a, to, b),
            _ => Err(GraphError::PortNotFound),
        }
    }
}

pub(crate) proof fn lemma_insert_len<V>(s: Seq<(u128, V)>, k: u128, v: V)
    ensures
        insert_entry(s, k, v).len() <= s.len() + 1,
        remove_entry(insert_entry(s, k, v), k).len() <= s.len() + 1,
{
}

proof fn lemma_arrivals_unique(g: AudioGraph, order: Seq<NodeId>, k: int)
    ensures
        keys_unique(arrivals(g, order, k)),
    decreases k,
{
    if k > 0 {
        lemma_arrivals_unique(g, order, k - 1);
        let arr = arrivals(g, order, k - 1);
        let input = incoming_max(g.edge_seq(), arr, order[k - 1], g.edge_seq().len() as int);
        lemma_insert_keeps_unique(arr, order[k - 1], input.saturating_add(node_latency(g, order[k - 1])));
    }
}

proof fn lemma_value_of_insert<V>(s: Seq<(u128, V)>, k: u128, v: V)
    requires
        keys_unique(s),
    ensures
        value_of(insert_entry(s, k, v), k) == Some(v),
{
    lemma_insert_keeps_unique(s, k, v);
}

proof fn lemma_insert_remove_within(es: Seq<(EdgeId, GraphEdge)>, k: EdgeId, e: GraphEdge)
    requires
        keys_unique(es),
    ensures
        pairs_within(edge_pairs(remove_entry(insert_entry(es, k, e), k)), edge_pairs(es)),
{
    let t = insert_entry(es, k, e);
    lemma_insert_keeps_unique(es, k, e);
    let u = remove_entry(t, k);
    if has_key(es, k) {
        let p = key_index(es, k);
        lemma_key_index_unique(t, k, p);
        assert(u =~= es.remove(p));
        assert forall|i: int| 0 <= i < edge_pairs(u).len() implies edge_pairs(es).contains(#[trigger] edge_pairs(u)[i]) by {
            if i < p {
                assert(edge_pairs(es)[i] == edge_pairs(u)[i]);
            } else {
                assert(edge_pairs(es)[i + 1] == edge_pairs(u)[i]);
            }
        }
    } else {
        assert(t[es.len() as int].0 == k);
        lemma_key_index_unique(t, k, es.len() as int);
        assert(u =~= es);
    }
}

impl AudioGraph {
    /// Drop every edge leaving `node`.
    pub(crate) fn remove_edges_from(&mut self, node: NodeId)
        requires
            old(self).distinct_keys(),
        ensures
            final(self).distinct_keys(),
            old(self).wf() ==> final(self).wf(),
            final(self).edge_seq() == retain_edges(old(self).edge_seq(), edge_filter(EdgeFilter::NotFrom(node))),
            final(self).node_seq() == old(self).node_seq(),
            final(self).user_arranged == old(self).user_arranged,
    {
        let ghost old_g = *self;
        let f = EdgeFilter::NotFrom(node);
        let kept = self.filtered_edges(&f);
        self.edges = kept;
        proof {
            lemma_retain_edges(old_g.edge_seq(), edge_filter(f));
            if old_g.wf() {
            let es = self.edge_seq();
            assert forall|i: int| 0 <= i < es.len() implies has_key(self.node_seq(), (#[trigger] es[i]).1.from_node)
                && has_key(self.node_seq(), es[i].1.to_node) by {
                let j = choose|j: int| 0 <= j < old_g.edge_seq().len() && #[trigger] old_g.edge_seq()[j] == #[trigger] es[i];
                assert(has_key(old_g.node_seq(), old_g.edge_seq()[j].1.from_node));
            }
            Self::lemma_filtered_keeps_wf(old_g, *self, f);
            }
        }
    }

    /// Node `id`, if present.
    pub fn node(&self, id: NodeId) -> (r: Option<&GraphNode>)
        ensures
            r is Some <==> self.has_node(id),
            r matches Some(n) ==> Some(*n) == value_of(self.node_seq(), id),
    {
        nodes_get(&self.nodes, id)
    }

    /// Whether the edges between nodes of the graph contain a directed cycle
    /// (`petgraph`'s `is_cyclic_directed`); edges to missing nodes are
    /// passed over.
    pub fn has_cycle(&self) -> (r: bool)
        requires
            self.node_seq().len() < u32::MAX,
            self.edge_seq().len() < u32::MAX,
        ensures
            r == has_cycle(self.live_pairs()),
    {
        let h = self.normalized();
        proof {
            lemma_normalized_shape(*self, h);
        }
        h.has_cycle_linked()
    }

    /// Node ids in an order where every edge between two nodes of the graph
    /// runs forward (`petgraph`'s `toposort`; edges to missing nodes are
    /// passed over), or `Cycle`.
    pub fn topological_order(&self) -> (r: Result<Vec<NodeId>, GraphError>)
        requires
            self.node_seq().len() < u32::MAX,
            self.edge_seq().len() < u32::MAX,
        ensures
            r is Ok <==> !has_cycle(self.live_pairs()),
            r is Err ==> r == Err::<Vec<NodeId>, GraphError>(GraphError::Cycle),
            r matches Ok(v) ==> is_node_order(self.node_seq(), self.live_pairs(), v@),
    {
        let h = self.normalized();
        proof {
            lemma_normalized_shape(*self, h);
        }
        h.topological_order_linked()
    }

    /// Each key occurs once in each map: `IndexMap` keeps its keys distinct,
    /// as its key listing shows.
    pub fn keys_are_distinct(&self)
        ensures
            self.distinct_keys(),
    {
        let ghost ns = self.node_seq();
        let ghost es = self.edge_seq();
        let nk = nodes_keys(&self.nodes);
        let ek = edges_keys(&self.edges);
        proof {
            assert forall|i: int, j: int| 0 <= i < ns.len() && 0 <= j < ns.len() && i != j implies ns[i].0 != ns[j].0 by {
                assert(nk@[i] == ns[i].0 && nk@[j] == ns[j].0);
            }
            assert forall|i: int, j: int| 0 <= i < es.len() && 0 <= j < es.len() && i != j implies es[i].0 != es[j].0 by {
                assert(ek@[i] == es[i].0 && ek@[j] == es[j].0);
            }
        }
    }

    /// A copy of the graph with its edges to missing nodes left out and
    /// every node and edge id set to its key; this copy is linked.
    pub fn normalized(&self) -> (h: AudioGraph)
        ensures
            normalized_from(*self, h),
    {
        let ghost ns = self.node_seq();
        let ghost es = self.edge_seq();
        let nk = nodes_keys(&self.nodes);
        let ek = edges_keys(&self.edges);
        proof {
            assert forall|i: int, j: int| 0 <= i < ns.len() && 0 <= j < ns.len() && i != j implies ns[i].0 != ns[j].0 by {
                assert(nk@[i] == ns[i].0 && nk@[j] == ns[j].0);
            }
            assert forall|i: int, j: int| 0 <= i < es.len() && 0 <= j < es.len() && i != j implies es[i].0 != es[j].0 by {
                assert(ek@[i] == es[i].0 && ek@[j] == es[j].0);
            }
        }
        let n = nodes_len(&self.nodes);
        let mut nodes = nodes_new();
        let mut i: usize = 0;
        while i < n
            invariant
                i <= n,
                n == ns.len(),
                ns == self.node_seq(),
                keys_unique(ns),
                node_entries(nodes).len() == i,
                map_vals(node_entries(nodes), node_view_fn()) == keyed_views(ns.take(i as int)),
                forall|a: int| 0 <= a < i ==> (#[trigger] node_entries(nodes)[a]).0 == ns[a].0
                    && node_entries(nodes)[a].1.id == ns[a].0,
            decreases n - i,
        {
            let (k, node) = nodes_get_index(&self.nodes, i).unwrap();
            let k = *k;
            let mut c = node.duplicate();
            c.id = k;
            let ghost before = node_entries(nodes);
            proof {
                if has_key(before, k) {
                    let a = choose|a: int| 0 <= a < before.len() && #[trigger] before[a].0 == k;
                    assert(ns[a].0 == ns[i as int].0);
                }
            }
            nodes_insert(&mut nodes, k, c);
            proof {
                assert(node_entries(nodes) == before.push((k, c)));
                assert(c@ == GraphNodeView { id: k, ..ns[i as int].1@ });
                assert(map_vals(node_entries(nodes), node_view_fn()) =~= map_vals(before, node_view_fn()).push((k, c@)));
                assert(ns.take(i + 1) =~= ns.take(i as int).push(ns[i as int]));
                assert(keyed_views(ns.take(i + 1)) =~= keyed_views(ns.take(i as int)).push((k, c@)));
                assert(map_vals(node_entries(nodes), node_view_fn()) =~= keyed_views(ns.take(i + 1)));
            }
            i = i + 1;
        }
        let m = edges_len(&self.edges);
        let mut edges = edges_new();
        let mut j: usize = 0;
        while j < m
            invariant
                j <= m,
                m == es.len(),
                es == self.edge_seq(),
                ns == self.node_seq(),
                keys_unique(es),
                keys_unique(edge_entries(edges)),
                edge_entries(edges) == keyed_live_edges(ns, es.take(j as int)),
            decreases m - j,
        {
            let (k, e) = edges_get_index(&self.edges, j).unwrap();
            let (k, e) = (*k, *e);
            let ghost before = edge_entries(edges);
            let live = nodes_get(&self.nodes, e.from_node).is_some() && nodes_get(&self.nodes, e.to_node).is_some();
            proof {
                let t = es.take(j + 1);
                assert(t.drop_last() =~= es.take(j as int));
                assert(t.last() == es[j as int]);
                t.drop_last().lemma_filter_push(t.last(), edge_live(ns));
                assert(t =~= t.drop_last().push(t.last()));
            }
            if live {
                proof {
                    let f = es.take(j as int).filter(edge_live(ns));
                    if has_key(before, k) {
                        let a = choose|a: int| 0 <= a < before.len() && #[trigger] before[a].0 == k;
                        assert(before[a].0 == f[a].0);
                        assert(f.contains(f[a]));
                        es.take(j as int).lemma_filter_contains_rev(edge_live(ns), f[a]);
                        let w = choose|w: int| 0 <= w < j && #[trigger] es.take(j as int)[w] == f[a];
                        assert(es[w].0 == es[j as int].0);
                    }
                    lemma_insert_keeps_unique(before, k, GraphEdge { id: k, ..e });
                }
                edges_insert(&mut edges, k, GraphEdge { id: k, ..e });
                proof {
                    assert(edge_entries(edges) =~= keyed_live_edges(ns, es.take(j + 1)));
                }
            } else {
                proof {
                    assert(edge_entries(edges) =~= keyed_live_edges(ns, es.take(j + 1)));
                }
            }
            j = j + 1;
        }
        let h = AudioGraph { nodes, edges, user_arranged: self.user_arranged };
        proof {
            assert(ns.take(n as int) =~= ns);
            assert(es.take(m as int) =~= es);
            let hn = h.node_seq();
            assert(keys_unique(hn)) by {
                assert forall|a: int, b: int| 0 <= a < hn.len() && 0 <= b < hn.len() && a != b implies hn[a].0 != hn[b].0 by {
                    assert(hn[a].0 == ns[a].0 && hn[b].0 == ns[b].0);
                }
            }
            let he = h.edge_seq();
            assert forall|a: int| 0 <= a < he.len() implies (#[trigger] he[a]).1.id == he[a].0
                && has_key(hn, he[a].1.from_node) && has_key(hn, he[a].1.to_node) by {
                let f = es.filter(edge_live(ns));
                es.lemma_filter_pred(edge_live(ns), a);
                assert(he[a].0 == f[a].0 && he[a].1.from_node == f[a].1.from_node && he[a].1.to_node == f[a].1.to_node);
                let x = key_index(ns, f[a].1.from_node);
                let y = key_index(ns, f[a].1.to_node);
                assert(hn[x].0 == ns[x].0);
                assert(hn[y].0 == ns[y].0);
            }
        }
        h
    }

    pub fn node_count(&self) -> (r: usize)
        ensures
            r == self.node_seq().len(),
    {
        nodes_len(&self.nodes)
    }

    pub fn edge_count(&self) -> (r: usize)
        ensures
            r == self.edge_seq().len(),
    {
        edges_len(&self.edges)
    }

    /// The edge at position `i`, copied out.
    pub fn edge_at(&self, i: usize) -> (r: Option<GraphEdge>)
        ensures
            r is Some <==> i < self.edge_seq().len(),
            r matches Some(e) ==> e == self.edge_seq()[i as int].1,
    {
        match edges_get_index(&self.edges, i) {
            Some(kv) => Some(*kv.1),
            None => None,
        }
    }

    /// The node at position `i`.
    pub fn node_at(&self, i: usize) -> (r: Option<&GraphNode>)
        ensures
            r is Some <==> i < self.node_seq().len(),
            r matches Some(n) ==> *n == self.node_seq()[i as int].1,
    {
        match nodes_get_index(&self.nodes, i) {
            Some(kv) => Some(kv.1),
            None => None,
        }
    }
}

/// `connect` adds at most one edge and leaves the nodes alone.
pub proof fn lemma_connect_growth(g: AudioGraph, h: AudioGraph, from_node: NodeId, from_port: PortId,
    to_node: NodeId, to_port: PortId, r: Result<EdgeId, GraphError>)
    requires
        connect_post(g, h, from_node, from_port, to_node, to_port, r),
    ensures
        h.edge_seq().len() <= g.edge_seq().len() + 1,
        h.node_seq() == g.node_seq(),
{
    if r is Err {
        if exists|id: EdgeId| h.edge_seq() == remove_entry(insert_entry(g.edge_seq(), id,
            new_edge(id, from_node, from_port, to_node, to_port)), id) {
            let id = choose|id: EdgeId| h.edge_seq() == remove_entry(insert_entry(g.edge_seq(), id,
                new_edge(id, from_node, from_port, to_node, to_port)), id);
            lemma_insert_len(g.edge_seq(), id, new_edge(id, from_node, from_port, to_node, to_port));
        }
    } else {
        let id = r->Ok_0;
        lemma_insert_len(g.edge_seq(), id, new_edge(id, from_node, from_port, to_node, to_port));
    }
}

/// `connect_midi` adds at most one edge and leaves the nodes alone.
pub proof fn lemma_connect_growth_midi(g: AudioGraph, h: AudioGraph, from: NodeId, to: NodeId, r: Result<EdgeId, GraphError>)
    requires
        ({
            let fp = if g.has_node(from) { first_port(g.node_of(from).outputs@, PortType::Midi, None) } else { None };
            let tp = if g.has_node(to) { first_port(g.node_of(to).inputs@, PortType::Midi, None) } else { None };
            if fp is None || tp is None {
                r == Err::<EdgeId, GraphError>(GraphError::PortNotFound) && h == g
            } else {
                connect_post(g, h, from, fp->0, to, tp->0, r)
            }
        }),
    ensures
        h.edge_seq().len() <= g.edge_seq().len() + 1,
        h.node_seq() == g.node_seq(),
{
    let fp = if g.has_node(from) { first_port(g.node_of(from).outputs@, PortType::Midi, None) } else { None };
    let tp = if g.has_node(to) { first_port(g.node_of(to).inputs@, PortType::Midi, None) } else { None };
    if !(fp is None || tp is None) {
        lemma_connect_growth(g, h, from, fp->0, to, tp->0, r);
    }
}

pub proof fn lemma_retain_edges_len(es: Seq<(EdgeId, GraphEdge)>, keep: spec_fn(GraphEdge) -> bool)
    ensures
        retain_edges(es, keep).len() <= es.len(),
    decreases es.len(),
{
    if es.len() > 0 {
        lemma_retain_edges_len(es.drop_last(), keep);
    }
}

} // verus!
