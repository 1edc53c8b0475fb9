//! Bringing the port lists of nodes saved by older versions up to date:
//! legacy two-input mixers grow to four stereo strips, and every port gets
//! the label the current version gives it. Port ids are kept.
use vstd::prelude::*;
use indexmap::IndexMap;
use crate::keyed::{keys_unique, value_of, insert_entry, remove_entry, lemma_value_of_after};
use crate::graph::{AudioGraph, GraphNode, GraphNodeView, NodeKind, Port, PortType, stereo_in_name, stereo_out_name,
    stereo_in_branch_name, stereo_out_branch_name, midi_in_branch_name, midi_out_branch_name, side_of,
    spec_branch_letter, node_entries, node_view_fn, nodes_get_index, nodes_insert, MIXER_STRIP_COUNT};
use crate::text::owned;

verus! {

broadcast use vstd::string::group_string_axioms;

/// How a list of ports is labelled.
#[derive(Clone, Copy)]
pub enum PortNaming {
    /// "L In" on channel 0, "R In" on any other.
    InByChannel,
    /// "L Out" on channel 0, "R Out" on any other.
    OutByChannel,
    /// By position: "L In A", "R In A", "L In B", ...
    InBranches,
    /// By position: "L Out A", "R Out A", "L Out B", ...
    OutBranches,
    /// By position: "MIDI In A", "MIDI In B", ...
    MidiInLetters,
    /// By position: "MIDI Out A", "MIDI Out B", ...
    MidiOutLetters,
    /// "MIDI In" for all.
    MidiIn,
    /// "MIDI Out" for all.
    MidiOut,
}

/// The label of the port at position `i` on `channel`.
pub open spec fn port_label(naming: PortNaming, i: int, channel: u32) -> Seq<char> {
    match naming {
        PortNaming::InByChannel => if channel == 0 { "L In"@ } else { "R In"@ },
        PortNaming::OutByChannel => if channel == 0 { "L Out"@ } else { "R Out"@ },
        PortNaming::InBranches => side_of((i % 2) as u32) + " In "@ + seq![spec_branch_letter(i / 2)],
        PortNaming::OutBranches => side_of((i % 2) as u32) + " Out "@ + seq![spec_branch_letter(i / 2)],
        PortNaming::MidiInLetters => "MIDI In "@ + seq![spec_branch_letter(i)],
        PortNaming::MidiOutLetters => "MIDI Out "@ + seq![spec_branch_letter(i)],
        PortNaming::MidiIn => "MIDI In"@,
        PortNaming::MidiOut => "MIDI Out"@,
    }
}

/// Whether the letters of a labelling reach past the alphabet of `u8`
/// characters for a list of `n` ports.
pub open spec fn labels_fit(naming: PortNaming, n: int) -> bool {
    match naming {
        PortNaming::InBranches | PortNaming::OutBranches => n <= 382,
        PortNaming::MidiInLetters | PortNaming::MidiOutLetters => n <= 191,
        _ => true,
    }
}

/// `new` is `old` with each port relabelled by `naming`.
pub open spec fn relabelled(old: Seq<Port>, new: Seq<Port>, naming: PortNaming) -> bool {
    &&& new.len() == old.len()
    &&& forall|i: int| 0 <= i < old.len() ==> {
        let (p, q) = (#[trigger] old[i], new[i]);
        &&& q.name@ == port_label(naming, i, p.channel)
        &&& q.id == p.id
        &&& q.port_type == p.port_type
        &&& q.is_input == p.is_input
        &&& q.channel == p.channel
    }
}

/// The last audio port of `ps` on channel `c`.
pub open spec fn last_audio_port(ps: Seq<Port>, c: u32) -> Option<Port>
    decreases ps.len(),
{
    if ps.len() == 0 {
        None
    } else if ps.last().port_type == PortType::Audio && ps.last().channel == c {
        Some(ps.last())
    } else {
        last_audio_port(ps.drop_last(), c)
    }
}

/// The eight inputs a legacy mixer is rebuilt with: one per channel, the
/// last old audio port of that channel (keeping its id) or a new audio
/// port, all inputs, labelled by strip.
pub open spec fn mixer_rebuilt(old: Seq<Port>, new: Seq<Port>) -> bool {
    &&& new.len() == 2 * MIXER_STRIP_COUNT
    &&& forall|j: int| 0 <= j < 2 * MIXER_STRIP_COUNT ==> {
        let q = #[trigger] new[j];
        &&& q.name@ == port_label(PortNaming::InBranches, j, j as u32)
        &&& q.is_input
        &&& q.channel == j
        &&& match last_audio_port(old, j as u32) {
            Some(p) => q.id == p.id && q.port_type == p.port_type,
            None => q.port_type == PortType::Audio,
        }
    }
}

/// Port lists of `w` are those `migrate_ports` gives the node `v`; all else
/// is kept.
pub open spec fn migrated(v: GraphNodeView, w: GraphNodeView) -> bool {
    &&& w == GraphNodeView { inputs: w.inputs, outputs: w.outputs, ..v }
    &&& match v.kind {
        NodeKind::SumMixer { .. } => {
            &&& if v.inputs.len() < 2 * MIXER_STRIP_COUNT {
                mixer_rebuilt(v.inputs, w.inputs)
            } else {
                relabelled(v.inputs, w.inputs, PortNaming::InBranches)
            }
            &&& relabelled(v.outputs, w.outputs, PortNaming::OutByChannel)
        },
        NodeKind::StereoSplitter { .. } => relabelled(v.inputs, w.inputs, PortNaming::InByChannel)
            && relabelled(v.outputs, w.outputs, PortNaming::OutBranches),
        NodeKind::MidiMixer => relabelled(v.inputs, w.inputs, PortNaming::MidiInLetters)
            && relabelled(v.outputs, w.outputs, PortNaming::MidiOut),
        NodeKind::MidiSplitter => relabelled(v.inputs, w.inputs, PortNaming::MidiIn)
            && relabelled(v.outputs, w.outputs, PortNaming::MidiOutLetters),
        NodeKind::MidiClipSource { .. } => w.inputs == v.inputs
            && relabelled(v.outputs, w.outputs, PortNaming::MidiOut),
        NodeKind::AudioClipSource { .. } => w.inputs == v.inputs
            && relabelled(v.outputs, w.outputs, PortNaming::OutByChannel),
        NodeKind::MasterOutput => relabelled(v.inputs, w.inputs, PortNaming::InByChannel)
            && w.outputs == v.outputs,
        NodeKind::GainPan { .. } | NodeKind::PluginEffect { .. } =>
            relabelled(v.inputs, w.inputs, PortNaming::InByChannel)
            && relabelled(v.outputs, w.outputs, PortNaming::OutByChannel),
        NodeKind::BuiltinSynth | NodeKind::PluginInstrument { .. } =>
            relabelled(v.inputs, w.inputs, PortNaming::MidiIn)
            && relabelled(v.outputs, w.outputs, PortNaming::OutByChannel),
    }
}

/// Port lists that agree port by port: id, name, type, direction and
/// channel.
pub open spec fn same_ports(a: Seq<Port>, b: Seq<Port>) -> bool {
    &&& a.len() == b.len()
    &&& forall|i: int| 0 <= i < a.len() ==> {
        let (p, q) = (#[trigger] a[i], b[i]);
        &&& p.id == q.id
        &&& p.name@ == q.name@
        &&& p.port_type == q.port_type
        &&& p.is_input == q.is_input
        &&& p.channel == q.channel
    }
}

proof fn lemma_relabel_twice(a: Seq<Port>, b: Seq<Port>, c: Seq<Port>, naming: PortNaming)
    requires
        relabelled(a, b, naming),
        relabelled(b, c, naming),
    ensures
        same_ports(b, c),
{
    assert forall|i: int| 0 <= i < b.len() implies {
        let (p, q) = (#[trigger] b[i], c[i]);
        &&& p.id == q.id
        &&& p.name@ == q.name@
        &&& p.port_type == q.port_type
        &&& p.is_input == q.is_input
        &&& p.channel == q.channel
    } by {
        assert(a[i].channel == b[i].channel);
    }
}

/// Migrating a node twice is the same as migrating it once: the second
/// migration keeps every port's id, name, type, direction and channel.
pub proof fn law_migration_is_idempotent(v: GraphNodeView, w: GraphNodeView, x: GraphNodeView)
    requires
        migrated(v, w),
        migrated(w, x),
    ensures
        same_ports(w.inputs, x.inputs),
        same_ports(w.outputs, x.outputs),
        x == (GraphNodeView { inputs: x.inputs, outputs: x.outputs, ..w }),
{
    match v.kind {
        NodeKind::SumMixer { .. } => {
            if v.inputs.len() < 2 * MIXER_STRIP_COUNT {
                assert forall|i: int| 0 <= i < w.inputs.len() implies {
                    let (p, q) = (#[trigger] w.inputs[i], x.inputs[i]);
                    &&& p.id == q.id
                    &&& p.name@ == q.name@
                    &&& p.port_type == q.port_type
                    &&& p.is_input == q.is_input
                    &&& p.channel == q.channel
                } by {
                    assert(w.inputs[i].name@ == port_label(PortNaming::InBranches, i, i as u32));
                }
            } else {
                lemma_relabel_twice(v.inputs, w.inputs, x.inputs, PortNaming::InBranches);
            }
            lemma_relabel_twice(v.outputs, w.outputs, x.outputs, PortNaming::OutByChannel);
        },
        NodeKind::StereoSplitter { .. } => {
            lemma_relabel_twice(v.inputs, w.inputs, x.inputs, PortNaming::InByChannel);
            lemma_relabel_twice(v.outputs, w.outputs, x.outputs, PortNaming::OutBranches);
        },
        NodeKind::MidiMixer => {
            lemma_relabel_twice(v.inputs, w.inputs, x.inputs, PortNaming::MidiInLetters);
            lemma_relabel_twice(v.outputs, w.outputs, x.outputs, PortNaming::MidiOut);
        },
        NodeKind::MidiSplitter => {
            lemma_relabel_twice(v.inputs, w.inputs, x.inputs, PortNaming::MidiIn);
            lemma_relabel_twice(v.outputs, w.outputs, x.outputs, PortNaming::MidiOutLetters);
        },
        NodeKind::MidiClipSource { .. } => {
            lemma_relabel_twice(v.outputs, w.outputs, x.outputs, PortNaming::MidiOut);
        },
        NodeKind::AudioClipSource { .. } => {
            lemma_relabel_twice(v.outputs, w.outputs, x.outputs, PortNaming::OutByChannel);
        },
        NodeKind::MasterOutput => {
            lemma_relabel_twice(v.inputs, w.inputs, x.inputs, PortNaming::InByChannel);
        },
        NodeKind::GainPan { .. } | NodeKind::PluginEffect { .. } => {
            lemma_relabel_twice(v.inputs, w.inputs, x.inputs, PortNaming::InByChannel);
            lemma_relabel_twice(v.outputs, w.outputs, x.outputs, PortNaming::OutByChannel);
        },
        NodeKind::BuiltinSynth | NodeKind::PluginInstrument { .. } => {
            lemma_relabel_twice(v.inputs, w.inputs, x.inputs, PortNaming::MidiIn);
            lemma_relabel_twice(v.outputs, w.outputs, x.outputs, PortNaming::OutByChannel);
        },
    }
}

/// The node's port lists are short enough for their letter labels.
pub open spec fn migratable(v: GraphNodeView) -> bool {
    match v.kind {
        NodeKind::SumMixer { .. } => v.inputs.len() <= 382,
        NodeKind::StereoSplitter { .. } => v.outputs.len() <= 382,
        NodeKind::MidiMixer => v.inputs.len() <= 191,
        NodeKind::MidiSplitter => v.outputs.len() <= 191,
        _ => true,
    }
}

fn port_label_exec(naming: PortNaming, i: usize, channel: u32) -> (s: String)
    requires
        labels_fit(naming, i + 1),
    ensures
        s@ == port_label(naming, i as int, channel),
{
    match naming {
        PortNaming::InByChannel => stereo_in_name(channel),
        PortNaming::OutByChannel => stereo_out_name(channel),
        PortNaming::InBranches => stereo_in_branch_name(i / 2, (i % 2) as u32),
        PortNaming::OutBranches => stereo_out_branch_name(i / 2, (i % 2) as u32),
        PortNaming::MidiInLetters => midi_in_branch_name(i),
        PortNaming::MidiOutLetters => midi_out_branch_name(i),
        PortNaming::MidiIn => owned("MIDI In"),
        PortNaming::MidiOut => owned("MIDI Out"),
    }
}

/// Relabel every port by `naming`.
pub fn relabel_ports(ports: &mut Vec<Port>, naming: PortNaming)
    requires
        labels_fit(naming, old(ports)@.len() as int),
    ensures
        relabelled(old(ports)@, final(ports)@, naming),
{
    let ghost ps = ports@;
    let mut i: usize = 0;
    while i < ports.len()
        invariant
            i <= ports@.len(),
            ports@.len() == ps.len(),
            labels_fit(naming, ps.len() as int),
            forall|j: int| i <= j < ps.len() ==> ports@[j] == ps[j],
            forall|j: int| 0 <= j < i ==> {
                let (p, q) = (#[trigger] ps[j], ports@[j]);
                &&& q.name@ == port_label(naming, j, p.channel)
                &&& q.id == p.id
                &&& q.port_type == p.port_type
                &&& q.is_input == p.is_input
                &&& q.channel == p.channel
            },
        decreases ports@.len() - i,
    {
        let p = ports[i].duplicate();
        let name = port_label_exec(naming, i, p.channel);
        ports.set(i, Port { id: p.id, name, port_type: p.port_type, is_input: p.is_input, channel: p.channel });
        i = i + 1;
    }
}

/// Entries of a channel-keyed port map, the `u32` keys widened.
pub uninterp spec fn channel_entries(m: IndexMap<u32, Port>) -> Seq<(u128, Port)>;

/// `IndexMap::new` for a channel-keyed port map: empty.
#[verifier::external_body]
fn channels_new() -> (m: IndexMap<u32, Port>)
    ensures
        channel_entries(m) == Seq::<(u128, Port)>::empty(),
{
    IndexMap::new()
}

/// `IndexMap::insert` on a channel-keyed port map: an existing key keeps its
/// place and takes the new value (the old one is returned); a new key goes
/// last.
#[verifier::external_body]
fn channels_insert(m: &mut IndexMap<u32, Port>, k: u32, v: Port) -> (r: Option<Port>)
    ensures
        channel_entries(*final(m)) == insert_entry(channel_entries(*old(m)), k as u128, v),
        r == value_of(channel_entries(*old(m)), k as u128),
{
    m.insert(k, v)
}

/// `IndexMap::shift_remove` on a channel-keyed port map: removes the entry
/// of `k`, shifting the later entries down, and returns its value.
#[verifier::external_body]
fn channels_shift_remove(m: &mut IndexMap<u32, Port>, k: u32) -> (r: Option<Port>)
    ensures
        channel_entries(*final(m)) == remove_entry(channel_entries(*old(m)), k as u128),
        r == value_of(channel_entries(*old(m)), k as u128),
{
    m.shift_remove(&k)
}

/// The eight mixer inputs rebuilt from a legacy input list (see
/// `mixer_rebuilt`).
fn rebuilt_mixer_inputs(inputs: &Vec<Port>) -> (r: Vec<Port>)
    ensures
        mixer_rebuilt(inputs@, r@),
{
    let ghost ps = inputs@;
    let mut by_ch = channels_new();
    let mut i: usize = 0;
    while i < inputs.len()
        invariant
            i <= ps.len(),
            ps == inputs@,
            keys_unique(channel_entries(by_ch)),
            forall|c: u32| #[trigger] value_of(channel_entries(by_ch), c as u128) == last_audio_port(ps.take(i as int), c),
        decreases ps.len() - i,
    {
        let port = inputs[i].duplicate();
        proof {
            assert(ps.take(i as int + 1).drop_last() =~= ps.take(i as int));
            assert(ps.take(i as int + 1).last() == port);
        }
        if port.port_type == PortType::Audio {
            let ghost e0 = channel_entries(by_ch);
            let ch = port.channel;
            proof {
                assert forall|c: u32| #[trigger] value_of(insert_entry(e0, ch as u128, port), c as u128)
                    == last_audio_port(ps.take(i as int + 1), c) by {
                    lemma_value_of_after(e0, ch as u128, port, c as u128);
                }
                lemma_value_of_after(e0, ch as u128, port, 0u128);
            }
            channels_insert(&mut by_ch, ch, port);
        }
        i = i + 1;
    }
    proof {
        assert(ps.take(ps.len() as int) =~= ps);
    }
    let mut out: Vec<Port> = Vec::new();
    let mut s: usize = 0;
    while s < MIXER_STRIP_COUNT
        invariant
            s <= MIXER_STRIP_COUNT,
            out@.len() == 2 * s,
            keys_unique(channel_entries(by_ch)),
            forall|c: u32| c >= 2 * s ==> #[trigger] value_of(channel_entries(by_ch), c as u128) == last_audio_port(ps, c),
            forall|j: int| 0 <= j < 2 * s ==> {
                let q = #[trigger] out@[j];
                &&& q.name@ == port_label(PortNaming::InBranches, j, j as u32)
                &&& q.is_input
                &&& q.channel == j
                &&& match last_audio_port(ps, j as u32) {
                    Some(p) => q.id == p.id && q.port_type == p.port_type,
                    None => q.port_type == PortType::Audio,
                }
            },
        decreases MIXER_STRIP_COUNT - s,
    {
        let l_ch = (s * 2) as u32;
        let r_ch = (s * 2 + 1) as u32;
        let ghost e0 = channel_entries(by_ch);
        proof {
            assert(value_of(e0, l_ch as u128) == last_audio_port(ps, l_ch));
            assert(value_of(e0, r_ch as u128) == last_audio_port(ps, r_ch));
            lemma_value_of_after(e0, l_ch as u128, Port::spec_any(), r_ch as u128);
        }
        let found_l = channels_shift_remove(&mut by_ch, l_ch);
        let ghost e1 = channel_entries(by_ch);
        proof {
            assert forall|c: u32| c >= 2 * s + 1 implies #[trigger] value_of(e1, c as u128) == last_audio_port(ps, c) by {
                lemma_value_of_after(e0, l_ch as u128, Port::spec_any(), c as u128);
                assert(value_of(e0, c as u128) == last_audio_port(ps, c));
            }
            lemma_value_of_after(e0, l_ch as u128, Port::spec_any(), 0u128);
        }
        let l = match found_l {
            Some(p) => p,
            None => Port::audio_in(stereo_in_branch_name(s, 0), l_ch),
        };
        out.push(Port { id: l.id, name: stereo_in_branch_name(s, 0), port_type: l.port_type, is_input: true, channel: l_ch });
        let found_r = channels_shift_remove(&mut by_ch, r_ch);
        proof {
            assert forall|c: u32| c >= 2 * s + 2 implies #[trigger] value_of(channel_entries(by_ch), c as u128)
                == last_audio_port(ps, c) by {
                lemma_value_of_after(e1, r_ch as u128, Port::spec_any(), c as u128);
                assert(value_of(e1, c as u128) == last_audio_port(ps, c));
            }
            lemma_value_of_after(e1, r_ch as u128, Port::spec_any(), 0u128);
        }
        let r = match found_r {
            Some(p) => p,
            None => Port::audio_in(stereo_in_branch_name(s, 1), r_ch),
        };
        out.push(Port { id: r.id, name: stereo_in_branch_name(s, 1), port_type: r.port_type, is_input: true, channel: r_ch });
        proof {
            reveal_strlit("L");
            reveal_strlit("R");
            assert forall|j: int| 0 <= j < 2 * s + 2 implies {
                let q = #[trigger] out@[j];
                &&& q.name@ == port_label(PortNaming::InBranches, j, j as u32)
                &&& q.is_input
                &&& q.channel == j
                &&& match last_audio_port(ps, j as u32) {
                    Some(p) => q.id == p.id && q.port_type == p.port_type,
                    None => q.port_type == PortType::Audio,
                }
            } by {
                if j == 2 * s {
                    assert((j % 2) as u32 == 0u32 && j / 2 == s);
                } else if j == 2 * s + 1 {
                    assert((j % 2) as u32 == 1u32 && j / 2 == s);
                }
            }
        }
        s = s + 1;
    }
    out
}

impl Port {
    /// Some port (the value does not matter where it is used).
    pub closed spec fn spec_any() -> Port {
        Port { id: 0, name: arbitrary(), port_type: PortType::Audio, is_input: false, channel: 0 }
    }
}

impl GraphNode {
    /// Expand legacy mixer port layouts and relabel ports after loading
    /// (port ids are kept).
    pub fn migrate_ports(&mut self)
        requires
            migratable(old(self)@),
        ensures
            migrated(old(self)@, final(self)@),
    {
        match &self.kind {
            NodeKind::SumMixer { .. } => {
                if self.inputs.len() < 2 * MIXER_STRIP_COUNT {
                    let rebuilt = rebuilt_mixer_inputs(&self.inputs);
                    let ghost rb = rebuilt@;
                    self.inputs = rebuilt;
                    relabel_ports(&mut self.inputs, PortNaming::InBranches);
                    proof {
                        let new = self.inputs@;
                        assert forall|j: int| 0 <= j < 2 * MIXER_STRIP_COUNT implies {
                            let q = #[trigger] new[j];
                            &&& q.name@ == port_label(PortNaming::InBranches, j, j as u32)
                            &&& q.is_input
                            &&& q.channel == j
                            &&& match last_audio_port(old(self).inputs@, j as u32) {
                                Some(p) => q.id == p.id && q.port_type == p.port_type,
                                None => q.port_type == PortType::Audio,
                            }
                        } by {
                            assert(rb[j].channel == j);
                        }
                    }
                } else {
                    relabel_ports(&mut self.inputs, PortNaming::InBranches);
                }
                relabel_ports(&mut self.outputs, PortNaming::OutByChannel);
            },
            NodeKind::StereoSplitter { .. } => {
                relabel_ports(&mut self.inputs, PortNaming::InByChannel);
                relabel_ports(&mut self.outputs, PortNaming::OutBranches);
            },
            NodeKind::MidiMixer => {
                relabel_ports(&mut self.inputs, PortNaming::MidiInLetters);
                relabel_ports(&mut self.outputs, PortNaming::MidiOut);
            },
            NodeKind::MidiSplitter => {
                relabel_ports(&mut self.inputs, PortNaming::MidiIn);
                relabel_ports(&mut self.outputs, PortNaming::MidiOutLetters);
            },
            NodeKind::MidiClipSource { .. } => {
                relabel_ports(&mut self.outputs, PortNaming::MidiOut);
            },
            NodeKind::AudioClipSource { .. } => {
                relabel_ports(&mut self.outputs, PortNaming::OutByChannel);
            },
            NodeKind::MasterOutput => {
                relabel_ports(&mut self.inputs, PortNaming::InByChannel);
            },
            NodeKind::GainPan { .. } | NodeKind::PluginEffect { .. } => {
                relabel_ports(&mut self.inputs, PortNaming::InByChannel);
                relabel_ports(&mut self.outputs, PortNaming::OutByChannel);
            },
            NodeKind::BuiltinSynth | NodeKind::PluginInstrument { .. } => {
                relabel_ports(&mut self.inputs, PortNaming::MidiIn);
                relabel_ports(&mut self.outputs, PortNaming::OutByChannel);
            },
        }
    }
}


impl AudioGraph {
    /// Migrate the ports of every node (see `GraphNode::migrate_ports`).
    pub fn migrate_nodes(&mut self)
        requires
            old(self).distinct_keys(),
            forall|i: int| 0 <= i < old(self).node_seq().len() ==> migratable(#[trigger] old(self).node_seq()[i].1@),
        ensures
            old(self).wf() ==> final(self).wf(),
            final(self).edge_seq() == old(self).edge_seq(),
            final(self).user_arranged == old(self).user_arranged,
            final(self).node_seq().len() == old(self).node_seq().len(),
            forall|i: int| 0 <= i < old(self).node_seq().len() ==> {
                let (a, b) = (#[trigger] old(self).node_seq()[i], final(self).node_seq()[i]);
                a.0 == b.0 && migrated(a.1@, b.1@)
            },
    {
        let ghost ns = self.node_seq();
        let n = self.node_count();
        let mut i: usize = 0;
        while i < n
            invariant
                i <= n,
                n == ns.len(),
                crate::keyed::keys_unique(self.node_seq()),
                old(self).wf() ==> self.wf(),
                self.edge_seq() == old(self).edge_seq(),
                self.user_arranged == old(self).user_arranged,
                ns == old(self).node_seq(),
                self.node_seq().len() == ns.len(),
                forall|j: int| 0 <= j < ns.len() ==> migratable(#[trigger] ns[j].1@),
                forall|j: int| i <= j < ns.len() ==> #[trigger] self.node_seq()[j] == ns[j],
                forall|j: int| 0 <= j < i ==> {
                    let (a, b) = (#[trigger] ns[j], self.node_seq()[j]);
                    a.0 == b.0 && migrated(a.1@, b.1@)
                },
            decreases n - i,
        {
            let ghost before = self.node_seq();
            let kv = nodes_get_index(&self.nodes, i).unwrap();
            let k = *kv.0;
            let mut node = kv.1.duplicate();
            proof {
                assert(node@ == ns[i as int].1@);
            }
            node.migrate_ports();
            let ghost nd = node;
            proof {
                crate::keyed::lemma_key_index_unique(before, k, i as int);
                crate::keyed::lemma_insert_keeps_unique(before, k, nd);
            }
            nodes_insert(&mut self.nodes, k, node);
            proof {
                let t = self.node_seq();
                assert(t == before.update(i as int, (k, nd)));
                if old(self).wf() {
                assert forall|j: int| 0 <= j < t.len() implies (#[trigger] t[j]).1.id == t[j].0 by {
                    if j != i {
                        assert(t[j] == before[j]);
                    }
                }
                let es = self.edge_seq();
                assert forall|j: int| 0 <= j < es.len() implies (#[trigger] es[j]).1.id == es[j].0
                    && crate::keyed::has_key(t, es[j].1.from_node) && crate::keyed::has_key(t, es[j].1.to_node) by {
                    assert(crate::keyed::has_key(before, es[j].1.from_node));
                    assert(crate::keyed::has_key(before, es[j].1.to_node));
                    let a = crate::keyed::key_index(before, es[j].1.from_node);
                    let b = crate::keyed::key_index(before, es[j].1.to_node);
                    assert(t[a].0 == before[a].0);
                    assert(t[b].0 == before[b].0);
                }
                assert(self.pairs() == old(self).pairs());
                }
            }
            i = i + 1;
        }
    }
}
} // verus!
