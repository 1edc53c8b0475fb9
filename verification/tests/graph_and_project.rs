use cottdaw::clips::{Clip, ClipContent, MidiNote, ScheduledMidiEvent, midi_panic_events};
use cottdaw::graph::{AudioGraph, GraphError, GraphNode, NodeKind, MIXER_STRIP_COUNT};
use cottdaw::plan::CompiledPlan;
use cottdaw::project::Project;

fn new_id() -> u128 {
    uuid::Uuid::new_v4().as_u128()
}

fn beats(x: f64) -> u64 {
    x.to_bits()
}

#[test]
fn midi_panic_emits_all_channels() {
    let track = new_id();
    let events = midi_panic_events(track);
    assert_eq!(events.len(), 32);
    assert!(events.iter().all(|(t, _)| *t == track));
    assert!(events.iter().any(|(_, e)| e.status == 0xB0 && e.data1 == 123));
    assert!(events.iter().any(|(_, e)| e.status == 0xBF && e.data1 == 120));
}

#[test]
fn sort_priority_puts_panic_before_note_on() {
    let on = ScheduledMidiEvent::note_on(0, 60, 100, 0);
    let off = ScheduledMidiEvent::note_off(0, 60, 0);
    let panic = ScheduledMidiEvent::all_notes_off(0, 0);
    assert!(panic.sort_priority() < off.sort_priority());
    assert!(off.sort_priority() < on.sort_priority());
}

#[test]
fn duplicate_for_paste_regenerates_ids() {
    let track = new_id();
    let other = new_id();
    let mut clip = Clip::new_midi(track, "Chord".to_string(), beats(2.0), beats(4.0));
    if let ClipContent::Midi { notes, .. } = &mut clip.content {
        notes.push(MidiNote::new(60, 100, beats(0.5), beats(1.0)));
        notes.push(MidiNote::new(64, 90, beats(0.5), beats(1.0)));
    }
    let pasted = clip.duplicate_for_paste(other, beats(8.0));
    assert_ne!(pasted.id, clip.id);
    assert_eq!(pasted.track_id, other);
    assert_eq!(f64::from_bits(pasted.start_beats), 8.0);
    assert_eq!(pasted.name, "Chord");
    assert_eq!(pasted.notes().unwrap().len(), 2);
    assert_ne!(pasted.notes().unwrap()[0].id, clip.notes().unwrap()[0].id);
    assert_eq!(pasted.notes().unwrap()[0].pitch, 60);
    assert_eq!(f64::from_bits(pasted.notes().unwrap()[0].start_beats), 0.5);
}

#[test]
fn rejects_cycles() {
    let mut g = AudioGraph::new();
    let a = g.add_node(GraphNode::stereo_gain_pan("A".to_string()));
    let b = g.add_node(GraphNode::stereo_gain_pan("B".to_string()));
    g.connect_stereo(a, b).unwrap();
    let err = g.connect_stereo(b, a).unwrap_err();
    assert_eq!(err, GraphError::Cycle);
}

#[test]
fn rejects_type_mismatch() {
    let mut g = AudioGraph::new();
    let midi = g.add_node(GraphNode::midi_clip_source(new_id(), "MIDI".to_string()));
    let gain = g.add_node(GraphNode::stereo_gain_pan("Gain".to_string()));
    let from_port = g.nodes[&midi].outputs[0].id;
    let to_port = g.nodes[&gain].inputs[0].id;
    let err = g.connect(midi, from_port, gain, to_port).unwrap_err();
    assert!(matches!(err, GraphError::TypeMismatch { .. }));
}

#[test]
fn topological_order_respects_edges() {
    let mut g = AudioGraph::new();
    let a = g.add_node(GraphNode::audio_clip_source(new_id(), "Clip".to_string()));
    let b = g.add_node(GraphNode::stereo_gain_pan("Gain".to_string()));
    let c = g.add_node(GraphNode::master_output());
    g.connect_stereo(a, b).unwrap();
    g.connect_stereo(b, c).unwrap();
    let order = g.topological_order().unwrap();
    let ai = order.iter().position(|x| *x == a).unwrap();
    let bi = order.iter().position(|x| *x == b).unwrap();
    let ci = order.iter().position(|x| *x == c).unwrap();
    assert!(ai < bi && bi < ci);
}

#[test]
fn latency_compensation() {
    let mut g = AudioGraph::new();
    let a = g.add_node(GraphNode::audio_clip_source(new_id(), "Clip".to_string()));
    let mut effect = GraphNode::stereo_gain_pan("FX".to_string());
    effect.latency_samples = 128;
    let b = g.add_node(effect);
    let c = g.add_node(GraphNode::master_output());
    g.connect_stereo(a, b).unwrap();
    g.connect_stereo(b, c).unwrap();
    let plan = CompiledPlan::compile(&g).unwrap();
    assert_eq!(plan.total_latency, 128);
    assert_eq!(plan.delay_compensation[&a], 0);
    assert_eq!(plan.delay_compensation[&b], 0);
    assert_eq!(plan.delay_compensation[&c], 0);
}

#[test]
fn parallel_branches_are_aligned_at_the_mix() {
    let mut g = AudioGraph::new();
    let src = g.add_node(GraphNode::audio_clip_source(new_id(), "Clip".to_string()));
    let mut slow = GraphNode::stereo_gain_pan("Slow".to_string());
    slow.latency_samples = 64;
    let slow = g.add_node(slow);
    let fast = g.add_node(GraphNode::stereo_gain_pan("Fast".to_string()));
    let master = g.add_node(GraphNode::master_output());
    g.connect_stereo(src, slow).unwrap();
    g.connect_stereo(src, fast).unwrap();
    g.connect_stereo(slow, master).unwrap();
    g.connect_stereo(fast, master).unwrap();
    let plan = CompiledPlan::compile(&g).unwrap();
    assert_eq!(plan.total_latency, 64);
    assert_eq!(plan.delay_compensation[&fast], 64);
    assert_eq!(plan.delay_compensation[&slow], 0);
    assert_eq!(plan.delay_compensation[&src], 0);
    assert_eq!(plan.order.len(), 4);
    assert_eq!(plan.edges.len(), 8);
    assert_eq!(plan.nodes.len(), 4);
}

#[test]
fn disconnected_plugins_are_not_scheduled() {
    let mut g = AudioGraph::new();
    let source = g.add_node(GraphNode::audio_clip_source(new_id(), "Clip".to_string()));
    let master = g.add_node(GraphNode::master_output());
    let floating = g.add_node(GraphNode::vst3_effect(
        new_id(),
        "effect".to_string(),
        "/effect.vst3".to_string(),
        "Floating effect".to_string(),
    ));
    g.connect_stereo(source, master).unwrap();
    let plan = CompiledPlan::compile(&g).unwrap();
    assert!(plan.order.contains(&source));
    assert!(plan.order.contains(&master));
    assert!(!plan.order.contains(&floating));
}

#[test]
fn empty_plan_has_nothing() {
    let plan = CompiledPlan::empty();
    assert!(plan.order.is_empty() && plan.nodes.is_empty() && plan.edges.is_empty());
    assert!(plan.delay_compensation.is_empty());
    assert_eq!(plan.total_latency, 0);
}

#[test]
fn adding_effect_creates_stereo_node_and_plugin_state() {
    let mut project = Project::new("Effects".to_string());
    let node_id = project.add_effect(
        "test.effect".to_string(),
        "/tmp/test.vst3".to_string(),
        "Test Effect".to_string(),
        [120.0f32.to_bits(), 80.0f32.to_bits()],
    );
    let node = &project.graph.nodes[&node_id];
    assert_eq!(node.position, [120.0f32.to_bits(), 80.0f32.to_bits()]);
    assert_eq!(node.inputs.len(), 2);
    assert_eq!(node.outputs.len(), 2);
    let NodeKind::PluginEffect { instance_id, .. } = &node.kind else {
        panic!("expected a plugin effect node");
    };
    assert!(project.plugin_states.contains_key(instance_id));
}

#[test]
fn attach_instrument_tears_down_previous() {
    let mut project = Project::new("Orphan".to_string());
    let track = project.add_midi_track("Synth".to_string(), 0);
    let (first_id, unloaded) = project
        .attach_instrument(track, "a.uid".to_string(), "/tmp/a.vst3".to_string(), "A".to_string())
        .expect("first attach");
    assert!(unloaded.is_none());
    let first_instance = match &project.graph.nodes[&first_id].kind {
        NodeKind::PluginInstrument { instance_id, .. } => *instance_id,
        other => panic!("expected instrument, got {other:?}"),
    };
    assert!(project.plugin_states.contains_key(&first_instance));
    let (second_id, unloaded) = project
        .attach_instrument(track, "b.uid".to_string(), "/tmp/b.vst3".to_string(), "B".to_string())
        .expect("second attach");
    assert_eq!(unloaded, Some(first_instance));
    assert!(!project.graph.nodes.contains_key(&first_id));
    assert!(project.graph.nodes.contains_key(&second_id));
    assert!(!project.plugin_states.contains_key(&first_instance));
    let track_ref = project.tracks.iter().find(|t| t.id == track).unwrap();
    assert_eq!(track_ref.instrument_node, Some(second_id));
}

#[test]
fn compiled_project_schedules_track_chain() {
    let mut project = Project::new("Plan".to_string());
    let track = project.add_audio_track("Drums".to_string(), 0);
    let t = project.tracks.iter().find(|t| t.id == track).unwrap().clone();
    let plan = project.compiled_plan();
    assert_eq!(plan.order.len(), 3);
    assert_eq!(plan.order[2], project.master_node);
    assert_eq!(plan.order[0], t.audio_source_node.unwrap());
    assert!(project.try_compiled_plan().is_ok());
}

#[test]
fn mixer_accepts_multiple_stereo_inputs() {
    let mut g = AudioGraph::new();
    let a = g.add_node(GraphNode::audio_clip_source(new_id(), "A".to_string()));
    let b = g.add_node(GraphNode::audio_clip_source(new_id(), "B".to_string()));
    let mix = g.add_node(GraphNode::sum_mixer("Mix".to_string()));
    let master = g.add_node(GraphNode::master_output());
    // Strip 1 (In1 L/R) and strip 2 (In2 L/R).
    let mix_in1_l = g.nodes[&mix].inputs[0].id;
    let mix_in1_r = g.nodes[&mix].inputs[1].id;
    let mix_in2_l = g.nodes[&mix].inputs[2].id;
    let mix_in2_r = g.nodes[&mix].inputs[3].id;
    let a_l = g.nodes[&a].outputs[0].id;
    let a_r = g.nodes[&a].outputs[1].id;
    let b_l = g.nodes[&b].outputs[0].id;
    let b_r = g.nodes[&b].outputs[1].id;
    g.connect(a, a_l, mix, mix_in1_l).unwrap();
    g.connect(a, a_r, mix, mix_in1_r).unwrap();
    g.connect(b, b_l, mix, mix_in2_l).unwrap();
    g.connect(b, b_r, mix, mix_in2_r).unwrap();
    g.connect_stereo(mix, master).unwrap();
    let plan = CompiledPlan::compile(&g).unwrap();
    assert!(plan.order.len() >= 4);
    assert_eq!(g.nodes[&mix].inputs.len(), MIXER_STRIP_COUNT * 2);
}

#[test]
fn splitter_has_two_stereo_branches() {
    let mut g = AudioGraph::new();
    let src = g.add_node(GraphNode::audio_clip_source(new_id(), "Src".to_string()));
    let split = g.add_node(GraphNode::stereo_splitter("Split".to_string()));
    let g_a = g.add_node(GraphNode::stereo_gain_pan("A".to_string()));
    let g_b = g.add_node(GraphNode::stereo_gain_pan("B".to_string()));
    let master = g.add_node(GraphNode::master_output());
    g.connect_stereo(src, split).unwrap();
    let a_l = g.nodes[&split].outputs[0].id;
    let a_r = g.nodes[&split].outputs[1].id;
    let b_l = g.nodes[&split].outputs[2].id;
    let b_r = g.nodes[&split].outputs[3].id;
    let ga_l = g.nodes[&g_a].inputs[0].id;
    let ga_r = g.nodes[&g_a].inputs[1].id;
    let gb_l = g.nodes[&g_b].inputs[0].id;
    let gb_r = g.nodes[&g_b].inputs[1].id;
    g.connect(split, a_l, g_a, ga_l).unwrap();
    g.connect(split, a_r, g_a, ga_r).unwrap();
    g.connect(split, b_l, g_b, gb_l).unwrap();
    g.connect(split, b_r, g_b, gb_r).unwrap();
    g.connect_stereo(g_a, master).unwrap();
    g.connect_stereo(g_b, master).unwrap();
    let plan = CompiledPlan::compile(&g).unwrap();
    assert!(plan.order.contains(&split));
}

#[test]
fn solo_mutes_non_soloed_gain_nodes() {
    let mut project = Project::new("t".to_string());
    let a = project.add_audio_track("A".to_string(), 0f32.to_bits());
    let b = project.add_audio_track("B".to_string(), 100f32.to_bits());
    let gain_a = project.tracks.iter().find(|t| t.id == a).unwrap().gain_node.unwrap();
    let gain_b = project.tracks.iter().find(|t| t.id == b).unwrap().gain_node.unwrap();
    if let Some(node) = project.graph.nodes.get_mut(&gain_a) {
        if let NodeKind::GainPan { solo, .. } = &mut node.kind {
            *solo = true;
        }
    }
    let plan = project.compiled_plan();
    let any_solo = plan
        .nodes
        .values()
        .any(|n| matches!(&n.kind, NodeKind::GainPan { solo: true, .. }));
    assert!(any_solo);
    let b_soloed = matches!(&plan.nodes[&gain_b].kind, NodeKind::GainPan { solo: true, .. });
    assert!(!b_soloed);
}

#[test]
fn connecting_to_a_missing_node_names_it() {
    let mut g = AudioGraph::new();
    let src = g.add_node(GraphNode::audio_clip_source(new_id(), "Src".to_string()));
    let out = g.nodes[&src].outputs[0].id;
    let missing: u128 = 0x0123_4567_89ab_cdef_0123_4567_89ab_cdef;
    match g.connect(src, out, missing, 1) {
        Err(GraphError::NodeNotFound(name)) => assert_eq!(name, "01234567-89ab-cdef-0123-456789abcdef"),
        other => panic!("unexpected {other:?}"),
    }
    match g.connect_stereo(missing, src) {
        Err(GraphError::NodeNotFound(name)) => assert_eq!(name, "01234567-89ab-cdef-0123-456789abcdef"),
        other => panic!("unexpected {other:?}"),
    }
    assert_eq!(g.edges.len(), 0);
}

#[test]
fn compile_reports_a_cycle_in_a_loaded_graph() {
    let mut project = Project::new("t".to_string());
    let mut g = AudioGraph::new();
    let a = g.add_node(GraphNode::stereo_gain_pan("A".to_string()));
    let b = g.add_node(GraphNode::stereo_gain_pan("B".to_string()));
    let master = g.add_node(GraphNode::master_output());
    g.connect_stereo(a, b).unwrap();
    g.connect_stereo(b, master).unwrap();
    assert!(CompiledPlan::compile(&g).is_ok());
    // A graph read from a file can hold a wire that `connect` would refuse.
    let back = cottdaw::graph::GraphEdge {
        id: new_id(),
        from_node: b,
        from_port: g.nodes[&b].outputs[0].id,
        to_node: a,
        to_port: g.nodes[&a].inputs[0].id,
    };
    g.edges.insert(back.id, back);
    assert!(matches!(CompiledPlan::compile(&g), Err(GraphError::Cycle)));
    project.graph = g;
    assert!(!project.is_well_formed());
    assert!(Project::new("u".to_string()).is_well_formed());
}

#[test]
fn dangling_wires_are_passed_over() {
    let mut g = AudioGraph::new();
    let src = g.add_node(GraphNode::audio_clip_source(new_id(), "Src".to_string()));
    let master = g.add_node(GraphNode::master_output());
    g.connect_stereo(src, master).unwrap();
    let kept: Vec<u128> = g.edges.keys().copied().collect();
    let missing = new_id();
    let stray = cottdaw::graph::GraphEdge { id: new_id(), from_node: master, from_port: 1, to_node: missing, to_port: 2 };
    g.edges.insert(stray.id, stray);
    let back = cottdaw::graph::GraphEdge { id: new_id(), from_node: missing, from_port: 3, to_node: src, to_port: 4 };
    g.edges.insert(back.id, back);
    assert!(!g.is_linked());
    assert!(!g.has_cycle());
    let order = g.topological_order().unwrap();
    assert_eq!(order, vec![src, master]);
    let plan = CompiledPlan::compile(&g).unwrap();
    assert_eq!(plan.order, vec![src, master]);
    let ranks = g.layout_ranks();
    assert!(ranks[&src] < ranks[&master]);
    let h = g.normalized();
    assert!(h.is_linked());
    assert_eq!(h.edges.keys().copied().collect::<Vec<_>>(), kept);
    assert_eq!(h.nodes.len(), 2);
}

#[test]
fn fresh_ids_are_version_four_uuids() {
    for _ in 0..8 {
        let node = GraphNode::master_output();
        let u = uuid::Uuid::from_u128(node.id);
        assert_eq!(u.get_version_num(), 4);
        assert_eq!(u.get_variant(), uuid::Variant::RFC4122);
        assert_eq!((node.id >> 76) & 0xf, 4);
        assert_eq!((node.id >> 62) & 0x3, 2);
    }
}

#[test]
fn edits_go_on_beside_dangling_wires() {
    let mut g = AudioGraph::new();
    let a = g.add_node(GraphNode::stereo_gain_pan("A".to_string()));
    let b = g.add_node(GraphNode::stereo_gain_pan("B".to_string()));
    let missing = new_id();
    let stray = cottdaw::graph::GraphEdge { id: new_id(), from_node: b, from_port: 1, to_node: missing, to_port: 2 };
    g.edges.insert(stray.id, stray);
    assert!(!g.is_linked());
    // the stray wire names a node that is not there: it closes no cycle
    g.connect_stereo(a, b).unwrap();
    assert_eq!(g.edges.len(), 3);
    assert_eq!(g.connect_stereo(b, a).unwrap_err(), GraphError::Cycle);
    assert_eq!(g.edges.len(), 3);
    assert!(matches!(g.connect_stereo(a, missing), Err(GraphError::NodeNotFound(_))));
    assert_eq!(g.compute_latencies(), 0);
    let removed = g.remove_node(a).unwrap();
    assert_eq!(removed.id, a);
    assert_eq!(g.edges.len(), 1);
    assert!(g.edges.contains_key(&stray.id));
    assert_eq!(g.disconnect(stray.id).unwrap().to_node, missing);
    assert!(g.is_linked());
}
