use std::collections::HashSet;

use cottdaw::clips::ScheduledMidiEvent;
use cottdaw::commands::Command;
use cottdaw::graph::{AudioGraph, GraphNode};
use cottdaw::plan::CompiledPlan;
use cottdaw::project::Project;
use cottdaw::routing::{collect_block_midi, collect_midi_source_tracks};
use cottdaw::session::{
    can_remove_graph_node, discard_failed_plugin, instrument_target_track, remove_graph_node,
    plugin_load_targets, sync_plugin_runtime_state, track_add_command,
};

fn new_id() -> u128 {
    uuid::Uuid::new_v4().as_u128()
}

#[test]
fn midi_mixer_and_splitter_route_to_instrument() {
    let mut g = AudioGraph::new();
    let track_a = new_id();
    let track_b = new_id();
    let src_a = g.add_node(GraphNode::midi_clip_source(track_a, "A".to_string()));
    let src_b = g.add_node(GraphNode::midi_clip_source(track_b, "B".to_string()));
    let mix = g.add_node(GraphNode::midi_mixer("MIDI Mix".to_string()));
    let split = g.add_node(GraphNode::midi_splitter("MIDI Split".to_string()));
    let synth = g.add_node(GraphNode::builtin_synth("Synth".to_string()));
    let master = g.add_node(GraphNode::master_output());

    let mix_in1 = g.nodes[&mix].inputs[0].id;
    let mix_in2 = g.nodes[&mix].inputs[1].id;
    let mix_out = g.nodes[&mix].outputs[0].id;
    let a_out = g.nodes[&src_a].outputs[0].id;
    let b_out = g.nodes[&src_b].outputs[0].id;
    g.connect(src_a, a_out, mix, mix_in1).unwrap();
    g.connect(src_b, b_out, mix, mix_in2).unwrap();
    let split_in = g.nodes[&split].inputs[0].id;
    g.connect(mix, mix_out, split, split_in).unwrap();
    let split_a = g.nodes[&split].outputs[0].id;
    let synth_in = g.nodes[&synth].inputs[0].id;
    g.connect(split, split_a, synth, synth_in).unwrap();
    g.connect_stereo(synth, master).unwrap();

    let plan = CompiledPlan::compile(&g).unwrap();
    assert!(plan.order.contains(&mix));
    assert!(plan.order.contains(&split));
    assert!(plan.order.contains(&synth));

    let tracks = collect_midi_source_tracks(&plan, synth);
    assert!(tracks.contains(&track_a));
    assert!(tracks.contains(&track_b));
    assert_eq!(tracks.len(), 2);
}

#[test]
fn unconnected_sources_do_not_reach_the_instrument() {
    let mut g = AudioGraph::new();
    let track_a = new_id();
    let track_b = new_id();
    let src_a = g.add_node(GraphNode::midi_clip_source(track_a, "A".to_string()));
    g.add_node(GraphNode::midi_clip_source(track_b, "B".to_string()));
    let synth = g.add_node(GraphNode::builtin_synth("Synth".to_string()));
    let a_out = g.nodes[&src_a].outputs[0].id;
    let synth_in = g.nodes[&synth].inputs[0].id;
    g.connect(src_a, a_out, synth, synth_in).unwrap();
    let plan = CompiledPlan::compile(&g).unwrap();
    let tracks = collect_midi_source_tracks(&plan, synth);
    assert_eq!(tracks.into_iter().collect::<Vec<_>>(), vec![track_a]);
    assert!(collect_midi_source_tracks(&plan, src_a).is_empty());
}

#[test]
fn block_midi_is_ordered_and_filtered_by_source() {
    let t = new_id();
    let other = new_id();
    let scheduled = vec![
        ScheduledMidiEvent::note_on(10, 60, 100, 0),
        ScheduledMidiEvent::note_on(0, 62, 100, 0),
        ScheduledMidiEvent::note_off(10, 64, 0),
    ];
    let preview = vec![
        (t, ScheduledMidiEvent::all_notes_off(10, 0)),
        (other, ScheduledMidiEvent::note_on(0, 70, 90, 0)),
    ];
    let sources: HashSet<u128> = [t].into_iter().collect();
    let out = collect_block_midi(true, scheduled.clone(), &preview, &sources);
    assert_eq!(
        out,
        vec![
            ScheduledMidiEvent::note_on(0, 62, 100, 0),
            ScheduledMidiEvent::all_notes_off(10, 0),
            ScheduledMidiEvent::note_off(10, 64, 0),
            ScheduledMidiEvent::note_on(10, 60, 100, 0),
        ]
    );
    let stopped = collect_block_midi(false, scheduled, &preview, &sources);
    assert_eq!(stopped, vec![ScheduledMidiEvent::all_notes_off(10, 0)]);
}

#[test]
fn required_nodes_cannot_be_removed() {
    let mut project = Project::new("Rules".to_string());
    let track = project.add_midi_track("Lead".to_string(), 0);
    let t = project.tracks.iter().find(|x| x.id == track).unwrap().clone();
    assert!(!can_remove_graph_node(&project, project.master_node));
    assert!(!can_remove_graph_node(&project, t.midi_source_node.unwrap()));
    assert!(!can_remove_graph_node(&project, t.gain_node.unwrap()));
    let free_gain = project.graph.add_node(GraphNode::stereo_gain_pan("Spare".to_string()));
    assert!(can_remove_graph_node(&project, free_gain));
    let mixer = project.graph.add_node(GraphNode::sum_mixer("Bus".to_string()));
    assert!(can_remove_graph_node(&project, mixer));
    assert!(!can_remove_graph_node(&project, new_id()));
}

#[test]
fn track_add_command_captures_chain_and_edges() {
    let mut project = Project::new("Cmd".to_string());
    let track = project.add_midi_track("Lead".to_string(), 0);
    let t = project.tracks.iter().find(|x| x.id == track).unwrap().clone();
    let cmd = track_add_command(&project, track).unwrap();
    match cmd {
        Command::AddTrack { track: tr, nodes, edges } => {
            assert_eq!(tr.id, track);
            assert_eq!(nodes.len(), 2);
            assert_eq!(nodes[0].id, t.midi_source_node.unwrap());
            assert_eq!(nodes[1].id, t.gain_node.unwrap());
            let ids = [t.midi_source_node.unwrap(), t.gain_node.unwrap()];
            assert!(!edges.is_empty());
            assert!(edges.iter().all(|e| ids.contains(&e.from_node) || ids.contains(&e.to_node)));
            assert_eq!(edges.len(), project.graph.edges.len());
        }
        _ => panic!("expected an AddTrack command"),
    }
    assert!(track_add_command(&project, new_id()).is_none());
}

#[test]
fn removing_a_plugin_instrument_unlinks_its_track() {
    let mut project = Project::new("Remove".to_string());
    let track = project.add_midi_track("Lead".to_string(), 0);
    let (node_id, _) = project
        .attach_instrument(track, "uid".to_string(), "/x.vst3".to_string(), "X".to_string())
        .unwrap();
    let edges_before = project.graph.edges.len();
    let cmd = remove_graph_node(&mut project, node_id).unwrap();
    match cmd {
        Command::RemoveNode { node, edges, instrument_track, plugin_state } => {
            assert_eq!(node.id, node_id);
            assert_eq!(instrument_track, Some(track));
            assert!(plugin_state.is_some());
            assert!(!project.plugin_states.contains_key(&plugin_state.unwrap().instance_id));
            assert!(edges.iter().all(|e| e.from_node == node_id || e.to_node == node_id));
            assert_eq!(project.graph.edges.len(), edges_before - edges.len());
        }
        _ => panic!("expected a RemoveNode command"),
    }
    assert!(!project.graph.nodes.contains_key(&node_id));
    let t = project.tracks.iter().find(|t| t.id == track).unwrap();
    assert_eq!(t.instrument_node, None);
}

#[test]
fn required_nodes_are_left_in_place() {
    let mut project = Project::new("Keep".to_string());
    let master = project.master_node;
    assert!(remove_graph_node(&mut project, master).is_none());
    assert!(project.graph.nodes.contains_key(&master));
}

#[test]
fn layout_columns_flow_left_to_right() {
    let mut g = AudioGraph::new();
    let src = g.add_node(GraphNode::midi_clip_source(new_id(), "MIDI".to_string()));
    let synth = g.add_node(GraphNode::builtin_synth("Synth".to_string()));
    let gain = g.add_node(GraphNode::stereo_gain_pan("Gain".to_string()));
    let master = g.add_node(GraphNode::master_output());
    let side = g.add_node(GraphNode::stereo_gain_pan("Side".to_string()));
    g.connect_midi(src, synth).unwrap();
    g.connect_stereo(synth, gain).unwrap();
    g.connect_stereo(gain, master).unwrap();
    g.connect_stereo(side, master).unwrap();
    let ranks = g.layout_ranks();
    assert_eq!(ranks[&src], 0);
    assert_eq!(ranks[&synth], 1);
    assert_eq!(ranks[&gain], 2);
    assert_eq!(ranks[&side], 0);
    assert_eq!(ranks[&master], 3);
    assert_eq!(ranks.len(), 5);
    assert!(AudioGraph::new().layout_ranks().is_empty());
}

#[test]
fn dangling_edges_are_detected() {
    let mut g = AudioGraph::new();
    let a = g.add_node(GraphNode::stereo_gain_pan("A".to_string()));
    let m = g.add_node(GraphNode::master_output());
    g.connect_stereo(a, m).unwrap();
    assert!(g.is_linked());
    let id = new_id();
    g.edges.insert(
        id,
        cottdaw::graph::GraphEdge { id, from_node: new_id(), from_port: new_id(), to_node: m, to_port: new_id() },
    );
    assert!(!g.is_linked());
}

#[test]
fn instruments_go_to_the_selected_midi_track_or_the_first_one() {
    let mut project = Project::new("Target".to_string());
    let audio = project.add_audio_track("Audio".to_string(), 0);
    let first = project.add_midi_track("One".to_string(), 0);
    let second = project.add_midi_track("Two".to_string(), 0);
    assert_eq!(instrument_target_track(&project.tracks, Some(second)), Some(second));
    assert_eq!(instrument_target_track(&project.tracks, Some(audio)), Some(first));
    assert_eq!(instrument_target_track(&project.tracks, None), Some(first));
    let empty = Project::new("Empty".to_string());
    assert_eq!(instrument_target_track(&empty.tracks, None), None);
}

#[test]
fn a_failed_plugin_is_taken_out_again() {
    let mut project = Project::new("Fail".to_string());
    let track = project.add_midi_track("Lead".to_string(), 0);
    let (node_id, _) = project
        .attach_instrument(track, "uid".to_string(), "/x.vst3".to_string(), "X".to_string())
        .unwrap();
    let instance = match &project.graph.nodes[&node_id].kind {
        cottdaw::graph::NodeKind::PluginInstrument { instance_id, .. } => *instance_id,
        _ => panic!("expected a plugin instrument"),
    };
    assert!(project.plugin_states.contains_key(&instance));
    discard_failed_plugin(&mut project, node_id, instance);
    assert!(!project.plugin_states.contains_key(&instance));
    assert!(!project.graph.nodes.contains_key(&node_id));
    assert_eq!(project.tracks.iter().find(|t| t.id == track).unwrap().instrument_node, None);
}

#[test]
fn plugin_status_from_the_host_is_recorded() {
    let mut project = Project::new("Status".to_string());
    let fx = project.add_effect("uid".to_string(), "/fx.vst3".to_string(), "Fx".to_string(), [0, 0]);
    let instance = match &project.graph.nodes[&fx].kind {
        cottdaw::graph::NodeKind::PluginEffect { instance_id, .. } => *instance_id,
        _ => panic!("expected a plugin effect"),
    };
    let nothing: Vec<(u128, bool, u32)> = vec![(new_id(), true, 64)];
    assert!(!sync_plugin_runtime_state(&mut project.graph, &nothing));
    let report = vec![(instance, true, 128)];
    assert!(sync_plugin_runtime_state(&mut project.graph, &report));
    match &project.graph.nodes[&fx].kind {
        cottdaw::graph::NodeKind::PluginEffect { failed, .. } => assert!(*failed),
        _ => panic!("expected a plugin effect"),
    }
    assert_eq!(project.graph.nodes[&fx].latency_samples, 128);
    assert!(!sync_plugin_runtime_state(&mut project.graph, &report));
}

#[test]
fn plugin_nodes_are_the_load_targets_in_node_order() {
    let mut g = AudioGraph::new();
    g.add_node(GraphNode::builtin_synth("Synth".to_string()));
    let keys = g.add_node(GraphNode::plugin_instrument(
        11,
        "vst3".to_string(),
        "keys.uid".to_string(),
        "/keys.vst3".to_string(),
        "Keys".to_string(),
    ));
    g.add_node(GraphNode::master_output());
    let verb = g.add_node(GraphNode::plugin_effect(
        12,
        "clap".to_string(),
        "verb.uid".to_string(),
        "/verb.clap".to_string(),
        "Verb".to_string(),
    ));
    let targets = plugin_load_targets(&g);
    assert_eq!(
        targets,
        vec![
            (keys, 11, "keys.uid".to_string(), "/keys.vst3".to_string()),
            (verb, 12, "verb.uid".to_string(), "/verb.clap".to_string()),
        ]
    );
    assert!(plugin_load_targets(&AudioGraph::new()).is_empty());
}
