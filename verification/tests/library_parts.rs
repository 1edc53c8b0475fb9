use cottdaw::shortcuts::{resolve_shortcut, EditorOp, LowerTab, Selection, ShortcutAction};
use cottdaw::catalog::{
    inject_cott_bass, inject_cott_filter, inject_cott_kit, inject_cott_synth, inject_cott_tape,
    inject_cott_vinyl, COTT_BASS_NAME, COTT_FILTER_NAME, COTT_FILTER_STUB, COTT_KIT_NAME,
    COTT_SYNTH_NAME, COTT_SYNTH_UID, COTT_TAPE_NAME, COTT_VINYL_NAME,
};
use cottdaw::clips::humanize_hash;
use cottdaw::editor::{node_has_plugin_editor, step_zoom_percent};
use cottdaw::graph::{default_mixer_strips, AudioGraph, GraphNode, NodeKind, Port, PortType, MIXER_STRIP_COUNT};
use cottdaw::clips::ScheduledMidiEvent;
use cottdaw::ipc::{
    complete_frame, completion_accepted, drop_front, frame_message, prepare_process_request, shm_midi_slots,
    shm_name_for, PluginDescriptor, ShmHeader, ShmLayout, MAX_MIDI_EVENTS, SHM_MAGIC, SHM_PROCESS_DONE,
    SHM_REQUEST_PROCESS,
};
use cottdaw::piano::{note_name, ChordKind};
use cottdaw::time::{SamplePos, SharedTransport, TransportState};

fn port(id: u128, name: &str, is_input: bool, channel: u32) -> Port {
    Port { id, name: name.to_string(), port_type: PortType::Audio, is_input, channel }
}

#[test]
fn legacy_unit_sum_mixer_deserializes() {
    let mut node = GraphNode {
        id: 1,
        name: "Bus".to_string(),
        kind: NodeKind::SumMixer {
            strips: default_mixer_strips(),
            master_gain_db: 0f32.to_bits(),
            master_pan: 0f32.to_bits(),
            mute: false,
        },
        inputs: vec![port(2, "L", true, 0), port(3, "R", true, 1)],
        outputs: vec![port(4, "L", false, 0), port(5, "R", false, 1)],
        position: [0f32.to_bits(), 0f32.to_bits()],
        latency_samples: 0,
    };
    assert!(matches!(node.kind, NodeKind::SumMixer { .. }));
    node.migrate_ports();
    assert_eq!(node.inputs.len(), MIXER_STRIP_COUNT * 2);
    assert_eq!(node.inputs[0].name, "L In A");
    assert_eq!(node.inputs[1].name, "R In A");
    assert_eq!(node.outputs[0].name, "L Out");
    assert_eq!(node.outputs[1].name, "R Out");
    assert_eq!(
        uuid::Uuid::from_u128(node.inputs[0].id).to_string(),
        "00000000-0000-0000-0000-000000000002"
    );
}

#[test]
fn migrated_mixer_strips_are_labelled_in_order() {
    let mut node = GraphNode::sum_mixer("Bus".to_string());
    node.inputs.truncate(2);
    node.migrate_ports();
    let names: Vec<&str> = node.inputs.iter().map(|p| p.name.as_str()).collect();
    assert_eq!(
        names,
        vec!["L In A", "R In A", "L In B", "R In B", "L In C", "R In C", "L In D", "R In D"]
    );
    assert!(node.inputs.iter().all(|p| p.is_input && p.port_type == PortType::Audio));
}

#[test]
fn frames_round_trip_through_a_buffer() {
    let a = vec![1u8, 2, 3];
    let b = vec![9u8; 300];
    let mut buffer = frame_message(&a);
    assert_eq!(buffer[..4], [3, 0, 0, 0]);
    buffer.extend(frame_message(&b));
    assert_eq!(complete_frame(&buffer), Some(3));
    assert_eq!(buffer[4..7], [1, 2, 3]);
    drop_front(&mut buffer, 7);
    assert_eq!(complete_frame(&buffer), Some(300));
    assert_eq!(buffer[..4], [44, 1, 0, 0]);
    drop_front(&mut buffer, 304);
    assert!(buffer.is_empty());
}

#[test]
fn partial_frames_wait_for_more_bytes() {
    let framed = frame_message(&vec![7u8; 10]);
    for k in 0..framed.len() {
        assert_eq!(complete_frame(&framed[..k].to_vec()), None);
    }
    assert_eq!(complete_frame(&framed), Some(10));
}

#[test]
fn shared_memory_layout_offsets() {
    let l = ShmLayout::new();
    assert_eq!(l.header_offset, 0);
    assert_eq!(l.midi_offset, 64);
    assert_eq!(l.audio_in_offset, 4160);
    assert_eq!(l.audio_out_offset, 36928);
    assert_eq!(l.total_size, 69696);
}

#[test]
fn shared_memory_name_is_the_simple_uuid() {
    let id: u128 = 0x0123_4567_89ab_cdef_0011_2233_4455_6677;
    assert_eq!(shm_name_for(id), "/cott-daw-0123456789abcdef0011223344556677");
    assert_eq!(shm_name_for(0), "/cott-daw-00000000000000000000000000000000");
}

#[test]
fn note_names_use_scientific_octaves() {
    assert_eq!(note_name(60), "C4");
    assert_eq!(note_name(61), "C#4");
    assert_eq!(note_name(0), "C-1");
    assert_eq!(note_name(11), "B-1");
    assert_eq!(note_name(69), "A4");
    assert_eq!(note_name(127), "G9");
    assert_eq!(note_name(120), "C9");
}

#[test]
fn chord_shapes() {
    assert_eq!(ChordKind::default().name(), ChordKind::Major.name());
    assert_eq!(ChordKind::Major.intervals(), vec![0, 4, 7]);
    assert_eq!(ChordKind::Minor.intervals(), vec![0, 3, 7]);
}

#[test]
fn zoom_steps_snap_to_the_grid_and_clamp() {
    assert_eq!(step_zoom_percent(100, 25, 25), 125);
    assert_eq!(step_zoom_percent(110, 25, 25), 125);
    assert_eq!(step_zoom_percent(110, -25, 25), 100);
    assert_eq!(step_zoom_percent(400, 25, 25), 400);
    assert_eq!(step_zoom_percent(25, -25, 25), 25);
    assert_eq!(step_zoom_percent(1000, 0, 25), 400);
    assert_eq!(step_zoom_percent(5, 0, 25), 25);
}

#[test]
fn only_loaded_plugins_have_an_editor() {
    let mut g = AudioGraph::new();
    let fx = g.add_node(GraphNode::plugin_effect(
        uuid::Uuid::new_v4().as_u128(),
        "vst3".to_string(),
        "uid".to_string(),
        "/fx.vst3".to_string(),
        "Fx".to_string(),
    ));
    let mix = g.add_node(GraphNode::sum_mixer("Bus".to_string()));
    assert!(node_has_plugin_editor(&g, fx));
    assert!(!node_has_plugin_editor(&g, mix));
    assert!(!node_has_plugin_editor(&g, 12345));
}

#[test]
fn humanize_hash_depends_on_id_and_salt() {
    let a = humanize_hash(1, 0);
    assert_eq!(a, humanize_hash(1, 0));
    assert_ne!(a, humanize_hash(2, 0));
    assert_ne!(a, humanize_hash(1, 1));
}

fn desc(name: &str, uid: &str, path: &str) -> PluginDescriptor {
    PluginDescriptor {
        uid: uid.to_string(),
        name: name.to_string(),
        vendor: "Someone".to_string(),
        path: path.to_string(),
        is_instrument: false,
        is_effect: true,
        has_editor: false,
    }
}

fn names(c: &[PluginDescriptor]) -> Vec<&str> {
    c.iter().map(|p| p.name.as_str()).collect()
}

#[test]
fn synth_goes_first_and_filter_right_after_it() {
    let mut c = vec![desc("Reverb", "r", "/r.vst3"), desc("CottSynth", "old", "/old.vst3")];
    inject_cott_synth(&mut c, None, &vec![]);
    assert_eq!(names(&c), vec![COTT_SYNTH_NAME, "Reverb"]);
    assert_eq!(c[0].uid, COTT_SYNTH_UID);
    assert!(c[0].is_instrument && !c[0].is_effect && c[0].has_editor);
    inject_cott_filter(&mut c, None, &vec![]);
    assert_eq!(names(&c), vec![COTT_SYNTH_NAME, COTT_FILTER_NAME, "Reverb"]);
    assert_eq!(c[1].path, COTT_FILTER_STUB);
    assert!(c[1].is_effect && !c[1].is_instrument);
}

#[test]
fn found_bundle_replaces_entries_at_the_same_path() {
    let mut c = vec![desc("Reverb", "r", "/r.vst3"), desc("Renamed", "x", "/plugins/f.vst3")];
    let canonical = vec!["/r.vst3".to_string(), "/real/f.vst3".to_string()];
    inject_cott_filter(&mut c, Some("/real/f.vst3".to_string()), &canonical);
    assert_eq!(names(&c), vec![COTT_FILTER_NAME, "Reverb"]);
    assert_eq!(c[0].path, "/real/f.vst3");
}

#[test]
fn injection_is_stable_when_repeated() {
    let mut c = vec![desc("Reverb", "r", "/r.vst3")];
    inject_cott_vinyl(&mut c, None, &vec![]);
    let once: Vec<String> = c.iter().map(|p| p.name.clone()).collect();
    inject_cott_vinyl(&mut c, None, &vec![]);
    let twice: Vec<String> = c.iter().map(|p| p.name.clone()).collect();
    assert_eq!(once, twice);
    assert_eq!(c.iter().filter(|p| p.name == COTT_VINYL_NAME).count(), 1);
}

#[test]
fn first_party_plugins_stay_grouped() {
    let mut c = vec![desc("Reverb", "r", "/r.vst3")];
    inject_cott_synth(&mut c, None, &vec![]);
    inject_cott_filter(&mut c, None, &vec![]);
    inject_cott_vinyl(&mut c, None, &vec![]);
    inject_cott_tape(&mut c, None, &vec![]);
    inject_cott_bass(&mut c, None, &vec![]);
    inject_cott_kit(&mut c, None, &vec![]);
    assert_eq!(
        names(&c),
        vec![
            COTT_SYNTH_NAME,
            COTT_FILTER_NAME,
            COTT_VINYL_NAME,
            COTT_TAPE_NAME,
            COTT_BASS_NAME,
            COTT_KIT_NAME,
            "Reverb"
        ]
    );
}

#[test]
fn bass_and_kit_go_last_without_anchors() {
    let mut c = vec![desc("Reverb", "r", "/r.vst3")];
    inject_cott_bass(&mut c, None, &vec![]);
    assert_eq!(names(&c), vec!["Reverb", COTT_BASS_NAME]);
    let mut d = vec![desc("Reverb", "r", "/r.vst3")];
    inject_cott_kit(&mut d, None, &vec![]);
    assert_eq!(names(&d), vec!["Reverb", COTT_KIT_NAME]);
}

#[test]
fn process_requests_fill_the_header_and_slots() {
    let mut h = ShmHeader {
        magic: SHM_MAGIC,
        version: 1,
        frames: 0,
        channels_in: 0,
        channels_out: 0,
        midi_count: 0,
        host_seq: u64::MAX,
        worker_seq: 0,
        flags: 0,
        _pad: 0,
    };
    let (frames, seq) = prepare_process_request(&mut h, 8192, 5000, 600);
    assert_eq!(frames, 4096);
    assert_eq!(seq, 0);
    assert_eq!(h.midi_count, MAX_MIDI_EVENTS as u32);
    assert_eq!(h.flags, SHM_REQUEST_PROCESS);
    assert_eq!((h.channels_in, h.channels_out, h.magic), (2, 2, SHM_MAGIC));
    let (frames, seq) = prepare_process_request(&mut h, 256, 512, 3);
    assert_eq!((frames, seq, h.midi_count), (256, 1, 3));

    let events: Vec<ScheduledMidiEvent> = (0..600).map(|i| ScheduledMidiEvent::note_on(i, 60, 100, 0)).collect();
    let slots = shm_midi_slots(&events);
    assert_eq!(slots.len(), MAX_MIDI_EVENTS);
    assert_eq!(slots[511].sample_offset, 511);
    assert_eq!((slots[0].status, slots[0].data1, slots[0].data2, slots[0]._pad), (0x90, 60, 100, 0));

    h.worker_seq = 1;
    assert!(!completion_accepted(&h, 1));
    h.flags = SHM_PROCESS_DONE;
    assert!(completion_accepted(&h, 1));
    assert!(!completion_accepted(&h, 2));
}

#[test]
fn shortcuts_act_on_the_most_specific_selection() {
    let none = Selection {
        lower_tab: LowerTab::default(),
        notes: false,
        clip: false,
        node: false,
        track: false,
        note_clipboard: false,
        clip_clipboard: false,
    };
    assert_eq!(resolve_shortcut(ShortcutAction::DeleteSelection, none), EditorOp::Nothing);
    let notes = Selection { notes: true, clip: true, ..none };
    assert_eq!(resolve_shortcut(ShortcutAction::DeleteSelection, notes), EditorOp::RemoveNotes);
    assert_eq!(resolve_shortcut(ShortcutAction::Copy, notes), EditorOp::CopyNotes);
    let graph = Selection { lower_tab: LowerTab::Graph, ..notes };
    assert_eq!(resolve_shortcut(ShortcutAction::DeleteSelection, graph), EditorOp::RemoveNode);
    assert_eq!(resolve_shortcut(ShortcutAction::Copy, graph), EditorOp::CopyClip);
    let auto_tab = Selection { lower_tab: LowerTab::Automation, clip: true, node: true, ..none };
    assert_eq!(resolve_shortcut(ShortcutAction::DeleteSelection, auto_tab), EditorOp::RemoveClip);
    let track = Selection { track: true, lower_tab: LowerTab::Plugins, ..none };
    assert_eq!(resolve_shortcut(ShortcutAction::DeleteSelection, track), EditorOp::RemoveTrack);
    assert_eq!(resolve_shortcut(ShortcutAction::RenameTrack, track), EditorOp::RenameTrack);
    assert_eq!(resolve_shortcut(ShortcutAction::Paste, none), EditorOp::NothingToPaste);
    let both = Selection { note_clipboard: true, clip_clipboard: true, ..none };
    assert_eq!(resolve_shortcut(ShortcutAction::Paste, both), EditorOp::PasteNotes);
    assert_eq!(resolve_shortcut(ShortcutAction::Export, none), EditorOp::OpenExportDialog);
}

#[test]
fn migrating_twice_changes_nothing_more() {
    let mut node = GraphNode::sum_mixer("Bus".to_string());
    node.inputs.truncate(3);
    node.migrate_ports();
    let once: Vec<(u128, String, u32)> = node.inputs.iter().map(|p| (p.id, p.name.clone(), p.channel)).collect();
    node.migrate_ports();
    let twice: Vec<(u128, String, u32)> = node.inputs.iter().map(|p| (p.id, p.name.clone(), p.channel)).collect();
    assert_eq!(once, twice);
    assert_eq!(once.len(), 8);
}

#[test]
fn graph_migration_brings_a_legacy_mixer_up_to_date_in_place() {
    let mut g = AudioGraph::new();
    let mut legacy = GraphNode::sum_mixer("Bus".to_string());
    legacy.inputs.truncate(2);
    let kept_ids: Vec<u128> = legacy.inputs.iter().map(|p| p.id).collect();
    let bus = g.add_node(legacy);
    let synth = g.add_node(GraphNode::builtin_synth("Synth".to_string()));
    g.migrate_nodes();
    assert_eq!(g.nodes.len(), 2);
    assert_eq!(g.nodes[&bus].inputs.len(), MIXER_STRIP_COUNT * 2);
    assert_eq!(g.nodes[&bus].inputs[0].id, kept_ids[0]);
    assert_eq!(g.nodes[&bus].inputs[1].id, kept_ids[1]);
    assert_eq!(g.nodes[&bus].inputs[2].name, "L In B");
    assert_eq!(g.nodes[&synth].name, "Synth");
}

#[test]
fn node_kind_classification() {
    assert!(NodeKind::MidiMixer.is_midi_router());
    assert!(NodeKind::MidiSplitter.is_midi_router());
    assert!(!NodeKind::BuiltinSynth.is_midi_router());
    assert!(NodeKind::BuiltinSynth.has_builtin_editor());
    assert!(GraphNode::stereo_gain_pan("G".to_string()).kind.has_builtin_editor());
    assert!(!NodeKind::MidiMixer.has_builtin_editor());
    assert!(!NodeKind::MasterOutput.has_builtin_editor());
}

#[test]
fn plugin_instrument_node_carries_its_plugin() {
    let node = GraphNode::plugin_instrument(
        7,
        "vst3".to_string(),
        "uid".to_string(),
        "/p.vst3".to_string(),
        "Keys".to_string(),
    );
    assert_eq!(node.name, "Keys");
    match &node.kind {
        NodeKind::PluginInstrument { instance_id, plugin_format, plugin_uid, plugin_path, plugin_name, failed } => {
            assert_eq!(*instance_id, 7);
            assert_eq!(plugin_format, "vst3");
            assert_eq!(plugin_uid, "uid");
            assert_eq!(plugin_path, "/p.vst3");
            assert_eq!(plugin_name, "Keys");
            assert!(!*failed);
        }
        other => panic!("unexpected {other:?}"),
    }
    assert!(node.inputs.iter().any(|p| p.port_type == PortType::Midi));
    assert_eq!(node.outputs.len(), 2);
}

#[test]
fn shared_transport_reads_back_what_was_stored() {
    let t = SharedTransport::new();
    assert_eq!(t.state(), TransportState::Stopped);
    assert_eq!(t.position().samples(), 0);
    t.set_state(TransportState::Playing);
    t.set_position(SamplePos::new(4800));
    assert_eq!(t.state(), TransportState::Playing);
    assert_eq!(t.position().samples(), 4800);
    t.set_state(TransportState::Paused);
    assert_eq!(t.state(), TransportState::Paused);
}
