use cottdaw::clips::{Clip, ClipContent, MidiNote};
use cottdaw::commands::{apply, Command, CommandStack, PointEdit};
use cottdaw::graph::{GraphNode, NodeKind};
use cottdaw::project::{AutomationPoint, AutomationTarget, Project};
use cottdaw::session::{clip_removal_command, gain_command};

fn beats(x: f64) -> u64 {
    x.to_bits()
}

fn row(p: &Project) -> u32 {
    (p.tracks.len() as f32 * 100.0).to_bits()
}

fn add_midi_track(p: &mut Project, name: &str) -> u128 {
    let y = row(p);
    p.add_midi_track(name.to_string(), y)
}

fn note(pitch: u8) -> MidiNote {
    MidiNote::new(pitch, 100, beats(0.0), beats(1.0))
}

fn node_ids(t: &cottdaw::clips::Track) -> Vec<u128> {
    [t.midi_source_node, t.gain_node, t.instrument_node, t.audio_source_node]
        .into_iter()
        .flatten()
        .collect()
}

#[test]
fn undo_redo_clip() {
    let mut project = Project::new("t".to_string());
    let track = add_midi_track(&mut project, "A");
    let mut stack = CommandStack::default();
    let clip = Clip::new_midi(track, "C".to_string(), beats(0.0), beats(4.0));
    stack.push(&mut project, Command::AddClip { clip: clip.clone() });
    assert_eq!(project.clips.len(), 1);
    assert!(stack.undo(&mut project));
    assert!(project.clips.is_empty());
    assert!(stack.redo(&mut project));
    assert_eq!(project.clips.len(), 1);
}

#[test]
fn chord_notes_undo_as_one_command() {
    let mut project = Project::new("t".to_string());
    let track = add_midi_track(&mut project, "A");
    let clip = Clip::new_midi(track, "C".to_string(), beats(0.0), beats(4.0));
    let clip_id = clip.id;
    project.clips.push(clip);
    let notes: Vec<MidiNote> = [60, 64, 67].map(note).to_vec();
    let mut stack = CommandStack::default();
    stack.push(&mut project, Command::AddNotes { clip_id, notes: notes.clone() });
    assert_eq!(project.clips[0].notes().unwrap().len(), 3);
    assert!(stack.undo(&mut project));
    assert!(project.clips[0].notes().unwrap().is_empty());
    assert!(stack.redo(&mut project));
    assert_eq!(project.clips[0].notes().unwrap().len(), 3);
}

#[test]
fn remove_notes_undo_as_one_command() {
    let mut project = Project::new("t".to_string());
    let track = add_midi_track(&mut project, "A");
    let clip = Clip::new_midi(track, "C".to_string(), beats(0.0), beats(4.0));
    let clip_id = clip.id;
    project.clips.push(clip);
    let notes: Vec<MidiNote> = [60, 64, 67].map(note).to_vec();
    let mut stack = CommandStack::default();
    stack.push(&mut project, Command::AddNotes { clip_id, notes: notes.clone() });
    stack.push(&mut project, Command::RemoveNotes { clip_id, notes: notes.clone() });
    assert!(project.clips[0].notes().unwrap().is_empty());
    assert!(stack.undo(&mut project));
    assert_eq!(project.clips[0].notes().unwrap().len(), 3);
    assert!(stack.redo(&mut project));
    assert!(project.clips[0].notes().unwrap().is_empty());
}

#[test]
fn edit_notes_undo_as_one_command() {
    let mut project = Project::new("t".to_string());
    let track = add_midi_track(&mut project, "A");
    let clip = Clip::new_midi(track, "C".to_string(), beats(0.0), beats(4.0));
    let clip_id = clip.id;
    project.clips.push(clip);
    let before: Vec<MidiNote> = [60, 64].map(note).to_vec();
    let after: Vec<MidiNote> = before
        .iter()
        .map(|n| MidiNote {
            pitch: n.pitch + 2,
            start_beats: beats(f64::from_bits(n.start_beats) + 1.0),
            ..*n
        })
        .collect();
    let mut stack = CommandStack::default();
    stack.push(&mut project, Command::AddNotes { clip_id, notes: before.clone() });
    stack.push(&mut project, Command::EditNotes { clip_id, before: before.clone(), after: after.clone() });
    let notes = project.clips[0].notes().unwrap();
    assert_eq!(notes[0].pitch, 62);
    assert!((f64::from_bits(notes[0].start_beats) - 1.0).abs() < 1e-9);
    assert!(stack.undo(&mut project));
    let notes = project.clips[0].notes().unwrap();
    assert_eq!(notes[0].pitch, 60);
    assert!(f64::from_bits(notes[0].start_beats).abs() < 1e-9);
}

#[test]
fn set_clip_track_moves_and_undoes() {
    let mut project = Project::new("t".to_string());
    let a = add_midi_track(&mut project, "A");
    let b = add_midi_track(&mut project, "B");
    let clip = Clip::new_midi(a, "C".to_string(), beats(0.0), beats(4.0));
    let clip_id = clip.id;
    let mut stack = CommandStack::default();
    stack.push(&mut project, Command::AddClip { clip });
    stack.push(&mut project, Command::SetClipTrack { clip_id, old_track: a, new_track: b });
    assert_eq!(project.clips.iter().find(|c| c.id == clip_id).unwrap().track_id, b);
    assert!(stack.undo(&mut project));
    assert_eq!(project.clips.iter().find(|c| c.id == clip_id).unwrap().track_id, a);
    assert!(stack.redo(&mut project));
    assert_eq!(project.clips.iter().find(|c| c.id == clip_id).unwrap().track_id, b);
}

#[test]
fn remove_track_takes_clips_and_nodes_and_undoes() {
    let mut project = Project::new("t".to_string());
    let track_id = add_midi_track(&mut project, "Synth");
    let track = project.tracks.iter().find(|t| t.id == track_id).unwrap().clone();
    let clip = Clip::new_midi(track_id, "C".to_string(), beats(0.0), beats(4.0));
    project.clips.push(clip);
    let ids = node_ids(&track);
    let nodes: Vec<GraphNode> = ids.iter().filter_map(|nid| project.graph.nodes.get(nid).cloned()).collect();
    let edges: Vec<_> = project
        .graph
        .edges
        .values()
        .filter(|e| ids.contains(&e.from_node) || ids.contains(&e.to_node))
        .cloned()
        .collect();
    let clips: Vec<Clip> = project.clips.iter().filter(|c| c.track_id == track_id).cloned().collect();
    let mut stack = CommandStack::default();
    stack.push(&mut project, Command::RemoveTrack { track, clips, nodes, edges });
    assert!(!project.tracks.iter().any(|t| t.id == track_id));
    assert!(!project.clips.iter().any(|c| c.track_id == track_id));
    for nid in &ids {
        assert!(!project.graph.nodes.contains_key(nid));
    }
    assert!(stack.undo(&mut project));
    assert!(project.tracks.iter().any(|t| t.id == track_id));
    assert_eq!(project.clips.iter().filter(|c| c.track_id == track_id).count(), 1);
    for nid in &ids {
        assert!(project.graph.nodes.contains_key(nid));
    }
}

#[test]
fn undo_redo_add_node() {
    let mut project = Project::new("t".to_string());
    let mut stack = CommandStack::default();
    let mut node = GraphNode::stereo_gain_pan("Gain".to_string());
    node.position = [10.0f32.to_bits(), 20.0f32.to_bits()];
    let id = node.id;
    stack.push(&mut project, Command::AddNode { node });
    assert!(project.graph.nodes.contains_key(&id));
    assert!(stack.undo(&mut project));
    assert!(!project.graph.nodes.contains_key(&id));
    assert!(stack.redo(&mut project));
    assert!(project.graph.nodes.contains_key(&id));
}

#[test]
fn record_add_track_undo_removes_track() {
    let mut project = Project::new("t".to_string());
    let id = add_midi_track(&mut project, "MIDI 2");
    let track = project.tracks.iter().find(|t| t.id == id).unwrap().clone();
    let ids = node_ids(&track);
    let nodes: Vec<GraphNode> = ids.iter().filter_map(|nid| project.graph.nodes.get(nid).cloned()).collect();
    let edges: Vec<_> = project
        .graph
        .edges
        .values()
        .filter(|e| ids.contains(&e.from_node) || ids.contains(&e.to_node))
        .cloned()
        .collect();
    let mut stack = CommandStack::default();
    stack.record(Command::AddTrack { track, nodes, edges });
    assert!(project.tracks.iter().any(|t| t.id == id));
    assert!(stack.undo(&mut project));
    assert!(!project.tracks.iter().any(|t| t.id == id));
    for nid in &ids {
        assert!(!project.graph.nodes.contains_key(nid));
    }
}

#[test]
fn undo_remove_node_restores_instrument_track_link() {
    let mut project = Project::new("t".to_string());
    let track = add_midi_track(&mut project, "Synth");
    let (node_id, _) = project
        .attach_instrument(track, "uid".to_string(), "/tmp/x.vst3".to_string(), "X".to_string())
        .unwrap();
    let node = project.graph.nodes[&node_id].clone();
    let plugin_state = match &node.kind {
        NodeKind::PluginInstrument { instance_id, .. } => project.plugin_states.get(instance_id).cloned(),
        _ => None,
    };
    let edges: Vec<_> = project
        .graph
        .edges
        .values()
        .filter(|e| e.from_node == node_id || e.to_node == node_id)
        .cloned()
        .collect();
    let mut stack = CommandStack::default();
    stack.push(&mut project, Command::RemoveNode { node, edges, instrument_track: Some(track), plugin_state });
    assert!(project.tracks.iter().find(|t| t.id == track).unwrap().instrument_node.is_none());
    assert!(stack.undo(&mut project));
    assert_eq!(project.tracks.iter().find(|t| t.id == track).unwrap().instrument_node, Some(node_id));
    assert!(project.graph.nodes.contains_key(&node_id));
}

#[test]
fn stack_flags_and_depth() {
    let mut project = Project::new("t".to_string());
    let mut stack = CommandStack::default();
    assert_eq!(stack.max_depth, 256);
    assert!(!stack.can_undo());
    assert!(!stack.can_redo());
    assert!(!stack.undo(&mut project));
    assert!(!stack.redo(&mut project));
    stack.max_depth = 2;
    for bpm in [100.0f64, 110.0, 130.0] {
        let old = project.tempo.bpm;
        stack.push(&mut project, Command::SetTempo { old_bpm: old, new_bpm: bpm.to_bits() });
    }
    assert_eq!(f64::from_bits(project.tempo.bpm), 130.0);
    assert!(stack.undo(&mut project));
    assert!(stack.undo(&mut project));
    assert!(!stack.undo(&mut project));
    assert_eq!(f64::from_bits(project.tempo.bpm), 100.0);
    assert!(stack.can_redo());
    assert!(stack.redo(&mut project));
    assert_eq!(f64::from_bits(project.tempo.bpm), 110.0);
    stack.record(Command::SetTempo { old_bpm: project.tempo.bpm, new_bpm: project.tempo.bpm });
    assert!(!stack.can_redo());
}

#[test]
fn time_signature_is_raised_to_one() {
    let mut project = Project::new("t".to_string());
    let cmd = Command::SetTimeSignature { old_beats_per_bar: 4, new_beats_per_bar: 0, old_beat_unit: 4, new_beat_unit: 8 };
    apply(&mut project, &cmd, false);
    assert_eq!(project.tempo.beats_per_bar, 1);
    assert_eq!(project.tempo.beat_unit, 8);
    // One eighth note: half a quarter-note beat.
    assert_eq!(project.tempo.bar_length_beats(), (4, 8));
    apply(&mut project, &cmd, true);
    assert_eq!(project.tempo.beats_per_bar, 4);
    assert_eq!(project.tempo.beat_unit, 4);
}

#[test]
fn move_clip_and_edit_note_round_trip() {
    let mut project = Project::new("t".to_string());
    let track = add_midi_track(&mut project, "A");
    let mut clip = Clip::new_midi(track, "C".to_string(), beats(2.0), beats(4.0));
    let n = note(60);
    if let ClipContent::Midi { notes, .. } = &mut clip.content {
        notes.push(n);
    }
    let clip_id = clip.id;
    project.clips.push(clip);
    let mut stack = CommandStack::default();
    stack.push(&mut project, Command::MoveClip {
        clip_id,
        old_start: beats(2.0),
        new_start: beats(6.0),
        old_length: beats(4.0),
        new_length: beats(3.0),
    });
    assert_eq!(f64::from_bits(project.clips[0].start_beats), 6.0);
    assert_eq!(f64::from_bits(project.clips[0].length_beats), 3.0);
    let after = MidiNote { pitch: 72, ..n };
    stack.push(&mut project, Command::EditNote { clip_id, note_id: n.id, before: n, after });
    assert_eq!(project.clips[0].notes().unwrap()[0].pitch, 72);
    assert!(stack.undo(&mut project));
    assert_eq!(project.clips[0].notes().unwrap()[0], n);
    assert!(stack.undo(&mut project));
    assert_eq!(f64::from_bits(project.clips[0].start_beats), 2.0);
    assert_eq!(f64::from_bits(project.clips[0].length_beats), 4.0);
}

#[test]
fn gain_pan_is_set_and_restored() {
    let mut project = Project::new("t".to_string());
    let track = add_midi_track(&mut project, "A");
    let gain = project.tracks.iter().find(|t| t.id == track).unwrap().gain_node.unwrap();
    let cmd = Command::SetGainPan {
        node_id: gain,
        old_gain: 0,
        new_gain: (-6.0f32).to_bits(),
        old_pan: 0,
        new_pan: 0.5f32.to_bits(),
        old_mute: false,
        new_mute: true,
    };
    apply(&mut project, &cmd, false);
    match &project.graph.nodes[&gain].kind {
        NodeKind::GainPan { gain_db, pan, mute, solo } => {
            assert_eq!(f32::from_bits(*gain_db), -6.0);
            assert_eq!(f32::from_bits(*pan), 0.5);
            assert!(*mute);
            assert!(!*solo);
        }
        other => panic!("unexpected {other:?}"),
    }
    apply(&mut project, &cmd, true);
    match &project.graph.nodes[&gain].kind {
        NodeKind::GainPan { gain_db, pan, mute, .. } => {
            assert_eq!(*gain_db, 0);
            assert_eq!(*pan, 0);
            assert!(!*mute);
        }
        other => panic!("unexpected {other:?}"),
    }
}

#[test]
fn automation_point_edits_are_handed_back() {
    let mut project = Project::new("t".to_string());
    let lane_id = uuid::Uuid::new_v4().as_u128();
    let target = AutomationTarget::NodeGain { node_id: project.master_node };
    let new_point = AutomationPoint { beat: beats(1.0), value: 0.5f32.to_bits() };
    let cmd = Command::SetAutomationPoint { lane_id, target, created_lane: true, old_point: None, new_point };
    let mut stack = CommandStack::default();
    stack.push(&mut project, cmd);
    assert_eq!(project.automation.len(), 1);
    assert_eq!(project.automation[0].id, lane_id);
    assert!(project.automation[0].enabled);
    assert_eq!(
        stack.take_point_edit(),
        Some(PointEdit { lane: 0, remove_at: None, add: Some(new_point) })
    );
    assert_eq!(stack.take_point_edit(), None);
    assert!(stack.undo(&mut project));
    assert!(project.automation.is_empty());
    assert_eq!(stack.take_point_edit(), None);
}

#[test]
fn undoing_a_note_removal_puts_the_note_last() {
    let mut project = Project::new("t".to_string());
    let track = add_midi_track(&mut project, "A");
    let clip = Clip::new_midi(track, "C".to_string(), beats(0.0), beats(4.0));
    let clip_id = clip.id;
    project.clips.push(clip);
    let notes: Vec<MidiNote> = [60, 64, 67].map(note).to_vec();
    let mut stack = CommandStack::default();
    stack.push(&mut project, Command::AddNotes { clip_id, notes: notes.clone() });
    stack.push(&mut project, Command::RemoveNote { clip_id, note: notes[0] });
    let pitches: Vec<u8> = project.clips[0].notes().unwrap().iter().map(|n| n.pitch).collect();
    assert_eq!(pitches, vec![64, 67]);
    assert!(stack.undo(&mut project));
    let pitches: Vec<u8> = project.clips[0].notes().unwrap().iter().map(|n| n.pitch).collect();
    assert_eq!(pitches, vec![64, 67, 60]);
    // Removing the last note and undoing gives the same notes back.
    stack.push(&mut project, Command::RemoveNote { clip_id, note: notes[0] });
    assert!(stack.undo(&mut project));
    let pitches: Vec<u8> = project.clips[0].notes().unwrap().iter().map(|n| n.pitch).collect();
    assert_eq!(pitches, vec![64, 67, 60]);
}

#[test]
fn undoing_a_group_removal_appends_the_group_in_order() {
    let mut project = Project::new("t".to_string());
    let track = add_midi_track(&mut project, "A");
    let clip = Clip::new_midi(track, "C".to_string(), beats(0.0), beats(4.0));
    let clip_id = clip.id;
    project.clips.push(clip);
    let notes: Vec<MidiNote> = [60, 64, 67, 72].map(note).to_vec();
    let mut stack = CommandStack::default();
    stack.push(&mut project, Command::AddNotes { clip_id, notes: notes.clone() });
    let removed = vec![notes[2], notes[0]];
    stack.push(&mut project, Command::RemoveNotes { clip_id, notes: removed });
    assert!(stack.undo(&mut project));
    let pitches: Vec<u8> = project.clips[0].notes().unwrap().iter().map(|n| n.pitch).collect();
    assert_eq!(pitches, vec![64, 72, 67, 60]);
}

#[test]
fn undoing_a_clip_removal_puts_the_clip_last() {
    let mut project = Project::new("t".to_string());
    let track = add_midi_track(&mut project, "A");
    let first = Clip::new_midi(track, "First".to_string(), beats(0.0), beats(4.0));
    let second = Clip::new_midi(track, "Second".to_string(), beats(4.0), beats(4.0));
    let mut stack = CommandStack::default();
    stack.push(&mut project, Command::AddClip { clip: first.clone() });
    stack.push(&mut project, Command::AddClip { clip: second.clone() });
    stack.push(&mut project, Command::RemoveClip { clip: first.clone() });
    assert_eq!(project.clips.len(), 1);
    assert!(stack.undo(&mut project));
    let names: Vec<&str> = project.clips.iter().map(|c| c.name.as_str()).collect();
    assert_eq!(names, vec!["Second", "First"]);
}

#[test]
fn removing_and_restoring_a_gain_stage_keeps_the_other_nodes() {
    let mut project = Project::new("t".to_string());
    let track = add_midi_track(&mut project, "A");
    let gain = project.tracks.iter().find(|t| t.id == track).unwrap().gain_node.unwrap();
    let node = project.graph.nodes[&gain].clone();
    let edges: Vec<_> = project
        .graph
        .edges
        .values()
        .filter(|e| e.from_node == gain || e.to_node == gain)
        .cloned()
        .collect();
    let before: Vec<(u128, String)> = project.graph.nodes.values().map(|n| (n.id, n.name.clone())).collect();
    let cmd = Command::RemoveNode { node, edges, instrument_track: None, plugin_state: None };
    apply(&mut project, &cmd, false);
    assert!(!project.graph.nodes.contains_key(&gain));
    apply(&mut project, &cmd, true);
    let mut after: Vec<(u128, String)> = project.graph.nodes.values().map(|n| (n.id, n.name.clone())).collect();
    assert_eq!(after.last().map(|n| n.0), Some(gain));
    let mut sorted_before = before.clone();
    sorted_before.sort();
    after.sort();
    assert_eq!(after, sorted_before);
}

#[test]
fn gain_command_records_what_it_replaces() {
    let mut project = Project::new("t".to_string());
    let track = add_midi_track(&mut project, "A");
    let gain = project.tracks.iter().find(|t| t.id == track).unwrap().gain_node.unwrap();
    let half = 0.5f32.to_bits();
    let first = gain_command(&project.graph, gain, (-3.0f32).to_bits()).unwrap();
    apply(&mut project, &first, false);
    let second = gain_command(&project.graph, gain, half).unwrap();
    match &second {
        Command::SetGainPan { node_id, old_gain, new_gain, old_pan, new_pan, old_mute, new_mute } => {
            assert_eq!(*node_id, gain);
            assert_eq!(f32::from_bits(*old_gain), -3.0);
            assert_eq!(*new_gain, half);
            assert_eq!(old_pan, new_pan);
            assert_eq!(old_mute, new_mute);
        }
        _ => panic!("expected a gain command"),
    }
    apply(&mut project, &second, false);
    apply(&mut project, &second, true);
    match &project.graph.nodes[&gain].kind {
        NodeKind::GainPan { gain_db, .. } => assert_eq!(f32::from_bits(*gain_db), -3.0),
        _ => panic!("gain stage expected"),
    }
    assert!(gain_command(&project.graph, project.master_node, half).is_none());
    assert!(gain_command(&project.graph, 12345, half).is_none());
}

#[test]
fn clip_removal_command_copies_the_clip() {
    let mut project = Project::new("t".to_string());
    let track = add_midi_track(&mut project, "A");
    let clip = Clip::new_midi(track, "C".to_string(), beats(2.0), beats(4.0));
    let clip_id = clip.id;
    project.clips.push(clip);
    let cmd = clip_removal_command(&project.clips, clip_id).unwrap();
    match &cmd {
        Command::RemoveClip { clip } => {
            assert_eq!(clip.id, clip_id);
            assert_eq!(clip.name, "C");
            assert_eq!(f64::from_bits(clip.start_beats), 2.0);
        }
        _ => panic!("expected a clip removal"),
    }
    assert!(clip_removal_command(&project.clips, 99).is_none());
    apply(&mut project, &cmd, false);
    assert!(project.clips.is_empty());
    apply(&mut project, &cmd, true);
    assert_eq!(project.clips.len(), 1);
}

#[test]
fn bar_length_is_counted_in_quarter_notes() {
    let mut project = Project::new("t".to_string());
    assert_eq!(project.tempo.bar_length_beats(), (16, 4));
    let cmd = Command::SetTimeSignature { old_beats_per_bar: 4, new_beats_per_bar: 6, old_beat_unit: 4, new_beat_unit: 8 };
    apply(&mut project, &cmd, false);
    let (num, den) = project.tempo.bar_length_beats();
    assert_eq!(num as f64 / den as f64, 3.0);
    let cmd = Command::SetTimeSignature { old_beats_per_bar: 6, new_beats_per_bar: 7, old_beat_unit: 8, new_beat_unit: 8 };
    apply(&mut project, &cmd, false);
    let (num, den) = project.tempo.bar_length_beats();
    assert_eq!(num as f64 / den as f64, 3.5);
}

#[test]
fn redo_after_undo_removes_the_notes_again() {
    let mut project = Project::new("t".to_string());
    let track = add_midi_track(&mut project, "A");
    let clip = Clip::new_midi(track, "C".to_string(), beats(0.0), beats(4.0));
    let clip_id = clip.id;
    project.clips.push(clip);
    let notes: Vec<MidiNote> = [60, 64, 67].map(note).to_vec();
    let mut stack = CommandStack::default();
    stack.push(&mut project, Command::AddNotes { clip_id, notes: notes.clone() });
    stack.push(&mut project, Command::RemoveNotes { clip_id, notes: vec![notes[1]] });
    let after_push: Vec<u8> = project.clips[0].notes().unwrap().iter().map(|n| n.pitch).collect();
    assert!(stack.undo(&mut project));
    assert!(stack.redo(&mut project));
    let after_redo: Vec<u8> = project.clips[0].notes().unwrap().iter().map(|n| n.pitch).collect();
    assert_eq!(after_redo, after_push);
    assert_eq!(after_redo, vec![60, 67]);
}

#[test]
fn commands_run_on_a_graph_with_a_dangling_wire() {
    let mut project = Project::new("t".to_string());
    let track = add_midi_track(&mut project, "MIDI 1");
    let missing = 0x0123_4567_89ab_4def_8123_4567_89ab_cdefu128;
    let stray = cottdaw::graph::GraphEdge { id: 7, from_node: project.master_node, from_port: 1, to_node: missing, to_port: 2 };
    project.graph.edges.insert(stray.id, stray);
    assert!(!project.graph.is_linked());
    assert!(project.has_distinct_keys());
    let edges_before = project.graph.edges.len();
    let mut stack = CommandStack::default();
    let node = GraphNode::stereo_gain_pan("Extra".to_string());
    let id = node.id;
    stack.push(&mut project, Command::AddNode { node });
    assert!(project.graph.nodes.contains_key(&id));
    let clip = Clip::new_midi(track, "Clip".to_string(), beats(0.0), beats(4.0));
    stack.push(&mut project, Command::AddClip { clip });
    assert_eq!(project.clips.len(), 1);
    assert!(stack.undo(&mut project));
    assert!(stack.undo(&mut project));
    assert!(!project.graph.nodes.contains_key(&id));
    assert!(project.clips.is_empty());
    assert_eq!(project.graph.edges.len(), edges_before);
    assert!(project.graph.edges.contains_key(&7));
    assert!(project.try_compiled_plan().is_ok());
}
