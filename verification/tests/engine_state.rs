use cottdaw::schedule::{notes_held_at, schedule_block, TimedNote};
use cottdaw::engine::{clip_source_tracks, AudioProcessor, TransportCommand, MAX_PANIC_EVENTS};
use cottdaw::project::Project;
use cottdaw::time::{SamplePos, TransportState};

fn held_for(tracks: &[u128]) -> Vec<Vec<(u8, u8)>> {
    tracks.iter().map(|_| Vec::new()).collect()
}

fn project_with_instrument(name: &str) -> Project {
    let mut project = Project::new(name.to_string());
    let track = project.add_midi_track("Synth".to_string(), 0);
    let _ = project.attach_instrument(track, "stub".to_string(), "/dev/null".to_string(), "Stub".to_string());
    project
}

#[test]
fn stop_flushes_midi_panic_to_instruments() {
    let project = project_with_instrument("panic");
    let plan = project.compiled_plan();
    let tracks = clip_source_tracks(&plan);
    assert_eq!(tracks.len(), 1);
    let mut proc = AudioProcessor::new();
    proc.transport = TransportState::Playing;

    let cmd = TransportCommand::SetTransport(TransportState::Stopped);
    assert!(proc.panic_needed(&cmd));
    proc.handle_command(cmd, &tracks, &held_for(&tracks));
    let (midi, audition) = proc.take_block_midi(512);
    assert!(audition);
    assert!(midi.iter().any(|(_, e)| e.status & 0xf0 == 0xb0 && e.data1 == 123));
    assert!(midi.iter().any(|(_, e)| e.status & 0xf0 == 0xb0 && e.data1 == 120));
    assert!(midi.iter().filter(|(_, e)| e.status & 0xf0 == 0x80).count() >= 128);
    assert_eq!(proc.position, SamplePos(0));
    assert!(proc.pending_panic_midi.is_empty());
}

#[test]
fn seek_queues_midi_panic() {
    let project = project_with_instrument("seek");
    let plan = project.compiled_plan();
    let tracks = clip_source_tracks(&plan);
    let mut proc = AudioProcessor::new();
    proc.handle_command(TransportCommand::Seek(SamplePos(1000)), &tracks, &held_for(&tracks));
    assert_eq!(proc.position, SamplePos(1000));
    let (midi, _) = proc.take_block_midi(256);
    assert!(midi.iter().any(|(_, e)| e.status & 0xf0 == 0xb0 && e.data1 == 123));
}

#[test]
fn held_notes_are_released_first_and_panic_is_capped() {
    let mut proc = AudioProcessor::new();
    let tracks: Vec<u128> = (1..=5).collect();
    let mut held = held_for(&tracks);
    held[0] = vec![(60, 0), (64, 1)];
    proc.queue_midi_panic(&tracks, &held);
    assert_eq!(proc.pending_panic_midi.len(), MAX_PANIC_EVENTS);
    assert_eq!(proc.pending_panic_midi[0].0, 1);
    assert_eq!(proc.pending_panic_midi[0].1.status, 0x80);
    assert_eq!(proc.pending_panic_midi[0].1.data1, 60);
    assert_eq!(proc.pending_panic_midi[1].1.status, 0x81);
    assert_eq!(proc.pending_panic_midi[2].1.data1, 0);
}

#[test]
fn previews_retrigger_and_end_within_the_block() {
    let mut proc = AudioProcessor::new();
    let t = 7u128;
    let none: Vec<u128> = Vec::new();
    let cmd = TransportCommand::PreviewNote { track_id: t, pitch: 200, velocity: 0, duration_samples: 300 };
    assert!(!proc.panic_needed(&cmd));
    proc.handle_command(cmd, &none, &Vec::new());
    assert_eq!(proc.previews.len(), 1);
    assert_eq!(proc.previews[0].pitch, 127);
    assert_eq!(proc.previews[0].velocity, 1);

    let first = proc.tick_previews(256);
    assert_eq!(first.len(), 1);
    assert_eq!(first[0].1.status, 0x90);
    assert_eq!(proc.previews[0].samples_left, 44);
    assert!(proc.previews[0].sent_on);

    proc.start_preview(t, 60, 100, 1000);
    assert_eq!(proc.previews.len(), 1);
    assert_eq!(proc.previews[0].pitch, 60);
    assert_eq!(proc.pending_preview_midi.len(), 1);
    assert_eq!(proc.pending_preview_midi[0].1.status, 0x80);
    assert_eq!(proc.pending_preview_midi[0].1.data1, 127);

    let second = proc.tick_previews(2000);
    assert_eq!(second.len(), 3);
    assert_eq!(second[0].1.sample_offset, 0);
    assert_eq!(second[0].1.status, 0x80);
    assert_eq!(second[1].1.status, 0x90);
    assert_eq!(second[2].1.status, 0x80);
    assert_eq!(second[2].1.sample_offset, 1000);
    assert!(proc.previews.is_empty());
}

#[test]
fn previews_are_ignored_while_playing() {
    let mut proc = AudioProcessor::new();
    proc.transport = TransportState::Playing;
    proc.start_preview(1, 60, 100, 10);
    assert!(proc.previews.is_empty());
}

#[test]
fn playing_wraps_at_the_loop_end() {
    let mut proc = AudioProcessor::new();
    let none: Vec<u128> = Vec::new();
    proc.handle_command(
        TransportCommand::SetLoop { enabled: true, start: SamplePos(100), end: SamplePos(1000) },
        &none,
        &Vec::new(),
    );
    assert!(!proc.advance(512));
    assert_eq!(proc.position, SamplePos(0));
    proc.handle_command(TransportCommand::SetTransport(TransportState::Playing), &none, &Vec::new());
    assert!(!proc.advance(512));
    assert_eq!(proc.position, SamplePos(512));
    assert!(proc.advance(512));
    assert_eq!(proc.hold_position(), SamplePos(1023));
    proc.wrap_loop(&none, &Vec::new());
    assert_eq!(proc.position, SamplePos(100));
}

#[test]
fn block_scheduling_picks_the_events_inside_the_block() {
    let notes = vec![
        TimedNote { pitch: 60, velocity: 100, channel: 0, on: 0, off: 600 },
        TimedNote { pitch: 64, velocity: 90, channel: 1, on: 100, off: 200 },
        TimedNote { pitch: 67, velocity: 80, channel: 0, on: 512, off: 700 },
    ];
    let first = schedule_block(&notes, 0, 512);
    let got: Vec<(u32, u8, u8, u8)> = first.iter().map(|e| (e.sample_offset, e.status, e.data1, e.data2)).collect();
    assert_eq!(got, vec![(0, 0x90, 60, 100), (100, 0x91, 64, 90), (200, 0x81, 64, 0)]);
    let second = schedule_block(&notes, 512, 512);
    let got: Vec<(u32, u8, u8)> = second.iter().map(|e| (e.sample_offset, e.status, e.data1)).collect();
    assert_eq!(got, vec![(0, 0x90, 67), (88, 0x80, 60), (188, 0x80, 67)]);
    let late_first = vec![
        TimedNote { pitch: 60, velocity: 100, channel: 0, on: 10, off: 20 },
        TimedNote { pitch: 62, velocity: 100, channel: 0, on: 5, off: 10 },
    ];
    let got: Vec<(u32, u8, u8)> =
        schedule_block(&late_first, 0, 512).iter().map(|e| (e.sample_offset, e.status, e.data1)).collect();
    // At offset 10 the note-off goes before the note-on.
    assert_eq!(got, vec![(5, 0x90, 62), (10, 0x80, 62), (10, 0x90, 60), (20, 0x80, 60)]);
    assert!(schedule_block(&notes, i64::MAX - 10, 512).is_empty());
}

#[test]
fn held_notes_are_listed_once() {
    let notes = vec![
        TimedNote { pitch: 60, velocity: 100, channel: 0, on: 0, off: 600 },
        TimedNote { pitch: 60, velocity: 100, channel: 16, on: 100, off: 700 },
        TimedNote { pitch: 200, velocity: 100, channel: 2, on: 100, off: 101 },
        TimedNote { pitch: 64, velocity: 100, channel: 0, on: 600, off: 900 },
    ];
    assert_eq!(notes_held_at(&notes, 100), vec![(60, 0), (127, 2)]);
    assert_eq!(notes_held_at(&notes, 600), vec![(60, 0), (64, 0)]);
    assert!(notes_held_at(&notes, 900).is_empty());
}

#[test]
fn two_adjacent_blocks_hold_the_events_of_one() {
    let notes = vec![
        TimedNote { pitch: 60, velocity: 100, channel: 0, on: 100, off: 700 },
        TimedNote { pitch: 64, velocity: 90, channel: 1, on: 300, off: 520 },
        TimedNote { pitch: 67, velocity: 80, channel: 0, on: 512, off: 1000 },
    ];
    let key = |e: &cottdaw::clips::ScheduledMidiEvent, shift: u32| (e.sample_offset + shift, e.status, e.data1, e.data2);
    let mut split: Vec<_> = schedule_block(&notes, 0, 512).iter().map(|e| key(e, 0)).collect();
    split.extend(schedule_block(&notes, 512, 512).iter().map(|e| key(e, 512)));
    let whole: Vec<_> = schedule_block(&notes, 0, 1024).iter().map(|e| key(e, 0)).collect();
    assert_eq!(split, whole);
}
