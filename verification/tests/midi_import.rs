use cottdaw::import::{import_midi_notes, pair_track_notes, ImportError, MidiTiming, NoteMessage, TickNote, TrackEvent};
use midly::{Format, Header, MetaMessage, MidiMessage, Smf, Timing, TrackEventKind};

fn note_event(delta: u32, channel: u8, key: u8, vel: u8, on: bool) -> midly::TrackEvent<'static> {
    let message = if on {
        MidiMessage::NoteOn { key: key.into(), vel: vel.into() }
    } else {
        MidiMessage::NoteOff { key: key.into(), vel: vel.into() }
    };
    midly::TrackEvent { delta: delta.into(), kind: TrackEventKind::Midi { channel: channel.into(), message } }
}

fn end_of_track() -> midly::TrackEvent<'static> {
    midly::TrackEvent { delta: 0.into(), kind: TrackEventKind::Meta(MetaMessage::EndOfTrack) }
}

#[test]
fn parse_simple_midi_bytes() {
    let smf = Smf {
        header: Header::new(Format::SingleTrack, Timing::Metrical(480.into())),
        tracks: vec![vec![end_of_track()]],
    };
    let mut buf = Vec::new();
    smf.write(&mut buf).unwrap();
    let (timing, notes) = import_midi_notes(&buf).unwrap();
    assert_eq!(timing, MidiTiming::Metrical(480));
    assert!(notes.is_empty());
}

#[test]
fn notes_are_paired_per_channel_and_key() {
    let smf = Smf {
        header: Header::new(Format::Parallel, Timing::Metrical(96.into())),
        tracks: vec![
            vec![
                note_event(0, 0, 60, 100, true),
                note_event(48, 1, 60, 90, true),
                note_event(48, 0, 60, 0, false),
                note_event(0, 0, 64, 80, true),
                note_event(96, 0, 64, 0, true),
                note_event(0, 1, 60, 0, false),
                end_of_track(),
            ],
            vec![note_event(10, 2, 67, 70, true), note_event(20, 2, 67, 0, false), end_of_track()],
        ],
    };
    let mut buf = Vec::new();
    smf.write(&mut buf).unwrap();
    let (timing, notes) = import_midi_notes(&buf).unwrap();
    assert_eq!(timing, MidiTiming::Metrical(96));
    assert_eq!(
        notes,
        vec![
            TickNote { key: 60, velocity: 100, channel: 0, start: 0, end: 96 },
            TickNote { key: 64, velocity: 80, channel: 0, start: 96, end: 192 },
            TickNote { key: 60, velocity: 90, channel: 1, start: 48, end: 192 },
            TickNote { key: 67, velocity: 70, channel: 2, start: 10, end: 30 },
        ]
    );
}

#[test]
fn garbage_is_not_a_midi_file() {
    assert_eq!(import_midi_notes(b"not a midi file").unwrap_err(), ImportError::NotAMidiFile);
}

#[test]
fn a_second_note_on_replaces_the_open_one_and_unclosed_notes_drop() {
    let ev = |delta: u32, message: NoteMessage| TrackEvent { delta, message };
    let events = vec![
        ev(0, NoteMessage::NoteOn { channel: 0, key: 60, vel: 100 }),
        ev(10, NoteMessage::NoteOn { channel: 0, key: 60, vel: 50 }),
        ev(5, NoteMessage::Other),
        ev(5, NoteMessage::NoteOff { channel: 0, key: 60 }),
        ev(0, NoteMessage::NoteOff { channel: 0, key: 61 }),
        ev(1, NoteMessage::NoteOn { channel: 3, key: 10, vel: 1 }),
    ];
    assert_eq!(pair_track_notes(&events), vec![TickNote { key: 60, velocity: 50, channel: 0, start: 10, end: 20 }]);
}
