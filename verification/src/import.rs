//! Reading MIDI files: `midly` parses the Standard MIDI File, and each
//! track's note-ons and note-offs are paired into notes over integer ticks.
//! Converting ticks to beats is floating point and happens in the caller.
use vstd::prelude::*;
use midly::{Smf, Timing::{Metrical, Timecode}, TrackEventKind::Midi};
use midly::MidiMessage::{NoteOff as MidiNoteOff, NoteOn as MidiNoteOn};
use crate::import::NoteMessage::{NoteOff, NoteOn, Other};

verus! {

#[verifier::external_type_specification]
#[verifier::external_body]
pub struct ExMidiError(midly::Error);

/// How a MIDI file counts time.
#[derive(Debug, Clone, Copy, PartialEq, Eq, Structural)]
pub enum MidiTiming {
    /// Ticks per beat.
    Metrical(u16),
    /// Frames per second and ticks per frame.
    Timecode(u8, u8),
}

/// The note message a track event carries, if any.
#[derive(Debug, Clone, Copy, PartialEq, Eq, Structural)]
pub enum NoteMessage {
    NoteOn { channel: u8, key: u8, vel: u8 },
    NoteOff { channel: u8, key: u8 },
    Other,
}

/// A track event: ticks after the previous event, and its note message.
#[derive(Debug, Clone, Copy, PartialEq, Eq, Structural)]
pub struct TrackEvent {
    pub delta: u32,
    pub message: NoteMessage,
}

/// A note paired from a track: key, velocity and channel, and the ticks of
/// its note-on and note-off from the start of the track.
#[derive(Debug, Clone, Copy, PartialEq, Eq, Structural)]
pub struct TickNote {
    pub key: u8,
    pub velocity: u8,
    pub channel: u8,
    pub start: u64,
    pub end: u64,
}

/// Why a MIDI file could not be read.
#[derive(Debug, Clone, Copy, PartialEq, Eq, Structural)]
pub enum ImportError {
    /// `midly` refused the bytes.
    NotAMidiFile,
}

/// Values as the file format bounds them: a delta below 2^28, a channel
/// below 16, keys and velocities below 128.
pub open spec fn event_in_range(e: TrackEvent) -> bool {
    &&& e.delta < 0x1000_0000
    &&& match e.message {
        NoteMessage::NoteOn { channel, key, vel } => channel < 16 && key < 128 && vel < 128,
        NoteMessage::NoteOff { channel, key } => channel < 16 && key < 128,
        NoteMessage::Other => true,
    }
}

/// What `midly::Smf::parse` reads from `bytes`: the timing, and for each
/// track each event's delta and note message; `None` when it refuses them.
pub uninterp spec fn smf_contents(bytes: Seq<u8>) -> Option<(MidiTiming, Seq<Seq<TrackEvent>>)>;

/// `midly::Smf::parse`, its timing and events converted one for one. Of the
/// result it states the name above, and that the values lie within the
/// bounds of `midly`'s integer types (`u28`, `u4`, `u7`).
#[verifier::external_body]
fn parse_smf(bytes: &[u8]) -> (r: Result<(MidiTiming, Vec<Vec<TrackEvent>>), midly::Error>)
    ensures
        match r {
            Ok((t, ts)) => smf_contents(bytes@) == Some((t, ts@.map_values(|v: Vec<TrackEvent>| v@)))
                && forall|i: int, j: int| 0 <= i < ts@.len() && 0 <= j < ts@[i]@.len()
                    ==> event_in_range(#[trigger] ts@[i]@[j]),
            Err(_) => smf_contents(bytes@) is None,
        },
{
    let smf = Smf::parse(bytes)?;
    Ok((match smf.header.timing {
        Metrical(t) => MidiTiming::Metrical(t.as_int()),
        Timecode(f, s) => MidiTiming::Timecode(f.as_int(), s),
    }, smf.tracks.iter().map(|t| t.iter().map(|e| TrackEvent { delta: e.delta.as_int(), message: match e.kind {
        Midi { channel, message: MidiNoteOn { key, vel } } =>
            NoteOn { channel: channel.as_int(), key: key.as_int(), vel: vel.as_int() },
        Midi { channel, message: MidiNoteOff { key, .. } } => NoteOff { channel: channel.as_int(), key: key.as_int() },
        _ => Other,
    } }).collect()).collect()))
}

/// Slot of the (channel, key) pair in the table of sounding notes.
pub open spec fn slot(channel: u8, key: u8) -> int {
    channel * 128 + key
}

/// The state after a track's events: the tick reached, the note-on tick and
/// velocity sounding in each (channel, key) slot, and the notes paired so
/// far.
pub open spec fn paired(evs: Seq<TrackEvent>) -> (int, Seq<Option<(u64, u8)>>, Seq<TickNote>)
    decreases evs.len(),
{
    if evs.len() == 0 {
        (0, Seq::new(2048, |i: int| None), Seq::empty())
    } else {
        let (t0, active, notes) = paired(evs.drop_last());
        let e = evs.last();
        let t = t0 + e.delta;
        match e.message {
            NoteMessage::NoteOn { channel, key, vel } if vel > 0 =>
                (t, active.update(slot(channel, key), Some((t as u64, vel))), notes),
            NoteMessage::NoteOn { channel, key, .. } | NoteMessage::NoteOff { channel, key } =>
                match active[slot(channel, key)] {
                    Some((start, velocity)) => (t, active.update(slot(channel, key), None),
                        notes.push(TickNote { key, velocity, channel, start, end: t as u64 })),
                    None => (t, active, notes),
                },
            NoteMessage::Other => (t, active, notes),
        }
    }
}

proof fn lemma_paired_bounds(evs: Seq<TrackEvent>)
    requires
        forall|j: int| 0 <= j < evs.len() ==> event_in_range(#[trigger] evs[j]),
    ensures
        0 <= paired(evs).0 <= evs.len() * 0x1000_0000,
        paired(evs).1.len() == 2048,
    decreases evs.len(),
{
    if evs.len() > 0 {
        let d = evs.drop_last();
        assert forall|j: int| 0 <= j < d.len() implies event_in_range(#[trigger] d[j]) by {
            assert(d[j] == evs[j]);
        }
        lemma_paired_bounds(d);
        assert(event_in_range(evs[evs.len() - 1]));
        assert(d.len() * 0x1000_0000 + 0x1000_0000 == evs.len() * 0x1000_0000) by (nonlinear_arith)
            requires d.len() + 1 == evs.len();
    }
}

/// The notes of one track: each note-on (velocity above 0) opens a note on
/// its channel and key, replacing one still open there, and the next
/// note-off (or note-on with velocity 0) on that channel and key closes it.
/// Notes come in the order they close; notes never closed are dropped.
pub fn pair_track_notes(events: &Vec<TrackEvent>) -> (r: Vec<TickNote>)
    requires
        events@.len() < 0x10_0000_0000,
        forall|j: int| 0 <= j < events@.len() ==> event_in_range(#[trigger] events@[j]),
    ensures
        r@ == paired(events@).2,
{
    let mut active: Vec<Option<(u64, u8)>> = Vec::new();
    let mut k: usize = 0;
    while k < 2048
        invariant
            k <= 2048,
            active@ == Seq::new(k as nat, |i: int| None::<(u64, u8)>),
        decreases 2048 - k,
    {
        active.push(None);
        proof {
            assert(active@ =~= Seq::new((k + 1) as nat, |i: int| None::<(u64, u8)>));
        }
        k = k + 1;
    }
    let mut notes: Vec<TickNote> = Vec::new();
    let mut t: u64 = 0;
    let mut i: usize = 0;
    proof {
        assert(events@.take(0) =~= Seq::<TrackEvent>::empty());
    }
    while i < events.len()
        invariant
            i <= events.len(),
            events@.len() < 0x10_0000_0000,
            forall|j: int| 0 <= j < events@.len() ==> event_in_range(#[trigger] events@[j]),
            (t as int, active@, notes@) == paired(events@.take(i as int)),
            t <= i * 0x1000_0000,
            active@.len() == 2048,
        decreases events.len() - i,
    {
        let e = events[i];
        proof {
            let s = events@.take(i + 1);
            assert(s.drop_last() =~= events@.take(i as int));
            assert(s.last() == e);
            assert(event_in_range(events@[i as int]));
            assert(t + e.delta < (i + 1) * 0x1000_0000) by (nonlinear_arith)
                requires t <= i * 0x1000_0000, e.delta < 0x1000_0000;
            assert((i + 1) * 0x1000_0000 <= 0x10_0000_0000 * 0x1000_0000) by (nonlinear_arith)
                requires i < 0x10_0000_0000;
        }
        t = t + e.delta as u64;
        match e.message {
            NoteMessage::NoteOn { channel, key, vel } if vel > 0 => {
                let s: usize = channel as usize * 128 + key as usize;
                active.set(s, Some((t, vel)));
            },
            NoteMessage::NoteOn { channel, key, .. } | NoteMessage::NoteOff { channel, key } => {
                let s: usize = channel as usize * 128 + key as usize;
                match active[s] {
                    Some((start, velocity)) => {
                        notes.push(TickNote { key, velocity, channel, start, end: t });
                        active.set(s, None);
                    },
                    None => {},
                }
            },
            NoteMessage::Other => {},
        }
        i = i + 1;
    }
    proof {
        assert(events@.take(events.len() as int) =~= events@);
    }
    notes
}

/// The notes of all tracks, track by track.
pub open spec fn file_notes(tracks: Seq<Seq<TrackEvent>>) -> Seq<TickNote>
    decreases tracks.len(),
{
    if tracks.len() == 0 {
        Seq::empty()
    } else {
        file_notes(tracks.drop_last()) + paired(tracks.last()).2
    }
}

/// Every track has fewer than 2^36 events.
pub open spec fn tracks_fit(tracks: Seq<Seq<TrackEvent>>) -> bool {
    forall|i: int| 0 <= i < tracks.len() ==> #[trigger] tracks[i].len() < 0x10_0000_0000
}

/// Read the notes of a Standard MIDI File: its timing and the notes of all
/// its tracks, track by track. `NotAMidiFile` exactly when `midly` refuses
/// the bytes. A track of 2^36 events or more (more than half a terabyte of
/// events in memory, and ticks that could pass `u64`) is refused too.
pub fn import_midi_notes(bytes: &[u8]) -> (r: Result<(MidiTiming, Vec<TickNote>), ImportError>)
    ensures
        match smf_contents(bytes@) {
            None => r == Err::<(MidiTiming, Vec<TickNote>), ImportError>(ImportError::NotAMidiFile),
            Some((timing, tracks)) => if tracks_fit(tracks) {
                r matches Ok((t, notes)) && t == timing && notes@ == file_notes(tracks)
            } else {
                r == Err::<(MidiTiming, Vec<TickNote>), ImportError>(ImportError::NotAMidiFile)
            },
        },
{
    let (timing, tracks) = match parse_smf(bytes) {
        Ok(v) => v,
        Err(_) => return Err(ImportError::NotAMidiFile),
    };
    let ghost ts = tracks@.map_values(|v: Vec<TrackEvent>| v@);
    let mut notes: Vec<TickNote> = Vec::new();
    let mut i: usize = 0;
    while i < tracks.len()
        invariant
            i <= tracks.len(),
            ts == tracks@.map_values(|v: Vec<TrackEvent>| v@),
            smf_contents(bytes@) == Some((timing, ts)),
            forall|a: int, j: int| 0 <= a < tracks@.len() && 0 <= j < tracks@[a]@.len()
                ==> event_in_range(#[trigger] tracks@[a]@[j]),
            forall|a: int| 0 <= a < i ==> ts[a].len() < 0x10_0000_0000,
            notes@ == file_notes(ts.take(i as int)),
        decreases tracks.len() - i,
    {
        if tracks[i].len() as u64 >= 0x10_0000_0000u64 {
            proof {
                assert(ts[i as int] == tracks@[i as int]@);
                assert(ts[i as int].len() >= 0x10_0000_0000);
                assert(!tracks_fit(ts));
            }
            return Err(ImportError::NotAMidiFile);
        }
        let mut part = pair_track_notes(&tracks[i]);
        proof {
            let s = ts.take(i + 1);
            assert(s.drop_last() =~= ts.take(i as int));
            assert(s.last() == tracks@[i as int]@);
        }
        notes.append(&mut part);
        i = i + 1;
    }
    proof {
        assert(ts.take(tracks.len() as int) =~= ts);
    }
    Ok((timing, notes))
}

} // verus!
