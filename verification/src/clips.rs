//! MIDI and audio clips on the arrangement timeline, tracks, and the MIDI
//! events the engine schedules.
//!
//! Beat positions and lengths are carried as the bit patterns of their `f64`
//! values, gains and heights as the bit patterns of `f32` values.
use vstd::prelude::*;
use crate::ids::{new_id, AssetId, ClipId, NodeId, NoteId, TrackId};
use crate::scale::ScaleSettings;

verus! {

/// `f64` bit pattern of 1/64 (the shortest note length).
pub const MIN_NOTE_LENGTH_BITS: u64 = 0x3f90_0000_0000_0000;

/// `f64` bit pattern of +infinity; larger non-negative patterns are NaNs.
pub const F64_INFINITY_BITS: u64 = 0x7ff0_0000_0000_0000;

/// The sign bit of an `f64` bit pattern.
pub const F64_SIGN_BIT: u64 = 0x8000_0000_0000_0000;

/// `f64::max(x, c)` on bit patterns, for a positive finite `c`: NaN and
/// anything below `c` give `c`. (Non-negative finite `f64` values order as
/// their bit patterns.)
pub open spec fn spec_max_bits(x: u64, c: u64) -> u64 {
    if x < F64_SIGN_BIT && x <= F64_INFINITY_BITS && x >= c {
        x
    } else {
        c
    }
}

/// `f64::max(x, 0.0)` on bit patterns: negative values and NaN give +0.0.
pub open spec fn spec_non_negative_bits(x: u64) -> u64 {
    if x < F64_SIGN_BIT && x <= F64_INFINITY_BITS {
        x
    } else {
        0
    }
}

#[derive(Debug, Clone, Copy, PartialEq, Eq, Structural)]
pub struct MidiNote {
    pub id: NoteId,
    pub pitch: u8,
    pub velocity: u8,
    /// Start relative to clip start, in beats (`f64` bits).
    pub start_beats: u64,
    /// Length in beats (`f64` bits).
    pub length_beats: u64,
    pub channel: u8,
}

impl MidiNote {
    /// A note with a fresh id; velocity capped at 127 and length raised to
    /// at least 1/64 beat.
    pub fn new(pitch: u8, velocity: u8, start_beats: u64, length_beats: u64) -> (n: MidiNote)
        ensures
            n.pitch == pitch,
            n.velocity == (if velocity > 127 { 127 } else { velocity }),
            n.start_beats == start_beats,
            n.length_beats == spec_max_bits(length_beats, MIN_NOTE_LENGTH_BITS),
            n.channel == 0,
    {
        let length = if length_beats < F64_SIGN_BIT && length_beats <= F64_INFINITY_BITS
            && length_beats >= MIN_NOTE_LENGTH_BITS {
            length_beats
        } else {
            MIN_NOTE_LENGTH_BITS
        };
        MidiNote {
            id: new_id(),
            pitch,
            velocity: if velocity > 127 { 127 } else { velocity },
            start_beats,
            length_beats: length,
            channel: 0,
        }
    }
}

#[derive(Debug, Clone)]
pub enum ClipContent {
    Midi {
        notes: Vec<MidiNote>,
        /// Piano-roll scale guide for this clip.
        scale: ScaleSettings,
    },
    Audio {
        asset_id: AssetId,
        /// Offset into the source file in samples.
        source_offset_samples: i64,
        /// Gain applied to this clip (`f32` bits).
        gain_db: u32,
    },
}

/// Clip content with the note list as a sequence.
pub ghost enum ContentView {
    Midi { notes: Seq<MidiNote>, scale: ScaleSettings },
    Audio { asset_id: AssetId, source_offset_samples: i64, gain_db: u32 },
}

impl View for ClipContent {
    type V = ContentView;

    open spec fn view(&self) -> ContentView {
        match self {
            ClipContent::Midi { notes, scale } => ContentView::Midi { notes: notes@, scale: *scale },
            ClipContent::Audio { asset_id, source_offset_samples, gain_db } => ContentView::Audio {
                asset_id: *asset_id,
                source_offset_samples: *source_offset_samples,
                gain_db: *gain_db,
            },
        }
    }
}

#[derive(Debug, Clone)]
pub struct Clip {
    pub id: ClipId,
    pub track_id: TrackId,
    pub name: String,
    /// Timeline start in beats (`f64` bits).
    pub start_beats: u64,
    /// Length in beats (`f64` bits).
    pub length_beats: u64,
    pub content: ClipContent,
    pub color: [u8; 3],
}

pub ghost struct ClipView {
    pub id: ClipId,
    pub track_id: TrackId,
    pub name: Seq<char>,
    pub start_beats: u64,
    pub length_beats: u64,
    pub content: ContentView,
    pub color: [u8; 3],
}

impl View for Clip {
    type V = ClipView;

    open spec fn view(&self) -> ClipView {
        ClipView {
            id: self.id,
            track_id: self.track_id,
            name: self.name@,
            start_beats: self.start_beats,
            length_beats: self.length_beats,
            content: self.content@,
            color: self.color,
        }
    }
}

/// Copy of a note list.
pub fn duplicate_notes(notes: &Vec<MidiNote>) -> (r: Vec<MidiNote>)
    ensures
        r@ == notes@,
{
    let mut r: Vec<MidiNote> = Vec::new();
    let mut i: usize = 0;
    while i < notes.len()
        invariant
            i <= notes.len(),
            r@ == notes@.take(i as int),
        decreases notes.len() - i,
    {
        r.push(notes[i]);
        i = i + 1;
    }
    assert(notes@.take(notes.len() as int) =~= notes@);
    r
}

impl ClipContent {
    pub fn duplicate(&self) -> (r: ClipContent)
        ensures
            r@ == self@,
    {
        match self {
            ClipContent::Midi { notes, scale } => ClipContent::Midi {
                notes: duplicate_notes(notes),
                scale: *scale,
            },
            ClipContent::Audio { asset_id, source_offset_samples, gain_db } => ClipContent::Audio {
                asset_id: *asset_id,
                source_offset_samples: *source_offset_samples,
                gain_db: *gain_db,
            },
        }
    }
}

impl Clip {
    pub fn duplicate(&self) -> (r: Clip)
        ensures
            r@ == self@,
    {
        Clip {
            id: self.id,
            track_id: self.track_id,
            name: self.name.clone(),
            start_beats: self.start_beats,
            length_beats: self.length_beats,
            content: self.content.duplicate(),
            color: self.color,
        }
    }

    pub fn new_midi(track_id: TrackId, name: String, start_beats: u64, length_beats: u64) -> (c: Clip)
        ensures
            c.track_id == track_id,
            c.name == name,
            c.start_beats == start_beats,
            c.length_beats == length_beats,
            c.content@ == (ContentView::Midi {
                notes: Seq::empty(),
                scale: ScaleSettings { highlight: true, root: 0, mode: crate::scale::ScaleMode::Major },
            }),
            c.color == [80u8, 160u8, 220u8],
    {
        Clip {
            id: new_id(),
            track_id,
            name,
            start_beats,
            length_beats,
            content: ClipContent::Midi { notes: Vec::new(), scale: ScaleSettings::default() },
            color: [80, 160, 220],
        }
    }

    pub fn new_audio(track_id: TrackId, name: String, start_beats: u64, length_beats: u64, asset_id: AssetId) -> (c: Clip)
        ensures
            c.track_id == track_id,
            c.name == name,
            c.start_beats == start_beats,
            c.length_beats == length_beats,
            c.content@ == (ContentView::Audio { asset_id, source_offset_samples: 0, gain_db: 0 }),
            c.color == [80u8, 200u8, 140u8],
    {
        Clip {
            id: new_id(),
            track_id,
            name,
            start_beats,
            length_beats,
            content: ClipContent::Audio { asset_id, source_offset_samples: 0, gain_db: 0 },
            color: [80, 200, 140],
        }
    }

    pub fn notes(&self) -> (r: Option<&Vec<MidiNote>>)
        ensures
            match self.content@ {
                ContentView::Midi { notes, .. } => r matches Some(v) && v@ == notes,
                ContentView::Audio { .. } => r is None,
            },
    {
        match &self.content {
            ClipContent::Midi { notes, .. } => Some(notes),
            _ => None,
        }
    }

    pub fn scale(&self) -> (r: Option<ScaleSettings>)
        ensures
            match self.content@ {
                ContentView::Midi { scale, .. } => r == Some(scale),
                ContentView::Audio { .. } => r is None,
            },
    {
        match &self.content {
            ClipContent::Midi { scale, .. } => Some(*scale),
            _ => None,
        }
    }

    /// Clone this clip onto `track_id` at `start_beats` (raised to 0) with a
    /// fresh clip id and fresh note ids; everything else is kept.
    pub fn duplicate_for_paste(&self, track_id: TrackId, start_beats: u64) -> (c: Clip)
        ensures
            c.track_id == track_id,
            c.name == self.name,
            c.start_beats == spec_non_negative_bits(start_beats),
            c.length_beats == self.length_beats,
            c.color == self.color,
            match (self.content@, c.content@) {
                (ContentView::Midi { notes: a, scale: s }, ContentView::Midi { notes: b, scale: t }) =>
                    s == t && a.len() == b.len() && forall|i: int| 0 <= i < a.len() ==> #[trigger] b[i]
                        == (MidiNote { id: b[i].id, ..a[i] }),
                (ContentView::Audio { .. }, ContentView::Audio { .. }) => c.content@ == self.content@,
                _ => false,
            },
    {
        let content = match &self.content {
            ClipContent::Midi { notes, scale } => {
                let mut out: Vec<MidiNote> = Vec::new();
                let mut i: usize = 0;
                while i < notes.len()
                    invariant
                        i <= notes.len(),
                        out@.len() == i,
                        forall|j: int| 0 <= j < i ==> #[trigger] out@[j] == (MidiNote { id: out@[j].id, ..notes@[j] }),
                    decreases notes.len() - i,
                {
                    let n = notes[i];
                    out.push(MidiNote {
                        id: new_id(),
                        pitch: n.pitch,
                        velocity: n.velocity,
                        start_beats: n.start_beats,
                        length_beats: n.length_beats,
                        channel: n.channel,
                    });
                    i = i + 1;
                }
                ClipContent::Midi { notes: out, scale: *scale }
            },
            ClipContent::Audio { asset_id, source_offset_samples, gain_db } => ClipContent::Audio {
                asset_id: *asset_id,
                source_offset_samples: *source_offset_samples,
                gain_db: *gain_db,
            },
        };
        let start = if start_beats < F64_SIGN_BIT && start_beats <= F64_INFINITY_BITS {
            start_beats
        } else {
            0
        };
        Clip {
            id: new_id(),
            track_id,
            name: self.name.clone(),
            start_beats: start,
            length_beats: self.length_beats,
            content,
            color: self.color,
        }
    }
}

#[derive(Debug, Clone, Copy, PartialEq, Eq, Structural)]
pub enum TrackKind {
    Midi,
    Audio,
}

/// `f32` bit pattern of the default track height (72.0).
pub const TRACK_HEIGHT_BITS: u32 = 0x4290_0000;

#[derive(Debug, Clone, PartialEq, Eq)]
pub struct Track {
    pub id: TrackId,
    pub name: String,
    pub kind: TrackKind,
    pub color: [u8; 3],
    /// Lane height (`f32` bits).
    pub height: u32,
    pub armed: bool,
    /// Node ids of this track's default chain.
    pub midi_source_node: Option<NodeId>,
    pub audio_source_node: Option<NodeId>,
    pub instrument_node: Option<NodeId>,
    pub gain_node: Option<NodeId>,
}

impl Track {
    pub fn duplicate(&self) -> (r: Track)
        ensures
            r == *self,
    {
        Track {
            id: self.id,
            name: self.name.clone(),
            kind: self.kind,
            color: self.color,
            height: self.height,
            armed: self.armed,
            midi_source_node: self.midi_source_node,
            audio_source_node: self.audio_source_node,
            instrument_node: self.instrument_node,
            gain_node: self.gain_node,
        }
    }

    pub fn new_midi(name: String) -> (t: Track)
        ensures
            t.name == name,
            t.kind == TrackKind::Midi,
            t.color == [80u8, 160u8, 220u8],
            t.height == TRACK_HEIGHT_BITS,
            !t.armed,
            t.midi_source_node is None && t.audio_source_node is None,
            t.instrument_node is None && t.gain_node is None,
    {
        Track {
            id: new_id(),
            name,
            kind: TrackKind::Midi,
            color: [80, 160, 220],
            height: TRACK_HEIGHT_BITS,
            armed: false,
            midi_source_node: None,
            audio_source_node: None,
            instrument_node: None,
            gain_node: None,
        }
    }

    pub fn new_audio(name: String) -> (t: Track)
        ensures
            t.name == name,
            t.kind == TrackKind::Audio,
            t.color == [80u8, 200u8, 140u8],
            t.height == TRACK_HEIGHT_BITS,
            !t.armed,
            t.midi_source_node is None && t.audio_source_node is None,
            t.instrument_node is None && t.gain_node is None,
    {
        Track {
            id: new_id(),
            name,
            kind: TrackKind::Audio,
            color: [80, 200, 140],
            height: TRACK_HEIGHT_BITS,
            armed: false,
            midi_source_node: None,
            audio_source_node: None,
            instrument_node: None,
            gain_node: None,
        }
    }
}

/// Scheduled MIDI event for the audio engine.
#[derive(Debug, Clone, Copy, PartialEq, Eq, Structural)]
pub struct ScheduledMidiEvent {
    pub sample_offset: u32,
    pub status: u8,
    pub data1: u8,
    pub data2: u8,
}

pub open spec fn spec_note_on(sample_offset: u32, pitch: u8, velocity: u8, channel: u8) -> ScheduledMidiEvent {
    ScheduledMidiEvent { sample_offset, status: 0x90u8 | (channel & 0x0f), data1: pitch, data2: velocity }
}

pub open spec fn spec_note_off(sample_offset: u32, pitch: u8, channel: u8) -> ScheduledMidiEvent {
    ScheduledMidiEvent { sample_offset, status: 0x80u8 | (channel & 0x0f), data1: pitch, data2: 0 }
}

pub open spec fn spec_all_notes_off(sample_offset: u32, channel: u8) -> ScheduledMidiEvent {
    ScheduledMidiEvent { sample_offset, status: 0xB0u8 | (channel & 0x0f), data1: 123, data2: 0 }
}

pub open spec fn spec_all_sound_off(sample_offset: u32, channel: u8) -> ScheduledMidiEvent {
    ScheduledMidiEvent { sample_offset, status: 0xB0u8 | (channel & 0x0f), data1: 120, data2: 0 }
}

impl ScheduledMidiEvent {
    pub fn note_on(sample_offset: u32, pitch: u8, velocity: u8, channel: u8) -> (e: ScheduledMidiEvent)
        ensures
            e == spec_note_on(sample_offset, pitch, velocity, channel),
    {
        ScheduledMidiEvent { sample_offset, status: 0x90 | (channel & 0x0f), data1: pitch, data2: velocity }
    }

    pub fn note_off(sample_offset: u32, pitch: u8, channel: u8) -> (e: ScheduledMidiEvent)
        ensures
            e == spec_note_off(sample_offset, pitch, channel),
    {
        ScheduledMidiEvent { sample_offset, status: 0x80 | (channel & 0x0f), data1: pitch, data2: 0 }
    }

    /// MIDI CC 123: All Notes Off.
    pub fn all_notes_off(sample_offset: u32, channel: u8) -> (e: ScheduledMidiEvent)
        ensures
            e == spec_all_notes_off(sample_offset, channel),
    {
        ScheduledMidiEvent { sample_offset, status: 0xB0 | (channel & 0x0f), data1: 123, data2: 0 }
    }

    /// MIDI CC 120: All Sound Off.
    pub fn all_sound_off(sample_offset: u32, channel: u8) -> (e: ScheduledMidiEvent)
        ensures
            e == spec_all_sound_off(sample_offset, channel),
    {
        ScheduledMidiEvent { sample_offset, status: 0xB0 | (channel & 0x0f), data1: 120, data2: 0 }
    }

    pub open spec fn spec_sort_priority(self) -> u8 {
        let kind = self.status & 0xf0;
        if kind == 0xb0 && (self.data1 == 120 || self.data1 == 123) {
            0
        } else if kind == 0x80 {
            1
        } else if kind == 0x90 && self.data2 == 0 {
            1
        } else if kind == 0x90 {
            3
        } else {
            2
        }
    }

    /// Sort key so panic / note-off land before note-on at the same offset.
    pub fn sort_priority(self) -> (r: u8)
        ensures
            r == self.spec_sort_priority(),
    {
        let kind = self.status & 0xf0;
        if kind == 0xb0 && (self.data1 == 120 || self.data1 == 123) {
            0
        } else if kind == 0x80 {
            1
        } else if kind == 0x90 && self.data2 == 0 {
            1
        } else if kind == 0x90 {
            3
        } else {
            2
        }
    }
}

/// The panic burst for one track: All Notes Off then All Sound Off on each
/// of the 16 channels, in channel order.
pub open spec fn spec_panic_events(track_id: TrackId) -> Seq<(TrackId, ScheduledMidiEvent)> {
    Seq::new(
        32,
        |i: int|
            if i % 2 == 0 {
                (track_id, spec_all_notes_off(0, (i / 2) as u8))
            } else {
                (track_id, spec_all_sound_off(0, (i / 2) as u8))
            },
    )
}

/// Queue all-notes-off + all-sound-off on every MIDI channel for a track.
pub fn midi_panic_events(track_id: TrackId) -> (r: Vec<(TrackId, ScheduledMidiEvent)>)
    ensures
        r@ == spec_panic_events(track_id),
{
    let mut events: Vec<(TrackId, ScheduledMidiEvent)> = Vec::new();
    let mut ch: u8 = 0;
    while ch < 16
        invariant
            ch <= 16,
            events@ == spec_panic_events(track_id).take(2 * ch as int),
        decreases 16 - ch,
    {
        events.push((track_id, ScheduledMidiEvent::all_notes_off(0, ch)));
        events.push((track_id, ScheduledMidiEvent::all_sound_off(0, ch)));
        proof {
            let s = spec_panic_events(track_id);
            assert((2 * ch as int) / 2 == ch as int);
            assert((2 * ch as int + 1) / 2 == ch as int);
            assert(events@ =~= s.take(2 * ch as int + 2));
        }
        ch = ch + 1;
    }
    assert(spec_panic_events(track_id).take(32) =~= spec_panic_events(track_id));
    events
}


/// Byte `i` (0 = most significant) of the 16 big-endian bytes of `id`, as
/// a UUID lays them out.
pub open spec fn id_byte(id: u128, i: int) -> u8 {
    ((id >> ((8 * (15 - i)) as u32)) & 0xff) as u8
}

/// The humanisation hash over the first `k` bytes of `id`: starting from
/// `salt`, each byte is mixed in by a wrapping multiply and add.
pub open spec fn humanize_hash_upto(id: u128, salt: u64, k: int) -> u64
    decreases k,
{
    if k <= 0 {
        salt
    } else {
        humanize_hash_upto(id, salt, k - 1).wrapping_mul(0x9e37_79b9_7f4a_7c15).wrapping_add(id_byte(id, k - 1) as u64)
    }
}

/// The deterministic per-note hash behind timing and velocity
/// humanisation (stable across plays and blocks).
pub fn humanize_hash(note_id: NoteId, salt: u64) -> (h: u64)
    ensures
        h == humanize_hash_upto(note_id, salt, 16),
{
    let mut h: u64 = salt;
    let mut i: usize = 0;
    while i < 16
        invariant
            i <= 16,
            h == humanize_hash_upto(note_id, salt, i as int),
        decreases 16 - i,
    {
        let shift: u32 = (8 * (15 - i)) as u32;
        let b: u8 = ((note_id >> shift) & 0xff) as u8;
        h = h.wrapping_mul(0x9e37_79b9_7f4a_7c15).wrapping_add(b as u64);
        i = i + 1;
    }
    h
}
} // verus!
