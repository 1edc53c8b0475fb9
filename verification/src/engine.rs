//! The audio processor's transport and MIDI bookkeeping: transport changes,
//! seeking and looping, piano-roll note previews, and the panic MIDI sent on
//! every transport discontinuity so that no instrument voice is left
//! hanging.
//!
//! Rendering (the plan, clips, tempo and DSP state) lives with the audio
//! thread. Which notes are held at a position depends on the tempo map; the
//! audio thread works that out and hands it in (`held`, one list of
//! `(pitch, channel)` per clip-source track of the plan).
use vstd::prelude::*;
use crate::ids::{NodeId, TrackId};
use crate::graph::{GraphNode, NodeKind, node_entries, nodes_get_index, nodes_len};
use crate::plan::CompiledPlan;
use crate::time::{SamplePos, TransportState, spec_saturating_add_i64};
use crate::clips::{ScheduledMidiEvent, spec_note_on, spec_note_off, spec_panic_events, midi_panic_events};
use crate::routing::{in_block_order, tagged_key, sort_tagged};

verus! {

/// At most this many panic events are queued (the shared-memory MIDI area
/// holds 512, leaving room for note-ons of the same block).
pub const MAX_PANIC_EVENTS: usize = 480;

/// A piano-roll audition note.
#[derive(Debug, Clone, Copy, PartialEq, Eq, Structural)]
pub struct NotePreview {
    pub track_id: TrackId,
    pub pitch: u8,
    pub velocity: u8,
    pub channel: u8,
    /// Samples remaining until the note-off once the note-on was sent.
    pub samples_left: i64,
    pub sent_on: bool,
}

/// A command to the processor's transport and preview state.
#[derive(Debug, Clone, Copy, PartialEq, Eq, Structural)]
pub enum TransportCommand {
    SetTransport(TransportState),
    Seek(SamplePos),
    SetLoop { enabled: bool, start: SamplePos, end: SamplePos },
    /// One-shot MIDI audition (piano-roll click or pitch drag).
    PreviewNote { track_id: TrackId, pitch: u8, velocity: u8, duration_samples: u32 },
}

pub type TaggedEvent = (TrackId, ScheduledMidiEvent);

/// Transport, loop and preview state of the audio processor.
#[derive(Debug)]
pub struct AudioProcessor {
    pub transport: TransportState,
    pub position: SamplePos,
    pub loop_enabled: bool,
    pub loop_start: SamplePos,
    pub loop_end: SamplePos,
    pub previews: Vec<NotePreview>,
    /// Note-offs queued when a preview is replaced or cancelled.
    pub pending_preview_midi: Vec<TaggedEvent>,
    /// All-notes and all-sound-off queued on transport discontinuities.
    pub pending_panic_midi: Vec<TaggedEvent>,
}

pub ghost struct ProcessorView {
    pub transport: TransportState,
    pub position: i64,
    pub loop_enabled: bool,
    pub loop_start: i64,
    pub loop_end: i64,
    pub previews: Seq<NotePreview>,
    pub pending_preview_midi: Seq<TaggedEvent>,
    pub pending_panic_midi: Seq<TaggedEvent>,
}

impl View for AudioProcessor {
    type V = ProcessorView;

    open spec fn view(&self) -> ProcessorView {
        ProcessorView {
            transport: self.transport,
            position: self.position.0,
            loop_enabled: self.loop_enabled,
            loop_start: self.loop_start.0,
            loop_end: self.loop_end.0,
            previews: self.previews@,
            pending_preview_midi: self.pending_preview_midi@,
            pending_panic_midi: self.pending_panic_midi@,
        }
    }
}

/// The note-off releasing a preview whose note-on was sent.
pub open spec fn release(p: NotePreview) -> Seq<TaggedEvent> {
    if p.sent_on {
        seq![(p.track_id, spec_note_off(0, p.pitch, p.channel))]
    } else {
        Seq::empty()
    }
}

/// The releases of `ps`, in order.
pub open spec fn releases(ps: Seq<NotePreview>) -> Seq<TaggedEvent>
    decreases ps.len(),
{
    if ps.len() == 0 {
        Seq::empty()
    } else {
        releases(ps.drop_last()) + release(ps.last())
    }
}

/// Note-off on channel 0 for every pitch.
pub open spec fn note_off_sweep(t: TrackId) -> Seq<TaggedEvent> {
    Seq::new(128, |p: int| (t, spec_note_off(0, p as u8, 0)))
}

/// The panic of one track: a note-off for each held note, a note-off for
/// every pitch, then All Notes Off and All Sound Off on every channel.
pub open spec fn track_panic(t: TrackId, held: Seq<(u8, u8)>) -> Seq<TaggedEvent> {
    held.map_values(|h: (u8, u8)| (t, spec_note_off(0, h.0, h.1))) + note_off_sweep(t) + spec_panic_events(t)
}

/// The panics of `tracks`, track `i` holding `held[i]`.
pub open spec fn panic_burst(tracks: Seq<TrackId>, held: Seq<Seq<(u8, u8)>>) -> Seq<TaggedEvent>
    decreases tracks.len(),
{
    if tracks.len() == 0 {
        Seq::empty()
    } else {
        panic_burst(tracks.drop_last(), held) + track_panic(tracks.last(), held[tracks.len() - 1])
    }
}

/// The first `MAX_PANIC_EVENTS` events of `s`.
pub open spec fn capped(s: Seq<TaggedEvent>) -> Seq<TaggedEvent> {
    if s.len() > MAX_PANIC_EVENTS { s.take(MAX_PANIC_EVENTS as int) } else { s }
}

/// The held-note lists as sequences.
pub open spec fn held_view(held: Seq<Vec<(u8, u8)>>) -> Seq<Seq<(u8, u8)>> {
    held.map_values(|v: Vec<(u8, u8)>| v@)
}

/// The clip-source tracks of the plan's nodes, each once, in node order.
pub open spec fn source_tracks(ns: Seq<(NodeId, GraphNode)>) -> Seq<TrackId>
    decreases ns.len(),
{
    if ns.len() == 0 {
        Seq::empty()
    } else {
        let r = source_tracks(ns.drop_last());
        match ns.last().1.kind {
            NodeKind::MidiClipSource { track_id } => if r.contains(track_id) { r } else { r.push(track_id) },
            _ => r,
        }
    }
}

/// State after a panic: every sounding preview released, the held notes of
/// every clip-source track released, previews and their pending note-offs
/// dropped.
pub open spec fn panicked(s: ProcessorView, tracks: Seq<TrackId>, held: Seq<Seq<(u8, u8)>>) -> ProcessorView {
    ProcessorView {
        previews: Seq::empty(),
        pending_preview_midi: Seq::empty(),
        pending_panic_midi: capped(releases(s.previews) + panic_burst(tracks, held)),
        ..s
    }
}

/// Whether a command interrupts streaming MIDI: leaving play, stopping, or
/// seeking.
pub open spec fn needs_panic(s: ProcessorView, cmd: TransportCommand) -> bool {
    match cmd {
        TransportCommand::SetTransport(state) => (s.transport == TransportState::Playing
            && state != TransportState::Playing) || state == TransportState::Stopped,
        TransportCommand::Seek(_) => true,
        _ => false,
    }
}

/// The preview that a `PreviewNote` starts.
pub open spec fn new_preview(track_id: TrackId, pitch: u8, velocity: u8, duration_samples: u32) -> NotePreview {
    NotePreview {
        track_id,
        pitch: if pitch > 127 { 127 } else { pitch },
        velocity: if velocity > 127 { 127 } else if velocity < 1 { 1 } else { velocity },
        channel: 0,
        samples_left: if duration_samples < 1 { 1 } else { duration_samples as i64 },
        sent_on: false,
    }
}

pub open spec fn on_track(t: TrackId) -> spec_fn(NotePreview) -> bool {
    |p: NotePreview| p.track_id == t
}

pub open spec fn off_track(t: TrackId) -> spec_fn(NotePreview) -> bool {
    |p: NotePreview| p.track_id != t
}

/// Starting a preview: ignored while playing; otherwise the track's other
/// previews are released and replaced by the new one.
pub open spec fn previewed(s: ProcessorView, track_id: TrackId, pitch: u8, velocity: u8, duration_samples: u32) -> ProcessorView {
    if s.transport == TransportState::Playing {
        s
    } else {
        ProcessorView {
            previews: s.previews.filter(off_track(track_id)).push(
                new_preview(track_id, pitch, velocity, duration_samples),
            ),
            pending_preview_midi: s.pending_preview_midi + releases(s.previews.filter(on_track(track_id))),
            ..s
        }
    }
}

/// The state after a command; `tracks` and `held` are used by the panic it
/// may cause.
pub open spec fn commanded(s: ProcessorView, cmd: TransportCommand, tracks: Seq<TrackId>,
    held: Seq<Seq<(u8, u8)>>) -> ProcessorView {
    let p = if needs_panic(s, cmd) { panicked(s, tracks, held) } else { s };
    match cmd {
        TransportCommand::SetTransport(state) => {
            let q = if state == TransportState::Playing && p.previews.len() > 0 {
                ProcessorView {
                    previews: Seq::empty(),
                    pending_preview_midi: Seq::empty(),
                    pending_panic_midi: p.pending_panic_midi + releases(p.previews),
                    ..p
                }
            } else {
                p
            };
            ProcessorView {
                transport: state,
                position: if state == TransportState::Stopped { 0 } else { q.position },
                ..q
            }
        },
        TransportCommand::Seek(pos) => ProcessorView { position: pos.0, ..p },
        TransportCommand::SetLoop { enabled, start, end } => ProcessorView {
            loop_enabled: enabled,
            loop_start: start.0,
            loop_end: end.0,
            ..s
        },
        TransportCommand::PreviewNote { track_id, pitch, velocity, duration_samples } => previewed(
            s,
            track_id,
            pitch,
            velocity,
            duration_samples,
        ),
    }
}

/// One block of previews: events sent (a note-on for each preview not yet
/// sounding, a note-off for each that ends in the block) and the previews
/// still running.
pub open spec fn tick(ps: Seq<NotePreview>, block: u32) -> (Seq<TaggedEvent>, Seq<NotePreview>)
    decreases ps.len(),
{
    if ps.len() == 0 {
        (Seq::empty(), Seq::empty())
    } else {
        let (ev, rest) = tick(ps.drop_last(), block);
        let p = ps.last();
        let on = if !p.sent_on {
            seq![(p.track_id, spec_note_on(0, p.pitch, p.velocity, p.channel))]
        } else {
            Seq::empty()
        };
        if p.samples_left <= block {
            let left: u32 = if p.samples_left < 0 { 0 } else { p.samples_left as u32 };
            let last: u32 = if block == 0 { 0 } else { (block - 1) as u32 };
            let off_at: u32 = if left > last { last } else { left };
            (ev + on + seq![(p.track_id, spec_note_off(off_at, p.pitch, p.channel))], rest)
        } else {
            (ev + on, rest.push(NotePreview { samples_left: (p.samples_left - block) as i64, sent_on: true, ..p }))
        }
    }
}

/// Whether the position has run to the loop end.
pub open spec fn wrap_due(s: ProcessorView) -> bool {
    s.loop_enabled && s.loop_end > s.loop_start && s.position >= s.loop_end
}

fn releases_exec(ps: &Vec<NotePreview>, out: &mut Vec<TaggedEvent>)
    ensures
        final(out)@ == old(out)@ + releases(ps@),
{
    let ghost start = out@;
    let mut i: usize = 0;
    while i < ps.len()
        invariant
            i <= ps.len(),
            out@ == start + releases(ps@.take(i as int)),
        decreases ps.len() - i,
    {
        proof {
            assert(ps@.take(i as int + 1).drop_last() =~= ps@.take(i as int));
        }
        let p = ps[i];
        if p.sent_on {
            out.push((p.track_id, ScheduledMidiEvent::note_off(0, p.pitch, p.channel)));
        }
        proof {
            assert(out@ =~= start + releases(ps@.take(i as int + 1)));
        }
        i = i + 1;
    }
    proof {
        assert(ps@.take(ps@.len() as int) =~= ps@);
    }
}

/// The clip-source tracks of `plan`, each once, in node order.
pub fn clip_source_tracks(plan: &CompiledPlan) -> (r: Vec<TrackId>)
    ensures
        r@ == source_tracks(node_entries(plan.nodes)),
{
    let ghost ns = node_entries(plan.nodes);
    let n = nodes_len(&plan.nodes);
    let mut r: Vec<TrackId> = Vec::new();
    let mut i: usize = 0;
    while i < n
        invariant
            i <= n,
            n == ns.len(),
            ns == node_entries(plan.nodes),
            r@ == source_tracks(ns.take(i as int)),
        decreases n - i,
    {
        proof {
            assert(ns.take(i as int + 1).drop_last() =~= ns.take(i as int));
        }
        let (_, node) = nodes_get_index(&plan.nodes, i).unwrap();
        if let NodeKind::MidiClipSource { track_id } = &node.kind {
            let mut seen = false;
            let mut j: usize = 0;
            while j < r.len()
                invariant
                    j <= r.len(),
                    seen == exists|k: int| 0 <= k < j && r@[k] == *track_id,
                decreases r.len() - j,
            {
                if r[j] == *track_id {
                    seen = true;
                }
                j = j + 1;
            }
            if !seen {
                r.push(*track_id);
            }
        }
        i = i + 1;
    }
    proof {
        assert(ns.take(n as int) =~= ns);
    }
    r
}

impl AudioProcessor {
    pub fn new() -> (p: AudioProcessor)
        ensures
            p@ == (ProcessorView {
                transport: TransportState::Stopped,
                position: 0,
                loop_enabled: false,
                loop_start: 0,
                loop_end: 0,
                previews: Seq::empty(),
                pending_preview_midi: Seq::empty(),
                pending_panic_midi: Seq::empty(),
            }),
    {
        AudioProcessor {
            transport: TransportState::Stopped,
            position: SamplePos(0),
            loop_enabled: false,
            loop_start: SamplePos(0),
            loop_end: SamplePos(0),
            previews: Vec::new(),
            pending_preview_midi: Vec::new(),
            pending_panic_midi: Vec::new(),
        }
    }

    /// The position whose held notes a panic releases: the sample before the
    /// current one, so that notes ending exactly on a loop boundary still
    /// count as held.
    pub fn hold_position(&self) -> (p: SamplePos)
        ensures
            p.0 == spec_saturating_add_i64(self.position.0, -1i64),
    {
        self.position.saturating_add(-1)
    }

    /// Whether `cmd` causes a panic (see `needs_panic`).
    pub fn panic_needed(&self, cmd: &TransportCommand) -> (r: bool)
        ensures
            r == needs_panic(self@, *cmd),
    {
        match cmd {
            TransportCommand::SetTransport(state) => (self.transport == TransportState::Playing && *state
                != TransportState::Playing) || *state == TransportState::Stopped,
            TransportCommand::Seek(_) => true,
            _ => false,
        }
    }

    /// Silence every instrument voice on a transport discontinuity: release
    /// the sounding previews, then for each clip-source track (`tracks`, as
    /// `clip_source_tracks` lists them) its held notes `held[i]`, every
    /// pitch, and the CC panic; at most `MAX_PANIC_EVENTS` events are kept.
    pub fn queue_midi_panic(&mut self, tracks: &Vec<TrackId>, held: &Vec<Vec<(u8, u8)>>)
        requires
            held.len() == tracks.len(),
        ensures
            final(self)@ == panicked(old(self)@, tracks@, held_view(held@)),
    {
        let mut out: Vec<TaggedEvent> = Vec::new();
        releases_exec(&self.previews, &mut out);
        self.previews = Vec::new();
        self.pending_preview_midi = Vec::new();
        let ghost first = out@;
        let ghost hv = held_view(held@);
        let mut i: usize = 0;
        proof {
            assert(tracks@.take(0) =~= Seq::<TrackId>::empty());
            assert(out@ =~= first + panic_burst(tracks@.take(0), hv));
        }
        while i < tracks.len()
            invariant
                i <= tracks.len(),
                held.len() == tracks.len(),
                hv == held_view(held@),
                out@ == first + panic_burst(tracks@.take(i as int), hv),
            decreases tracks.len() - i,
        {
            let t = tracks[i];
            let ghost before = out@;
            let h = &held[i];
            let mut k: usize = 0;
            while k < h.len()
                invariant
                    k <= h.len(),
                    out@ == before + h@.take(k as int).map_values(|x: (u8, u8)| (t, spec_note_off(0, x.0, x.1))),
                decreases h.len() - k,
            {
                let (pitch, channel) = h[k];
                out.push((t, ScheduledMidiEvent::note_off(0, pitch, channel)));
                proof {
                    assert(h@.take(k as int + 1).map_values(|x: (u8, u8)| (t, spec_note_off(0, x.0, x.1)))
                        =~= h@.take(k as int).map_values(|x: (u8, u8)| (t, spec_note_off(0, x.0, x.1))).push(
                        (t, spec_note_off(0, pitch, channel)),
                    ));
                }
                k = k + 1;
            }
            proof {
                assert(h@.take(h@.len() as int) =~= h@);
            }
            let ghost mid = out@;
            let mut pitch: u8 = 0;
            while pitch < 128
                invariant
                    pitch <= 128,
                    out@ == mid + note_off_sweep(t).take(pitch as int),
                decreases 128 - pitch,
            {
                out.push((t, ScheduledMidiEvent::note_off(0, pitch, 0)));
                proof {
                    assert(out@ =~= mid + note_off_sweep(t).take(pitch as int + 1));
                }
                pitch = pitch + 1;
            }
            let panic = midi_panic_events(t);
            let ghost swept = out@;
            let mut k: usize = 0;
            while k < panic.len()
                invariant
                    k <= panic.len(),
                    out@ == swept + panic@.take(k as int),
                decreases panic.len() - k,
            {
                out.push(panic[k]);
                proof {
                    assert(out@ =~= swept + panic@.take(k as int + 1));
                }
                k = k + 1;
            }
            proof {
                assert(panic@.take(panic@.len() as int) =~= panic@);
                assert(note_off_sweep(t).take(128) =~= note_off_sweep(t));
                assert(tracks@.take(i as int + 1).drop_last() =~= tracks@.take(i as int));
                assert(hv[i as int] == h@);
                assert(out@ =~= first + panic_burst(tracks@.take(i as int + 1), hv));
            }
            i = i + 1;
        }
        proof {
            assert(tracks@.take(tracks@.len() as int) =~= tracks@);
        }
        if out.len() > MAX_PANIC_EVENTS {
            out.truncate(MAX_PANIC_EVENTS);
        }
        self.pending_panic_midi = out;
    }

    /// Start an audition note (see `previewed`).
    pub fn start_preview(&mut self, track_id: TrackId, pitch: u8, velocity: u8, duration_samples: u32)
        ensures
            final(self)@ == previewed(old(self)@, track_id, pitch, velocity, duration_samples),
    {
        if self.transport == TransportState::Playing {
            return;
        }
        let ghost ps = self.previews@;
        let mut kept: Vec<NotePreview> = Vec::new();
        let mut gone: Vec<NotePreview> = Vec::new();
        let mut i: usize = 0;
        proof {
            reveal(Seq::filter);
            assert(ps.take(0).filter(off_track(track_id)) =~= Seq::<NotePreview>::empty());
            assert(ps.take(0).filter(on_track(track_id)) =~= Seq::<NotePreview>::empty());
        }
        while i < self.previews.len()
            invariant
                i <= self.previews.len(),
                ps == self.previews@,
                kept@ == ps.take(i as int).filter(off_track(track_id)),
                gone@ == ps.take(i as int).filter(on_track(track_id)),
            decreases self.previews.len() - i,
        {
            let p = self.previews[i];
            proof {
                assert(ps.take(i as int + 1) =~= ps.take(i as int).push(p));
                ps.take(i as int).lemma_filter_push(p, off_track(track_id));
                ps.take(i as int).lemma_filter_push(p, on_track(track_id));
            }
            if p.track_id == track_id {
                gone.push(p);
            } else {
                kept.push(p);
            }
            i = i + 1;
        }
        proof {
            assert(ps.take(ps.len() as int) =~= ps);
        }
        releases_exec(&gone, &mut self.pending_preview_midi);
        let p = if pitch > 127 { 127 } else { pitch };
        let v = if velocity > 127 { 127 } else if velocity < 1 { 1 } else { velocity };
        let d: i64 = if duration_samples < 1 { 1 } else { duration_samples as i64 };
        kept.push(NotePreview { track_id, pitch: p, velocity: v, channel: 0, samples_left: d, sent_on: false });
        self.previews = kept;
    }

    /// Apply one command (see `commanded`); `tracks` and `held` are those of
    /// `queue_midi_panic`, taken at `hold_position` before the call.
    pub fn handle_command(&mut self, cmd: TransportCommand, tracks: &Vec<TrackId>, held: &Vec<Vec<(u8, u8)>>)
        requires
            held.len() == tracks.len(),
        ensures
            final(self)@ == commanded(old(self)@, cmd, tracks@, held_view(held@)),
    {
        match cmd {
            TransportCommand::SetTransport(state) => {
                if self.panic_needed(&cmd) {
                    self.queue_midi_panic(tracks, held);
                }
                if state == TransportState::Playing && self.previews.len() > 0 {
                    releases_exec(&self.previews, &mut self.pending_panic_midi);
                    self.previews = Vec::new();
                    self.pending_preview_midi = Vec::new();
                }
                self.transport = state;
                if state == TransportState::Stopped {
                    self.position = SamplePos(0);
                }
            },
            TransportCommand::Seek(pos) => {
                self.queue_midi_panic(tracks, held);
                self.position = pos;
            },
            TransportCommand::SetLoop { enabled, start, end } => {
                self.loop_enabled = enabled;
                self.loop_start = start;
                self.loop_end = end;
            },
            TransportCommand::PreviewNote { track_id, pitch, velocity, duration_samples } => {
                self.start_preview(track_id, pitch, velocity, duration_samples);
            },
        }
    }

    /// Advance the previews by one block of `block_len` samples and collect
    /// their MIDI, with the pending preview note-offs first, in block order.
    pub fn tick_previews(&mut self, block_len: u32) -> (r: Vec<TaggedEvent>)
        ensures
            r@ == in_block_order(old(self)@.pending_preview_midi + tick(old(self)@.previews, block_len).0, tagged_key()),
            final(self)@ == (ProcessorView {
                previews: tick(old(self)@.previews, block_len).1,
                pending_preview_midi: Seq::empty(),
                ..old(self)@
            }),
    {
        let mut events: Vec<TaggedEvent> = Vec::new();
        std::mem::swap(&mut events, &mut self.pending_preview_midi);
        let ghost first = events@;
        let ghost ps = self.previews@;
        let mut rest: Vec<NotePreview> = Vec::new();
        let mut i: usize = 0;
        while i < self.previews.len()
            invariant
                i <= self.previews.len(),
                ps == self.previews@,
                events@ == first + tick(ps.take(i as int), block_len).0,
                rest@ == tick(ps.take(i as int), block_len).1,
            decreases self.previews.len() - i,
        {
            proof {
                assert(ps.take(i as int + 1).drop_last() =~= ps.take(i as int));
            }
            let p = self.previews[i];
            if !p.sent_on {
                events.push((p.track_id, ScheduledMidiEvent::note_on(0, p.pitch, p.velocity, p.channel)));
            }
            if p.samples_left <= block_len as i64 {
                let left: u32 = if p.samples_left < 0 { 0 } else { p.samples_left as u32 };
                let last: u32 = if block_len == 0 { 0 } else { block_len - 1 };
                let off_at: u32 = if left > last { last } else { left };
                events.push((p.track_id, ScheduledMidiEvent::note_off(off_at, p.pitch, p.channel)));
            } else {
                rest.push(NotePreview { samples_left: p.samples_left - block_len as i64, sent_on: true, ..p });
            }
            proof {
                assert(events@ =~= first + tick(ps.take(i as int + 1), block_len).0);
            }
            i = i + 1;
        }
        proof {
            assert(ps.take(ps.len() as int) =~= ps);
        }
        self.previews = rest;
        sort_tagged(events)
    }

    /// The MIDI for the next block besides the arrangement's: the queued
    /// panic, then the previews' events, in block order; and whether the
    /// block must be rendered for them even when not playing.
    pub fn take_block_midi(&mut self, frames: u32) -> (r: (Vec<TaggedEvent>, bool))
        ensures
            ({
                let s = old(self)@;
                let ticked = tick(s.previews, frames);
                let preview = in_block_order(s.pending_preview_midi + ticked.0, tagged_key());
                &&& r.0@ == in_block_order(s.pending_panic_midi + preview, tagged_key())
                &&& r.1 == (s.pending_panic_midi.len() > 0 || s.previews.len() > 0
                    || s.pending_preview_midi.len() > 0 || r.0@.len() > 0)
                &&& final(self)@ == (ProcessorView {
                    previews: ticked.1,
                    pending_preview_midi: Seq::empty(),
                    pending_panic_midi: Seq::empty(),
                    ..s
                })
            }),
    {
        let mut midi: Vec<TaggedEvent> = Vec::new();
        std::mem::swap(&mut midi, &mut self.pending_panic_midi);
        let flush_panic = midi.len() > 0;
        let had_preview_work = self.previews.len() > 0 || self.pending_preview_midi.len() > 0;
        let mut ticked = self.tick_previews(frames);
        midi.append(&mut ticked);
        let sorted = sort_tagged(midi);
        let audition = had_preview_work || sorted.len() > 0 || flush_panic;
        (sorted, audition)
    }

    /// Move the playhead on by a rendered block while playing; returns
    /// whether it has reached the loop end, when the caller must release
    /// held notes and jump back with `wrap_loop`.
    pub fn advance(&mut self, frames: u32) -> (wrap: bool)
        ensures
            old(self)@.transport == TransportState::Playing ==> final(self)@ == (ProcessorView {
                position: spec_saturating_add_i64(old(self)@.position, frames as i64),
                ..old(self)@
            }) && wrap == wrap_due(final(self)@),
            old(self)@.transport != TransportState::Playing ==> final(self)@ == old(self)@ && !wrap,
    {
        if self.transport == TransportState::Playing {
            self.position = self.position.saturating_add(frames as i64);
            self.loop_enabled && self.loop_end.0 > self.loop_start.0 && self.position.0 >= self.loop_end.0
        } else {
            false
        }
    }

    /// Jump back to the loop start after a panic (the jump orphans streaming
    /// note-offs); `tracks` and `held` as for `queue_midi_panic`.
    pub fn wrap_loop(&mut self, tracks: &Vec<TrackId>, held: &Vec<Vec<(u8, u8)>>)
        requires
            held.len() == tracks.len(),
        ensures
            final(self)@ == (ProcessorView {
                position: old(self)@.loop_start,
                ..panicked(old(self)@, tracks@, held_view(held@))
            }),
    {
        self.queue_midi_panic(tracks, held);
        self.position = self.loop_start;
    }
}

/// No two previews belong to the same track.
pub open spec fn one_per_track(ps: Seq<NotePreview>) -> bool {
    forall|i: int, j: int| 0 <= i < ps.len() && 0 <= j < ps.len() && i != j ==> ps[i].track_id != ps[j].track_id
}

/// Every track of `small` has a preview in `big`.
pub open spec fn tracks_within(small: Seq<NotePreview>, big: Seq<NotePreview>) -> bool {
    forall|i: int| 0 <= i < small.len() ==> exists|j: int| 0 <= j < big.len() && big[j].track_id == (#[trigger] small[i]).track_id
}

proof fn lemma_filter_one_per_track(ps: Seq<NotePreview>, f: spec_fn(NotePreview) -> bool)
    requires
        one_per_track(ps),
    ensures
        one_per_track(ps.filter(f)),
        tracks_within(ps.filter(f), ps),
        forall|i: int| 0 <= i < ps.filter(f).len() ==> f(#[trigger] ps.filter(f)[i]),
    decreases ps.len(),
{
    reveal(Seq::filter);
    if ps.len() > 0 {
        let d = ps.drop_last();
        assert(one_per_track(d)) by {
            assert forall|i: int, j: int| 0 <= i < d.len() && 0 <= j < d.len() && i != j
                implies d[i].track_id != d[j].track_id by {
                assert(d[i] == ps[i] && d[j] == ps[j]);
            }
        }
        lemma_filter_one_per_track(d, f);
        let fd = d.filter(f);
        assert(ps.filter(f) == if f(ps.last()) { fd.push(ps.last()) } else { fd });
        assert forall|i: int| 0 <= i < fd.len() implies (#[trigger] fd[i]).track_id != ps.last().track_id by {
            let j = choose|j: int| 0 <= j < d.len() && d[j].track_id == fd[i].track_id;
            assert(d[j] == ps[j]);
        }
        let r = ps.filter(f);
        assert forall|i: int| 0 <= i < r.len() implies exists|j: int| 0 <= j < ps.len()
            && ps[j].track_id == (#[trigger] r[i]).track_id by {
            if i < fd.len() {
                let j = choose|j: int| 0 <= j < d.len() && d[j].track_id == fd[i].track_id;
                assert(ps[j] == d[j]);
            } else {
                assert(ps[ps.len() - 1].track_id == r[i].track_id);
            }
        }
    }
}

proof fn lemma_tick_one_per_track(ps: Seq<NotePreview>, block: u32)
    requires
        one_per_track(ps),
    ensures
        one_per_track(tick(ps, block).1),
        tracks_within(tick(ps, block).1, ps),
    decreases ps.len(),
{
    if ps.len() > 0 {
        let d = ps.drop_last();
        assert(one_per_track(d)) by {
            assert forall|i: int, j: int| 0 <= i < d.len() && 0 <= j < d.len() && i != j
                implies d[i].track_id != d[j].track_id by {
                assert(d[i] == ps[i] && d[j] == ps[j]);
            }
        }
        lemma_tick_one_per_track(d, block);
        let rest = tick(d, block).1;
        assert forall|i: int| 0 <= i < rest.len() implies (#[trigger] rest[i]).track_id != ps.last().track_id by {
            let j = choose|j: int| 0 <= j < d.len() && d[j].track_id == rest[i].track_id;
            assert(d[j] == ps[j]);
        }
        let r = tick(ps, block).1;
        assert forall|i: int| 0 <= i < r.len() implies exists|j: int| 0 <= j < ps.len()
            && ps[j].track_id == (#[trigger] r[i]).track_id by {
            if i < rest.len() {
                let j = choose|j: int| 0 <= j < d.len() && d[j].track_id == rest[i].track_id;
                assert(ps[j] == d[j]);
            } else {
                assert(ps[ps.len() - 1].track_id == r[i].track_id);
            }
        }
    }
}

/// A track never has two audition notes at once: every command and every
/// processed block keep at most one preview per track.
pub proof fn law_one_preview_per_track(s: ProcessorView, cmd: TransportCommand, tracks: Seq<TrackId>,
    held: Seq<Seq<(u8, u8)>>, block: u32)
    requires
        one_per_track(s.previews),
    ensures
        one_per_track(commanded(s, cmd, tracks, held).previews),
        one_per_track(tick(s.previews, block).1),
{
    lemma_tick_one_per_track(s.previews, block);
    if let TransportCommand::PreviewNote { track_id, pitch, velocity, duration_samples } = cmd {
        if s.transport != TransportState::Playing {
            lemma_filter_one_per_track(s.previews, off_track(track_id));
            let f = s.previews.filter(off_track(track_id));
            let r = f.push(new_preview(track_id, pitch, velocity, duration_samples));
            assert forall|i: int, j: int| 0 <= i < r.len() && 0 <= j < r.len() && i != j
                implies r[i].track_id != r[j].track_id by {
                if i < f.len() && j < f.len() {
                    assert(r[i] == f[i] && r[j] == f[j]);
                } else if i < f.len() {
                    assert(off_track(track_id)(f[i]));
                } else {
                    assert(off_track(track_id)(f[j]));
                }
            }
        }
    }
}

/// Seeking, stopping and starting playback leave no audition note sounding;
/// when a panic happens, it opens with the note-off of every sounding
/// preview (unless that alone passes the panic cap).
pub proof fn law_discontinuity_silences_previews(s: ProcessorView, cmd: TransportCommand, tracks: Seq<TrackId>,
    held: Seq<Seq<(u8, u8)>>)
    ensures
        (cmd is Seek || cmd == TransportCommand::SetTransport(TransportState::Stopped)
            || cmd == TransportCommand::SetTransport(TransportState::Playing))
            ==> commanded(s, cmd, tracks, held).previews.len() == 0,
        needs_panic(s, cmd) && releases(s.previews).len() <= MAX_PANIC_EVENTS
            ==> commanded(s, cmd, tracks, held).pending_panic_midi.take(releases(s.previews).len() as int)
                == releases(s.previews),
{
    if needs_panic(s, cmd) && releases(s.previews).len() <= MAX_PANIC_EVENTS {
        let all = releases(s.previews) + panic_burst(tracks, held);
        let n = releases(s.previews).len() as int;
        assert(capped(all).take(n) =~= releases(s.previews));
        let p = panicked(s, tracks, held);
        if let TransportCommand::SetTransport(state) = cmd {
            assert(p.previews.len() == 0);
        }
    }
}

/// Changing the transport state sets it, and only stopping moves the
/// playhead, back to the start: pausing or starting playback keeps the
/// position. Seeking moves the playhead to the target without touching the
/// transport state; loop and audition commands change neither, a loop
/// command sets the loop to its arguments, and an audition during playback
/// changes nothing.
pub proof fn law_transport_position(s: ProcessorView, cmd: TransportCommand, tracks: Seq<TrackId>,
    held: Seq<Seq<(u8, u8)>>)
    ensures
        ({
            let r = commanded(s, cmd, tracks, held);
            match cmd {
                TransportCommand::SetTransport(state) => {
                    &&& r.transport == state
                    &&& state == TransportState::Stopped ==> r.position == 0
                    &&& state != TransportState::Stopped ==> r.position == s.position
                },
                TransportCommand::Seek(pos) => r.position == pos.0 && r.transport == s.transport,
                TransportCommand::SetLoop { enabled, start, end } => {
                    &&& r.position == s.position && r.transport == s.transport
                    &&& r.loop_enabled == enabled && r.loop_start == start.0 && r.loop_end == end.0
                },
                TransportCommand::PreviewNote { .. } => {
                    &&& r.position == s.position && r.transport == s.transport
                    &&& s.transport == TransportState::Playing ==> r == s
                },
            }
        }),
{
}

/// The loop wraps the playhead only when looping is on over a non-empty
/// range, and then exactly when the playhead has reached the loop end; once
/// moved back to the loop start it is due no further wrap.
pub proof fn law_loop_wrap(s: ProcessorView)
    ensures
        !s.loop_enabled ==> !wrap_due(s),
        s.loop_end <= s.loop_start ==> !wrap_due(s),
        s.loop_enabled && s.loop_start < s.loop_end ==> (wrap_due(s) <==> s.position >= s.loop_end),
        !wrap_due(ProcessorView { position: s.loop_start, ..s }),
{
}

} // verus!
