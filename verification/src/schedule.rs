//! Note scheduling over sample positions: which note events fall in an audio
//! block, and which notes sound at a position. Each note comes with its
//! note-on and note-off samples; the audio thread works those out from the
//! tempo map and the note's beats, which is floating point.
use vstd::prelude::*;
use crate::clips::{ScheduledMidiEvent, spec_note_on, spec_note_off};
use crate::routing::{in_block_order, event_key, sort_events};

verus! {

/// A note with its timing resolved to samples.
#[derive(Debug, Clone, Copy, PartialEq, Eq, Structural)]
pub struct TimedNote {
    pub pitch: u8,
    pub velocity: u8,
    pub channel: u8,
    /// Sample of the note-on.
    pub on: i64,
    /// Sample of the note-off.
    pub off: i64,
}

/// The end of the block of `len` samples from `start`, saturating at
/// `i64::MAX`.
pub open spec fn block_end(start: i64, len: u32) -> int {
    if start + len > i64::MAX { i64::MAX as int } else { start + len }
}

/// The events of one note inside `[start, end)`: its note-on, then its
/// note-off, each when its sample falls there, at its offset from `start`.
pub open spec fn note_events(n: TimedNote, start: int, end: int) -> Seq<ScheduledMidiEvent> {
    (if start <= n.on < end {
        seq![spec_note_on((n.on - start) as u32, n.pitch, n.velocity, n.channel)]
    } else {
        Seq::empty()
    }) + (if start <= n.off < end {
        seq![spec_note_off((n.off - start) as u32, n.pitch, n.channel)]
    } else {
        Seq::empty()
    })
}

/// The events of the notes of `ns` inside `[start, end)`, note by note.
pub open spec fn block_events(ns: Seq<TimedNote>, start: int, end: int) -> Seq<ScheduledMidiEvent>
    decreases ns.len(),
{
    if ns.len() == 0 {
        Seq::empty()
    } else {
        block_events(ns.drop_last(), start, end) + note_events(ns.last(), start, end)
    }
}

/// `e` moved `d` samples later.
pub open spec fn shifted(e: ScheduledMidiEvent, d: int) -> ScheduledMidiEvent {
    ScheduledMidiEvent { sample_offset: (e.sample_offset + d) as u32, ..e }
}

/// Every event of `es` moved `d` samples later.
pub open spec fn shift_all(es: Seq<ScheduledMidiEvent>, d: int) -> Seq<ScheduledMidiEvent> {
    es.map_values(|e: ScheduledMidiEvent| shifted(e, d))
}

proof fn lemma_adjacent_note(n: TimedNote, s: int, a: int, b: int)
    requires
        0 <= a,
        0 <= b,
        a + b <= u32::MAX,
    ensures
        note_events(n, s, s + a + b).to_multiset()
            == note_events(n, s, s + a).to_multiset().add(shift_all(note_events(n, s + a, s + a + b), a).to_multiset()),
{
    broadcast use vstd::seq_lib::group_to_multiset_ensures;
    broadcast use vstd::seq_lib::lemma_multiset_commutative;
    let e = s + a + b;
    let on_all: Seq<ScheduledMidiEvent> = if s <= n.on < e { seq![spec_note_on((n.on - s) as u32, n.pitch, n.velocity, n.channel)] } else { Seq::empty() };
    let off_all: Seq<ScheduledMidiEvent> = if s <= n.off < e { seq![spec_note_off((n.off - s) as u32, n.pitch, n.channel)] } else { Seq::empty() };
    let on1: Seq<ScheduledMidiEvent> = if s <= n.on < s + a { seq![spec_note_on((n.on - s) as u32, n.pitch, n.velocity, n.channel)] } else { Seq::empty() };
    let off1: Seq<ScheduledMidiEvent> = if s <= n.off < s + a { seq![spec_note_off((n.off - s) as u32, n.pitch, n.channel)] } else { Seq::empty() };
    let on2: Seq<ScheduledMidiEvent> = if s + a <= n.on < e { seq![spec_note_on((n.on - (s + a)) as u32, n.pitch, n.velocity, n.channel)] } else { Seq::empty() };
    let off2: Seq<ScheduledMidiEvent> = if s + a <= n.off < e { seq![spec_note_off((n.off - (s + a)) as u32, n.pitch, n.channel)] } else { Seq::empty() };
    assert(note_events(n, s, e) == on_all + off_all);
    assert(note_events(n, s, s + a) == on1 + off1);
    assert(note_events(n, s + a, e) == on2 + off2);
    assert(shift_all(on2 + off2, a) =~= shift_all(on2, a) + shift_all(off2, a));
    let empty = Seq::<ScheduledMidiEvent>::empty();
    assert(shift_all(empty, a) =~= empty);
    if s <= n.on < s + a {
        assert(on2 == empty && on_all == on1);
    } else if s + a <= n.on < e {
        assert(on1 == empty);
        assert(shift_all(on2, a) =~= on_all);
    } else {
        assert(on1 == empty && on2 == empty && on_all == empty);
    }
    assert(on_all.to_multiset() =~= on1.to_multiset().add(shift_all(on2, a).to_multiset()));
    if s <= n.off < s + a {
        assert(off2 == empty && off_all == off1);
    } else if s + a <= n.off < e {
        assert(off1 == empty);
        assert(shift_all(off2, a) =~= off_all);
    } else {
        assert(off1 == empty && off2 == empty && off_all == empty);
    }
    assert(off_all.to_multiset() =~= off1.to_multiset().add(shift_all(off2, a).to_multiset()));
    assert(note_events(n, s, e).to_multiset() =~= note_events(n, s, s + a).to_multiset().add(
        shift_all(note_events(n, s + a, e), a).to_multiset()));
}

/// Scheduling two adjacent blocks gives the events of one block spanning
/// both: the same events, those of the second block counted from the first
/// block's start.
pub proof fn law_adjacent_blocks(ns: Seq<TimedNote>, s: int, a: int, b: int)
    requires
        0 <= a,
        0 <= b,
        a + b <= u32::MAX,
    ensures
        block_events(ns, s, s + a + b).to_multiset()
            == block_events(ns, s, s + a).to_multiset().add(shift_all(block_events(ns, s + a, s + a + b), a).to_multiset()),
    decreases ns.len(),
{
    broadcast use vstd::seq_lib::group_to_multiset_ensures;
    broadcast use vstd::seq_lib::lemma_multiset_commutative;
    if ns.len() == 0 {
        assert(block_events(ns, s, s + a + b).to_multiset() =~= vstd::multiset::Multiset::empty());
        assert(block_events(ns, s, s + a).to_multiset() =~= vstd::multiset::Multiset::empty());
        assert(shift_all(block_events(ns, s + a, s + a + b), a).to_multiset() =~= vstd::multiset::Multiset::empty());
    } else {
        let d = ns.drop_last();
        let n = ns.last();
        let e = s + a + b;
        law_adjacent_blocks(d, s, a, b);
        lemma_adjacent_note(n, s, a, b);
        assert(shift_all(block_events(ns, s + a, e), a) =~= shift_all(block_events(d, s + a, e), a)
            + shift_all(note_events(n, s + a, e), a));
        assert(block_events(ns, s, e).to_multiset() =~= block_events(ns, s, s + a).to_multiset().add(
            shift_all(block_events(ns, s + a, e), a).to_multiset()));
    }
}

/// Note events of `notes` that fall in the block of `block_len` samples
/// starting at `block_start`, in block order: by sample offset, then note-off
/// before note-on; events that tie keep note order, each note's note-on
/// before its note-off (a stable sort).
pub fn schedule_block(notes: &Vec<TimedNote>, block_start: i64, block_len: u32) -> (r: Vec<ScheduledMidiEvent>)
    ensures
        r@ == in_block_order(block_events(notes@, block_start as int, block_end(block_start, block_len)), event_key()),
{
    let len: i64 = block_len as i64;
    let end: i64 = if block_start > i64::MAX - len { i64::MAX } else { block_start + len };
    let mut r: Vec<ScheduledMidiEvent> = Vec::new();
    let mut i: usize = 0;
    while i < notes.len()
        invariant
            i <= notes.len(),
            end == block_end(block_start, block_len),
            r@ == block_events(notes@.take(i as int), block_start as int, end as int),
        decreases notes.len() - i,
    {
        let n = notes[i];
        let ghost before = r@;
        if block_start <= n.on && n.on < end {
            r.push(ScheduledMidiEvent::note_on((n.on - block_start) as u32, n.pitch, n.velocity, n.channel));
        }
        if block_start <= n.off && n.off < end {
            r.push(ScheduledMidiEvent::note_off((n.off - block_start) as u32, n.pitch, n.channel));
        }
        proof {
            let t = notes@.take(i + 1);
            assert(t.drop_last() =~= notes@.take(i as int));
            assert(t.last() == n);
            assert(r@ =~= before + note_events(n, block_start as int, end as int));
        }
        i = i + 1;
    }
    proof {
        assert(notes@.take(notes.len() as int) =~= notes@);
    }
    sort_events(r)
}

/// The (pitch, channel) key a held note is released by: pitch at most 127,
/// channel in 0..16.
pub open spec fn held_key(n: TimedNote) -> (u8, u8) {
    (if n.pitch > 127 { 127u8 } else { n.pitch }, n.channel & 0x0f)
}

/// The keys of the notes of `ns` sounding at `pos` (note-on at or before it,
/// note-off after it), each once, in the order first met.
pub open spec fn held_keys(ns: Seq<TimedNote>, pos: int) -> Seq<(u8, u8)>
    decreases ns.len(),
{
    if ns.len() == 0 {
        Seq::empty()
    } else {
        let h = held_keys(ns.drop_last(), pos);
        let n = ns.last();
        if n.on <= pos < n.off && !h.contains(held_key(n)) {
            h.push(held_key(n))
        } else {
            h
        }
    }
}

fn contains_key(v: &Vec<(u8, u8)>, k: (u8, u8)) -> (r: bool)
    ensures
        r == v@.contains(k),
{
    let mut i: usize = 0;
    while i < v.len()
        invariant
            i <= v.len(),
            forall|j: int| 0 <= j < i ==> v@[j] != k,
        decreases v.len() - i,
    {
        if v[i].0 == k.0 && v[i].1 == k.1 {
            assert(v@[i as int] == k);
            return true;
        }
        i = i + 1;
    }
    false
}

/// The (pitch, channel) keys of the notes sounding at `pos`, each once, in
/// the order first met.
pub fn notes_held_at(notes: &Vec<TimedNote>, pos: i64) -> (r: Vec<(u8, u8)>)
    ensures
        r@ == held_keys(notes@, pos as int),
{
    let mut r: Vec<(u8, u8)> = Vec::new();
    let mut i: usize = 0;
    while i < notes.len()
        invariant
            i <= notes.len(),
            r@ == held_keys(notes@.take(i as int), pos as int),
        decreases notes.len() - i,
    {
        let n = notes[i];
        proof {
            let t = notes@.take(i + 1);
            assert(t.drop_last() =~= notes@.take(i as int));
            assert(t.last() == n);
        }
        if n.on <= pos && pos < n.off {
            let key: (u8, u8) = (if n.pitch > 127 { 127 } else { n.pitch }, n.channel & 0x0f);
            if !contains_key(&r, key) {
                r.push(key);
            }
        }
        i = i + 1;
    }
    proof {
        assert(notes@.take(notes.len() as int) =~= notes@);
    }
    r
}

} // verus!
