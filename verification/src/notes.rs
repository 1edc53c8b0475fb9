//! Edits of note lists and of the notes of clips, as the command stack
//! applies them.
use vstd::prelude::*;
use crate::ids::{ClipId, NoteId};
use crate::clips::{Clip, ClipContent, ClipView, ContentView, MidiNote};
use crate::vecs::{first_where, lemma_first_where, position_where, any_where, retain_where};

verus! {

pub open spec fn note_id_is(id: NoteId) -> spec_fn(MidiNote) -> bool {
    |n: MidiNote| n.id == id
}

/// Notes whose id is none of the ids of `ids`.
pub open spec fn note_id_not_in(ids: Seq<MidiNote>) -> spec_fn(MidiNote) -> bool {
    |n: MidiNote| first_where(ids, note_id_is(n.id)) == -1
}

pub open spec fn note_id_not(id: NoteId) -> spec_fn(MidiNote) -> bool {
    |n: MidiNote| n.id != id
}

/// `n` appended unless a note with its id is already there.
pub open spec fn push_absent(ns: Seq<MidiNote>, n: MidiNote) -> Seq<MidiNote> {
    if first_where(ns, note_id_is(n.id)) == -1 {
        ns.push(n)
    } else {
        ns
    }
}

/// `push_absent` of each note of `added`, in order.
pub open spec fn push_absent_all(ns: Seq<MidiNote>, added: Seq<MidiNote>) -> Seq<MidiNote>
    decreases added.len(),
{
    if added.len() == 0 {
        ns
    } else {
        push_absent(push_absent_all(ns, added.drop_last()), added.last())
    }
}

/// The first note with id `id` replaced by `n`.
pub open spec fn edit_first(ns: Seq<MidiNote>, id: NoteId, n: MidiNote) -> Seq<MidiNote> {
    let k = first_where(ns, note_id_is(id));
    if k == -1 {
        ns
    } else {
        ns.update(k, n)
    }
}

/// `edit_first` with each note of `source`, by its own id, in order.
pub open spec fn edit_all(ns: Seq<MidiNote>, source: Seq<MidiNote>) -> Seq<MidiNote>
    decreases source.len(),
{
    if source.len() == 0 {
        ns
    } else {
        edit_first(edit_all(ns, source.drop_last()), source.last().id, source.last())
    }
}

/// Append `n` unless a note with the same id is present.
pub fn push_absent_exec(notes: &mut Vec<MidiNote>, n: MidiNote)
    ensures
        final(notes)@ == push_absent(old(notes)@, n),
{
    let id = n.id;
    let present = any_where(notes, |m: &MidiNote| -> (b: bool) ensures b == (m.id == id) { m.id == id },
        Ghost(note_id_is(id)));
    if !present {
        notes.push(n);
    }
}

/// `push_absent` of each note of `added`, in order.
pub fn push_absent_all_exec(notes: &mut Vec<MidiNote>, added: &Vec<MidiNote>)
    ensures
        final(notes)@ == push_absent_all(old(notes)@, added@),
{
    let ghost ns0 = notes@;
    let mut i: usize = 0;
    while i < added.len()
        invariant
            i <= added.len(),
            notes@ == push_absent_all(ns0, added@.take(i as int)),
        decreases added.len() - i,
    {
        proof {
            assert(added@.take(i as int + 1).drop_last() =~= added@.take(i as int));
        }
        push_absent_exec(notes, added[i]);
        i = i + 1;
    }
    assert(added@.take(added.len() as int) =~= added@);
}

/// Replace the first note with id `id` by `n`.
pub fn edit_first_exec(notes: &mut Vec<MidiNote>, id: NoteId, n: MidiNote)
    ensures
        final(notes)@ == edit_first(old(notes)@, id, n),
{
    let k = position_where(notes, |m: &MidiNote| -> (b: bool) ensures b == (m.id == id) { m.id == id },
        Ghost(note_id_is(id)));
    if let Some(k) = k {
        notes.set(k, n);
    }
}

/// `edit_first` with each note of `source`, by its own id, in order.
pub fn edit_all_exec(notes: &mut Vec<MidiNote>, source: &Vec<MidiNote>)
    ensures
        final(notes)@ == edit_all(old(notes)@, source@),
{
    let ghost ns0 = notes@;
    let mut i: usize = 0;
    while i < source.len()
        invariant
            i <= source.len(),
            notes@ == edit_all(ns0, source@.take(i as int)),
        decreases source.len() - i,
    {
        proof {
            assert(source@.take(i as int + 1).drop_last() =~= source@.take(i as int));
        }
        let n = source[i];
        edit_first_exec(notes, n.id, n);
        i = i + 1;
    }
    assert(source@.take(source.len() as int) =~= source@);
}

/// Drop the notes with id `id`.
pub fn remove_note_id(notes: &mut Vec<MidiNote>, id: NoteId)
    ensures
        final(notes)@ == old(notes)@.filter(note_id_not(id)),
{
    retain_where(notes, |m: &MidiNote| -> (b: bool) ensures b == (m.id != id) { m.id != id },
        Ghost(note_id_not(id)));
}

/// Whether some note of `ids` has id `id`.
fn has_note_id(ids: &Vec<MidiNote>, id: NoteId) -> (r: bool)
    ensures
        r == (first_where(ids@, note_id_is(id)) != -1),
{
    any_where(ids, |m: &MidiNote| -> (b: bool) ensures b == (m.id == id) { m.id == id }, Ghost(note_id_is(id)))
}

/// Drop the notes whose id is an id of `ids`.
pub fn remove_note_ids(notes: &mut Vec<MidiNote>, ids: &Vec<MidiNote>)
    ensures
        final(notes)@ == old(notes)@.filter(note_id_not_in(ids@)),
{
    retain_where(notes, |m: &MidiNote| -> (b: bool) ensures b == (first_where(ids@, note_id_is(m.id)) == -1)
        { !has_note_id(ids, m.id) }, Ghost(note_id_not_in(ids@)));
}

pub open spec fn clip_id_is(id: ClipId) -> spec_fn(Clip) -> bool {
    |c: Clip| c.id == id
}

/// The notes of the first clip with id `id`, when it is a MIDI clip.
pub open spec fn clip_notes(cs: Seq<Clip>, id: ClipId) -> Option<Seq<MidiNote>> {
    let k = first_where(cs, clip_id_is(id));
    if k == -1 {
        None
    } else {
        match cs[k].content@ {
            ContentView::Midi { notes, .. } => Some(notes),
            ContentView::Audio { .. } => None,
        }
    }
}

/// `c1` is clip `c0` with its MIDI notes replaced by `notes`.
pub open spec fn notes_replaced(c0: ClipView, c1: ClipView, notes: Seq<MidiNote>) -> bool {
    match c0.content {
        ContentView::Midi { scale, .. } => c1 == ClipView { content: ContentView::Midi { notes, scale }, ..c0 },
        ContentView::Audio { .. } => false,
    }
}

/// `cs1` is `cs0` with the notes of the first clip with id `id` replaced by
/// `notes` (which `clip_notes` found there).
pub open spec fn clip_notes_set(cs0: Seq<Clip>, cs1: Seq<Clip>, id: ClipId, notes: Seq<MidiNote>) -> bool {
    let k = first_where(cs0, clip_id_is(id));
    &&& 0 <= k < cs0.len()
    &&& cs1.len() == cs0.len()
    &&& forall|j: int| 0 <= j < cs0.len() && j != k ==> #[trigger] cs1[j] == cs0[j]
    &&& notes_replaced(cs0[k]@, cs1[k]@, notes)
}

/// Position and a copy of the notes of the first clip with id `id`, when it
/// is a MIDI clip.
pub fn find_clip_notes(clips: &Vec<Clip>, id: ClipId) -> (r: Option<(usize, Vec<MidiNote>)>)
    ensures
        match clip_notes(clips@, id) {
            Some(ns) => r matches Some((k, v)) && k as int == first_where(clips@, clip_id_is(id)) && v@ == ns,
            None => r is None,
        },
{
    let k = position_where(clips, |c: &Clip| -> (b: bool) ensures b == (c.id == id) { c.id == id },
        Ghost(clip_id_is(id)));
    match k {
        None => None,
        Some(k) => match clips[k].notes() {
            Some(ns) => Some((k, crate::clips::duplicate_notes(ns))),
            None => None,
        },
    }
}

/// Replace the notes of MIDI clip `k`.
pub fn set_clip_notes(clips: &mut Vec<Clip>, k: usize, notes: Vec<MidiNote>)
    requires
        k < old(clips)@.len(),
        old(clips)@[k as int].content@ is Midi,
    ensures
        final(clips)@.len() == old(clips)@.len(),
        forall|j: int| 0 <= j < old(clips)@.len() && j != k ==> #[trigger] final(clips)@[j] == old(clips)@[j],
        notes_replaced(old(clips)@[k as int]@, final(clips)@[k as int]@, notes@),
{
    let ghost ns = notes@;
    let c = clips.remove(k);
    let content = match c.content {
        ClipContent::Midi { scale, .. } => ClipContent::Midi { notes, scale },
        ClipContent::Audio { asset_id, source_offset_samples, gain_db } => ClipContent::Audio {
            asset_id,
            source_offset_samples,
            gain_db,
        },
    };
    let c2 = Clip {
        id: c.id,
        track_id: c.track_id,
        name: c.name,
        start_beats: c.start_beats,
        length_beats: c.length_beats,
        content,
        color: c.color,
    };
    clips.insert(k, c2);
}

} // verus!
