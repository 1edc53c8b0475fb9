//! Musical scale settings shared by the project model and the piano roll.
use vstd::prelude::*;
use crate::text::{owned, concat};

verus! {

broadcast use vstd::string::group_string_axioms;

/// Sharp-based name of pitch class `pc` (0 = C .. 11 = B).
pub open spec fn sharp_name(pc: int) -> Seq<char> {
    if pc == 0 { "C"@ }
    else if pc == 1 { "C#"@ }
    else if pc == 2 { "D"@ }
    else if pc == 3 { "D#"@ }
    else if pc == 4 { "E"@ }
    else if pc == 5 { "F"@ }
    else if pc == 6 { "F#"@ }
    else if pc == 7 { "G"@ }
    else if pc == 8 { "G#"@ }
    else if pc == 9 { "A"@ }
    else if pc == 10 { "A#"@ }
    else { "B"@ }
}

/// Flat-based name of pitch class `pc` (0 = C .. 11 = B).
pub open spec fn flat_name(pc: int) -> Seq<char> {
    if pc == 0 { "C"@ }
    else if pc == 1 { "Db"@ }
    else if pc == 2 { "D"@ }
    else if pc == 3 { "Eb"@ }
    else if pc == 4 { "E"@ }
    else if pc == 5 { "F"@ }
    else if pc == 6 { "Gb"@ }
    else if pc == 7 { "G"@ }
    else if pc == 8 { "Ab"@ }
    else if pc == 9 { "A"@ }
    else if pc == 10 { "Bb"@ }
    else { "B"@ }
}

/// Sharp-based note name of a pitch class (`pc < 12`).
pub fn sharp_note_name(pc: u8) -> (r: &'static str)
    requires
        pc < 12,
    ensures
        r@ == sharp_name(pc as int),
{
    match pc {
        0 => "C",
        1 => "C#",
        2 => "D",
        3 => "D#",
        4 => "E",
        5 => "F",
        6 => "F#",
        7 => "G",
        8 => "G#",
        9 => "A",
        10 => "A#",
        _ => "B",
    }
}

/// Flat-based note name of a pitch class (`pc < 12`).
pub fn flat_note_name(pc: u8) -> (r: &'static str)
    requires
        pc < 12,
    ensures
        r@ == flat_name(pc as int),
{
    match pc {
        0 => "C",
        1 => "Db",
        2 => "D",
        3 => "Eb",
        4 => "E",
        5 => "F",
        6 => "Gb",
        7 => "G",
        8 => "Ab",
        9 => "A",
        10 => "Bb",
        _ => "B",
    }
}

/// Available scale modes. Intervals are semitone offsets from the root.
#[derive(Debug, Clone, Copy, PartialEq, Eq, Structural)]
pub enum ScaleMode {
    Major,
    Minor,
    Dorian,
    Phrygian,
    Lydian,
    Mixolydian,
    Locrian,
    HarmonicMinor,
    MelodicMinor,
    MajorPentatonic,
    MinorPentatonic,
    Blues,
    Chromatic,
}

impl ScaleMode {
    pub open spec fn spec_name(self) -> Seq<char> {
        match self {
            ScaleMode::Major => "Major"@,
            ScaleMode::Minor => "Minor"@,
            ScaleMode::Dorian => "Dorian"@,
            ScaleMode::Phrygian => "Phrygian"@,
            ScaleMode::Lydian => "Lydian"@,
            ScaleMode::Mixolydian => "Mixolydian"@,
            ScaleMode::Locrian => "Locrian"@,
            ScaleMode::HarmonicMinor => "Harmonic Minor"@,
            ScaleMode::MelodicMinor => "Melodic Minor"@,
            ScaleMode::MajorPentatonic => "Major Pentatonic"@,
            ScaleMode::MinorPentatonic => "Minor Pentatonic"@,
            ScaleMode::Blues => "Blues"@,
            ScaleMode::Chromatic => "Chromatic"@,
        }
    }

    pub open spec fn spec_intervals(self) -> Seq<u8> {
        match self {
            ScaleMode::Major => seq![0u8, 2, 4, 5, 7, 9, 11],
            ScaleMode::Minor => seq![0u8, 2, 3, 5, 7, 8, 10],
            ScaleMode::Dorian => seq![0u8, 2, 3, 5, 7, 9, 10],
            ScaleMode::Phrygian => seq![0u8, 1, 3, 5, 7, 8, 10],
            ScaleMode::Lydian => seq![0u8, 2, 4, 6, 7, 9, 11],
            ScaleMode::Mixolydian => seq![0u8, 2, 4, 5, 7, 9, 10],
            ScaleMode::Locrian => seq![0u8, 1, 3, 5, 6, 8, 10],
            ScaleMode::HarmonicMinor => seq![0u8, 2, 3, 5, 7, 8, 11],
            ScaleMode::MelodicMinor => seq![0u8, 2, 3, 5, 7, 9, 11],
            ScaleMode::MajorPentatonic => seq![0u8, 2, 4, 7, 9],
            ScaleMode::MinorPentatonic => seq![0u8, 3, 5, 7, 10],
            ScaleMode::Blues => seq![0u8, 3, 5, 6, 7, 10],
            ScaleMode::Chromatic => seq![0u8, 1, 2, 3, 4, 5, 6, 7, 8, 9, 10, 11],
        }
    }

    pub open spec fn spec_prefers_flats(self) -> bool {
        match self {
            ScaleMode::Minor | ScaleMode::Dorian | ScaleMode::Phrygian | ScaleMode::Mixolydian
            | ScaleMode::Locrian | ScaleMode::HarmonicMinor | ScaleMode::MelodicMinor
            | ScaleMode::MinorPentatonic | ScaleMode::Blues => true,
            _ => false,
        }
    }

    pub fn name(self) -> (r: &'static str)
        ensures
            r@ == self.spec_name(),
    {
        match self {
            ScaleMode::Major => "Major",
            ScaleMode::Minor => "Minor",
            ScaleMode::Dorian => "Dorian",
            ScaleMode::Phrygian => "Phrygian",
            ScaleMode::Lydian => "Lydian",
            ScaleMode::Mixolydian => "Mixolydian",
            ScaleMode::Locrian => "Locrian",
            ScaleMode::HarmonicMinor => "Harmonic Minor",
            ScaleMode::MelodicMinor => "Melodic Minor",
            ScaleMode::MajorPentatonic => "Major Pentatonic",
            ScaleMode::MinorPentatonic => "Minor Pentatonic",
            ScaleMode::Blues => "Blues",
            ScaleMode::Chromatic => "Chromatic",
        }
    }

    /// Semitone offsets from the root that belong to the scale.
    pub fn intervals(self) -> (r: Vec<u8>)
        ensures
            r@ == self.spec_intervals(),
    {
        let r = match self {
            ScaleMode::Major => vec![0u8, 2, 4, 5, 7, 9, 11],
            ScaleMode::Minor => vec![0u8, 2, 3, 5, 7, 8, 10],
            ScaleMode::Dorian => vec![0u8, 2, 3, 5, 7, 9, 10],
            ScaleMode::Phrygian => vec![0u8, 1, 3, 5, 7, 8, 10],
            ScaleMode::Lydian => vec![0u8, 2, 4, 6, 7, 9, 11],
            ScaleMode::Mixolydian => vec![0u8, 2, 4, 5, 7, 9, 10],
            ScaleMode::Locrian => vec![0u8, 1, 3, 5, 6, 8, 10],
            ScaleMode::HarmonicMinor => vec![0u8, 2, 3, 5, 7, 8, 11],
            ScaleMode::MelodicMinor => vec![0u8, 2, 3, 5, 7, 9, 11],
            ScaleMode::MajorPentatonic => vec![0u8, 2, 4, 7, 9],
            ScaleMode::MinorPentatonic => vec![0u8, 3, 5, 7, 10],
            ScaleMode::Blues => vec![0u8, 3, 5, 6, 7, 10],
            ScaleMode::Chromatic => vec![0u8, 1, 2, 3, 4, 5, 6, 7, 8, 9, 10, 11],
        };
        assert(r@ =~= self.spec_intervals());
        r
    }

    /// Whether this mode conventionally favours flat note names.
    pub fn prefers_flats(self) -> (r: bool)
        ensures
            r == self.spec_prefers_flats(),
    {
        match self {
            ScaleMode::Minor | ScaleMode::Dorian | ScaleMode::Phrygian | ScaleMode::Mixolydian
            | ScaleMode::Locrian | ScaleMode::HarmonicMinor | ScaleMode::MelodicMinor
            | ScaleMode::MinorPentatonic | ScaleMode::Blues => true,
            _ => false,
        }
    }
}

/// `pc` occurs in `s`.
pub fn contains_u8(s: &Vec<u8>, pc: u8) -> (r: bool)
    ensures
        r == s@.contains(pc),
{
    let mut i: usize = 0;
    while i < s.len()
        invariant
            i <= s.len(),
            forall|j: int| 0 <= j < i ==> s@[j] != pc,
        decreases s.len() - i,
    {
        if s[i] == pc {
            return true;
        }
        i = i + 1;
    }
    false
}

/// Notes joined by single spaces.
pub open spec fn join_spaced(names: Seq<Seq<char>>) -> Seq<char>
    decreases names.len(),
{
    if names.len() == 0 {
        Seq::empty()
    } else if names.len() == 1 {
        names[0]
    } else {
        join_spaced(names.drop_last()) + " "@ + names.last()
    }
}

/// Scale guide saved with each MIDI clip.
#[derive(Debug, Clone, Copy, PartialEq, Eq, Structural)]
pub struct ScaleSettings {
    /// When false, the piano roll uses the all-chromatic appearance.
    pub highlight: bool,
    /// Root pitch class, 0 = C .. 11 = B.
    pub root: u8,
    pub mode: ScaleMode,
}

impl ScaleSettings {
    pub fn default() -> (s: ScaleSettings)
        ensures
            s == (ScaleSettings { highlight: true, root: 0, mode: ScaleMode::Major }),
    {
        ScaleSettings { highlight: true, root: 0, mode: ScaleMode::Major }
    }

    /// Name of pitch class `pc % 12`, flat- or sharp-based by the mode.
    pub open spec fn spec_note_name(self, pc: int) -> Seq<char> {
        if self.mode.spec_prefers_flats() {
            flat_name(pc % 12)
        } else {
            sharp_name(pc % 12)
        }
    }

    /// The scale's notes from the root, in interval order.
    pub open spec fn spec_blueprint(self) -> Seq<char> {
        join_spaced(
            self.mode.spec_intervals().map_values(|iv: u8| self.spec_note_name(self.root + iv)),
        )
    }

    /// The pitch class of `pitch` relative to the root is a degree of the scale.
    pub fn contains(self, pitch: u8) -> (r: bool)
        ensures
            r == self.mode.spec_intervals().contains(((pitch - self.root) % 12) as u8),
    {
        let d: i16 = pitch as i16 - self.root as i16;
        let pc: u8 = (((d % 12) + 12) % 12) as u8;
        assert(pc == (pitch - self.root) % 12);
        contains_u8(&self.mode.intervals(), pc)
    }

    pub fn is_root(self, pitch: u8) -> (r: bool)
        ensures
            r == (pitch % 12 == self.root % 12),
    {
        pitch % 12 == self.root % 12
    }

    pub fn root_name(self) -> (r: &'static str)
        ensures
            r@ == self.spec_note_name(self.root as int),
    {
        self.note_name(self.root)
    }

    pub fn note_name(self, pitch_class: u8) -> (r: &'static str)
        ensures
            r@ == self.spec_note_name(pitch_class as int),
    {
        let pc = pitch_class % 12;
        if self.mode.prefers_flats() {
            flat_note_name(pc)
        } else {
            sharp_note_name(pc)
        }
    }

    /// "C D E F G A B": the notes of the scale from the root.
    pub fn blueprint(self) -> (r: String)
        ensures
            r@ == self.spec_blueprint(),
    {
        let ivs = self.mode.intervals();
        let ghost names = ivs@.map_values(|iv: u8| self.spec_note_name(self.root + iv));
        proof {
            reveal_strlit("");
        }
        let mut r = owned("");
        let mut i: usize = 0;
        assert(names.take(0) =~= Seq::<Seq<char>>::empty());
        while i < ivs.len()
            invariant
                i <= ivs.len(),
                ivs@ == self.mode.spec_intervals(),
                names == ivs@.map_values(|iv: u8| self.spec_note_name(self.root + iv)),
                r@ == join_spaced(names.take(i as int)),
            decreases ivs.len() - i,
        {
            let pc: u8 = ((self.root as u16 + ivs[i] as u16) % 12) as u8;
            let name = self.note_name(pc);
            assert(self.spec_note_name(pc as int) == names[i as int]);
            assert(names.take(i as int + 1).drop_last() =~= names.take(i as int));
            if i == 0 {
                r = owned(name);
            } else {
                r = concat(r.as_str(), " ");
                r = concat(r.as_str(), name);
            }
            i = i + 1;
        }
        assert(names.take(ivs.len() as int) =~= names);
        r
    }
}

/// The two spellings of the twelve pitch classes: a natural note has one
/// name, a single letter, in both; an altered note is the natural below it
/// raised (`#`) in the sharp spelling and the natural above it lowered (`b`)
/// in the flat one. No two pitch classes share a name.
pub proof fn law_note_spelling(pc: int, other: int)
    requires
        0 <= pc < 12,
        0 <= other < 12,
    ensures
        (pc == 0 || pc == 2 || pc == 4 || pc == 5 || pc == 7 || pc == 9 || pc == 11)
            ==> sharp_name(pc) == flat_name(pc) && sharp_name(pc).len() == 1,
        (pc == 1 || pc == 3 || pc == 6 || pc == 8 || pc == 10)
            ==> sharp_name(pc) == sharp_name(pc - 1) + "#"@ && flat_name(pc) == flat_name(pc + 1) + "b"@,
        pc != other ==> sharp_name(pc) != sharp_name(other) && flat_name(pc) != flat_name(other),
{
    reveal_strlit("C");
    reveal_strlit("C#");
    reveal_strlit("Db");
    reveal_strlit("D");
    reveal_strlit("D#");
    reveal_strlit("Eb");
    reveal_strlit("E");
    reveal_strlit("F");
    reveal_strlit("F#");
    reveal_strlit("Gb");
    reveal_strlit("G");
    reveal_strlit("G#");
    reveal_strlit("Ab");
    reveal_strlit("A");
    reveal_strlit("A#");
    reveal_strlit("Bb");
    reveal_strlit("B");
    reveal_strlit("#");
    reveal_strlit("b");
    if pc != other {
        if sharp_name(pc) == sharp_name(other) {
            assert(sharp_name(pc).len() == sharp_name(other).len());
            assert(sharp_name(pc)[0] == sharp_name(other)[0]);
        }
        if flat_name(pc) == flat_name(other) {
            assert(flat_name(pc).len() == flat_name(other).len());
            assert(flat_name(pc)[0] == flat_name(other)[0]);
        }
    }
    if pc == 1 || pc == 3 || pc == 6 || pc == 8 || pc == 10 {
        assert(sharp_name(pc) =~= sharp_name(pc - 1) + "#"@);
        assert(flat_name(pc) =~= flat_name(pc + 1) + "b"@);
    }
}

/// The tones of the major mode of `r`: the major scale started on its
/// degree `r` (0-based) and counted from there, in rising order.
pub open spec fn major_mode(r: int) -> Seq<int> {
    let m = ScaleMode::Major.spec_intervals();
    Seq::new(7, |i: int| if i + r < 7 { m[i + r] - m[r] } else { m[i + r - 7] + 12 - m[r] })
}

/// The scales as music theory builds them: the major scale rises by whole,
/// whole, half, whole, whole, whole steps; the church modes are the major
/// scale started on its other degrees (Dorian on the second, Phrygian the
/// third, Lydian the fourth, Mixolydian the fifth, natural minor the sixth,
/// Locrian the seventh); harmonic minor raises the natural minor's seventh,
/// melodic minor its sixth and seventh; the major pentatonic leaves out the
/// major scale's fourth and seventh, the minor pentatonic the natural minor's
/// second and sixth; the blues scale adds the flat fifth to the minor
/// pentatonic; the chromatic scale holds all twelve pitch classes. Every
/// scale starts at its root and rises within the octave.
pub proof fn law_scale_modes(mode: ScaleMode)
    ensures
        ({
            let t = mode.spec_intervals();
            &&& t.len() >= 1 && t[0] == 0
            &&& forall|i: int, j: int| 0 <= i < j < t.len() ==> t[i] < t[j]
            &&& forall|i: int| 0 <= i < t.len() ==> #[trigger] t[i] < 12
        }),
        ({
            let m = ScaleMode::Major.spec_intervals();
            let n = ScaleMode::Minor.spec_intervals();
            &&& m.len() == 7
            &&& m[1] - m[0] == 2 && m[2] - m[1] == 2 && m[3] - m[2] == 1 && m[4] - m[3] == 2
            &&& m[5] - m[4] == 2 && m[6] - m[5] == 2
            &&& ScaleMode::Dorian.spec_intervals().map_values(|x: u8| x as int) == major_mode(1)
            &&& ScaleMode::Phrygian.spec_intervals().map_values(|x: u8| x as int) == major_mode(2)
            &&& ScaleMode::Lydian.spec_intervals().map_values(|x: u8| x as int) == major_mode(3)
            &&& ScaleMode::Mixolydian.spec_intervals().map_values(|x: u8| x as int) == major_mode(4)
            &&& n.map_values(|x: u8| x as int) == major_mode(5)
            &&& ScaleMode::Locrian.spec_intervals().map_values(|x: u8| x as int) == major_mode(6)
            &&& ScaleMode::HarmonicMinor.spec_intervals() == n.update(6, (n[6] + 1) as u8)
            &&& ScaleMode::MelodicMinor.spec_intervals() == n.update(5, (n[5] + 1) as u8).update(6, (n[6] + 1) as u8)
            &&& ScaleMode::MajorPentatonic.spec_intervals() == seq![m[0], m[1], m[2], m[4], m[5]]
            &&& ScaleMode::MinorPentatonic.spec_intervals() == seq![n[0], n[2], n[3], n[4], n[6]]
            &&& ScaleMode::Blues.spec_intervals() == seq![n[0], n[2], n[3], (n[4] - 1) as u8, n[4], n[6]]
            &&& ScaleMode::Chromatic.spec_intervals() == Seq::new(12, |i: int| i as u8)
        }),
{
    let m = ScaleMode::Major.spec_intervals();
    let n = ScaleMode::Minor.spec_intervals();
    assert(ScaleMode::Dorian.spec_intervals().map_values(|x: u8| x as int) =~= major_mode(1));
    assert(ScaleMode::Phrygian.spec_intervals().map_values(|x: u8| x as int) =~= major_mode(2));
    assert(ScaleMode::Lydian.spec_intervals().map_values(|x: u8| x as int) =~= major_mode(3));
    assert(ScaleMode::Mixolydian.spec_intervals().map_values(|x: u8| x as int) =~= major_mode(4));
    assert(n.map_values(|x: u8| x as int) =~= major_mode(5));
    assert(ScaleMode::Locrian.spec_intervals().map_values(|x: u8| x as int) =~= major_mode(6));
    assert(ScaleMode::HarmonicMinor.spec_intervals() =~= n.update(6, (n[6] + 1) as u8));
    assert(ScaleMode::MelodicMinor.spec_intervals() =~= n.update(5, (n[5] + 1) as u8).update(6, (n[6] + 1) as u8));
    assert(ScaleMode::MajorPentatonic.spec_intervals() =~= seq![m[0], m[1], m[2], m[4], m[5]]);
    assert(ScaleMode::MinorPentatonic.spec_intervals() =~= seq![n[0], n[2], n[3], n[4], n[6]]);
    assert(ScaleMode::Blues.spec_intervals() =~= seq![n[0], n[2], n[3], (n[4] - 1) as u8, n[4], n[6]]);
    assert(ScaleMode::Chromatic.spec_intervals() =~= Seq::new(12, |i: int| i as u8));
}

} // verus!
