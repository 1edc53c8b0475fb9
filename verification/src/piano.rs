//! Piano-roll helpers: the scale guide as the editor reads it, full note
//! names, and chord shapes for stamping.
use vstd::prelude::*;
use crate::scale::{sharp_name, sharp_note_name};
use crate::text::{owned, concat, push_char};

pub use crate::scale::ScaleMode;

verus! {

broadcast use vstd::string::group_string_axioms;

/// The piano roll's scale settings; unlike the clip's guide, a pitch is the
/// root only when its pitch class equals `root` as stored.
#[derive(Debug, Clone, Copy, PartialEq, Eq, Structural)]
pub struct ScaleSettings {
    /// When false, the piano roll draws with the classic all-chromatic look.
    pub highlight: bool,
    /// Root pitch class, 0 = C .. 11 = B.
    pub root: u8,
    pub mode: ScaleMode,
}

impl ScaleSettings {
    pub open spec fn guide(self) -> crate::scale::ScaleSettings {
        crate::scale::ScaleSettings { highlight: self.highlight, root: self.root, mode: self.mode }
    }

    fn as_guide(self) -> (g: crate::scale::ScaleSettings)
        ensures
            g == self.guide(),
    {
        crate::scale::ScaleSettings { highlight: self.highlight, root: self.root, mode: self.mode }
    }

    pub fn default() -> (s: ScaleSettings)
        ensures
            s == (ScaleSettings { highlight: true, root: 0, mode: ScaleMode::Major }),
    {
        ScaleSettings { highlight: true, root: 0, mode: ScaleMode::Major }
    }

    /// True if the pitch class of `pitch` relative to the root is a degree
    /// of the scale.
    pub fn contains(self, pitch: u8) -> (r: bool)
        ensures
            r == self.mode.spec_intervals().contains(((pitch - self.root) % 12) as u8),
    {
        self.as_guide().contains(pitch)
    }

    /// True if the pitch is the tonic of the scale.
    pub fn is_root(self, pitch: u8) -> (r: bool)
        ensures
            r == (pitch % 12 == self.root),
    {
        pitch % 12 == self.root
    }

    pub fn root_name(self) -> (r: &'static str)
        ensures
            r@ == self.guide().spec_note_name(self.root as int),
    {
        self.as_guide().root_name()
    }

    /// The name of a pitch class in this scale's spelling.
    pub fn note_name(self, pitch_class: u8) -> (r: &'static str)
        ensures
            r@ == self.guide().spec_note_name(pitch_class as int),
    {
        self.as_guide().note_name(pitch_class)
    }

    /// "C D E F G A B": the notes of the scale in pitch order.
    pub fn blueprint(self) -> (r: String)
        ensures
            r@ == self.guide().spec_blueprint(),
    {
        self.as_guide().blueprint()
    }
}

/// Decimal digits of `n` (no sign).
pub open spec fn decimal(n: nat) -> Seq<char>
    decreases n,
{
    if n < 10 {
        seq![(48 + n) as char]
    } else {
        decimal(n / 10).push((48 + n % 10) as char)
    }
}

/// The octave of MIDI `pitch` in scientific pitch notation (60 is in 4).
pub open spec fn octave_of(pitch: u8) -> int {
    pitch / 12 - 1
}

/// Octaves in scientific pitch notation: pitches twelve semitones apart
/// have the same pitch class and octave numbers one apart, and each octave
/// starts at a C, with middle C (60) in octave 4.
pub proof fn law_octaves(pitch: u8)
    ensures
        pitch + 12 <= 255 ==> octave_of((pitch + 12) as u8) == octave_of(pitch) + 1
            && ((pitch + 12) as u8) % 12 == pitch % 12,
        octave_of(pitch) == octave_of((pitch - pitch % 12) as u8),
        octave_of(60) == 4,
        octave_of(pitch) >= -1,
{
}

/// Full note name with octave, e.g. MIDI 60 -> "C4" (sharp spelling).
pub open spec fn full_note_name(pitch: u8) -> Seq<char> {
    let o = octave_of(pitch);
    sharp_name((pitch % 12) as int) + (if o < 0 { "-"@ + decimal((-o) as nat) } else { decimal(o as nat) })
}

/// Full note name with octave, e.g. MIDI 60 -> "C4" (scientific pitch
/// notation, sharp spelling).
pub fn note_name(pitch: u8) -> (s: String)
    ensures
        s@ == full_note_name(pitch),
{
    let mut s = owned(sharp_note_name(pitch % 12));
    let octave: u8 = pitch / 12;
    if octave == 0 {
        s = concat(s.as_str(), "-1");
        proof {
            reveal_strlit("-1");
            reveal_strlit("-");
            assert("-1"@ =~= "-"@ + decimal(1));
        }
    } else {
        let o: u8 = octave - 1;
        if o >= 10 {
            push_char(&mut s, ((48 + o / 10) as u8) as char);
            push_char(&mut s, ((48 + o % 10) as u8) as char);
            proof {
                assert(decimal((o / 10) as nat) == seq![(48 + o / 10) as char]);
                assert(decimal(o as nat) =~= seq![(48 + o / 10) as char, (48 + o % 10) as char]);
            }
        } else {
            push_char(&mut s, ((48 + o) as u8) as char);
            proof {
                assert(decimal(o as nat) =~= seq![(48 + o) as char]);
            }
        }
    }
    s
}

/// Chord shapes the piano roll can stamp.
#[derive(Debug, Clone, Copy, PartialEq, Eq, Structural)]
pub enum ChordKind {
    Major,
    Minor,
    Power,
    Diminished,
    Augmented,
    Suspended2,
    Suspended4,
    Major6,
    Minor6,
    Major7,
    Minor7,
    Dominant7,
    Diminished7,
    HalfDiminished,
    MinorMajor7,
    Dominant7Sus4,
    Add9,
    Major9,
    Minor9,
    Dominant9,
}

impl ChordKind {
    pub open spec fn spec_name(self) -> Seq<char> {
        match self {
            ChordKind::Major => "Major"@,
            ChordKind::Minor => "Minor"@,
            ChordKind::Power => "Power"@,
            ChordKind::Diminished => "Diminished"@,
            ChordKind::Augmented => "Augmented"@,
            ChordKind::Suspended2 => "Suspended 2"@,
            ChordKind::Suspended4 => "Suspended 4"@,
            ChordKind::Major6 => "Major 6"@,
            ChordKind::Minor6 => "Minor 6"@,
            ChordKind::Major7 => "Major 7"@,
            ChordKind::Minor7 => "Minor 7"@,
            ChordKind::Dominant7 => "Dominant 7"@,
            ChordKind::Diminished7 => "Diminished 7"@,
            ChordKind::HalfDiminished => "Half-diminished"@,
            ChordKind::MinorMajor7 => "Minor-major 7"@,
            ChordKind::Dominant7Sus4 => "7sus4"@,
            ChordKind::Add9 => "Add 9"@,
            ChordKind::Major9 => "Major 9"@,
            ChordKind::Minor9 => "Minor 9"@,
            ChordKind::Dominant9 => "Dominant 9"@,
        }
    }

    pub open spec fn spec_intervals(self) -> Seq<u8> {
        match self {
            ChordKind::Major => seq![0u8, 4, 7],
            ChordKind::Minor => seq![0u8, 3, 7],
            ChordKind::Power => seq![0u8, 7],
            ChordKind::Diminished => seq![0u8, 3, 6],
            ChordKind::Augmented => seq![0u8, 4, 8],
            ChordKind::Suspended2 => seq![0u8, 2, 7],
            ChordKind::Suspended4 => seq![0u8, 5, 7],
            ChordKind::Major6 => seq![0u8, 4, 7, 9],
            ChordKind::Minor6 => seq![0u8, 3, 7, 9],
            ChordKind::Major7 => seq![0u8, 4, 7, 11],
            ChordKind::Minor7 => seq![0u8, 3, 7, 10],
            ChordKind::Dominant7 => seq![0u8, 4, 7, 10],
            ChordKind::Diminished7 => seq![0u8, 3, 6, 9],
            ChordKind::HalfDiminished => seq![0u8, 3, 6, 10],
            ChordKind::MinorMajor7 => seq![0u8, 3, 7, 11],
            ChordKind::Dominant7Sus4 => seq![0u8, 5, 7, 10],
            ChordKind::Add9 => seq![0u8, 4, 7, 14],
            ChordKind::Major9 => seq![0u8, 4, 7, 11, 14],
            ChordKind::Minor9 => seq![0u8, 3, 7, 10, 14],
            ChordKind::Dominant9 => seq![0u8, 4, 7, 10, 14],
        }
    }

    pub fn default() -> (c: ChordKind)
        ensures
            c == ChordKind::Major,
    {
        ChordKind::Major
    }

    pub fn name(self) -> (r: &'static str)
        ensures
            r@ == self.spec_name(),
    {
        match self {
            ChordKind::Major => "Major",
            ChordKind::Minor => "Minor",
            ChordKind::Power => "Power",
            ChordKind::Diminished => "Diminished",
            ChordKind::Augmented => "Augmented",
            ChordKind::Suspended2 => "Suspended 2",
            ChordKind::Suspended4 => "Suspended 4",
            ChordKind::Major6 => "Major 6",
            ChordKind::Minor6 => "Minor 6",
            ChordKind::Major7 => "Major 7",
            ChordKind::Minor7 => "Minor 7",
            ChordKind::Dominant7 => "Dominant 7",
            ChordKind::Diminished7 => "Diminished 7",
            ChordKind::HalfDiminished => "Half-diminished",
            ChordKind::MinorMajor7 => "Minor-major 7",
            ChordKind::Dominant7Sus4 => "7sus4",
            ChordKind::Add9 => "Add 9",
            ChordKind::Major9 => "Major 9",
            ChordKind::Minor9 => "Minor 9",
            ChordKind::Dominant9 => "Dominant 9",
        }
    }

    /// Chord tones as semitone offsets from the root.
    pub fn intervals(self) -> (r: Vec<u8>)
        ensures
            r@ == self.spec_intervals(),
    {
        let r = match self {
            ChordKind::Major => vec![0u8, 4, 7],
            ChordKind::Minor => vec![0u8, 3, 7],
            ChordKind::Power => vec![0u8, 7],
            ChordKind::Diminished => vec![0u8, 3, 6],
            ChordKind::Augmented => vec![0u8, 4, 8],
            ChordKind::Suspended2 => vec![0u8, 2, 7],
            ChordKind::Suspended4 => vec![0u8, 5, 7],
            ChordKind::Major6 => vec![0u8, 4, 7, 9],
            ChordKind::Minor6 => vec![0u8, 3, 7, 9],
            ChordKind::Major7 => vec![0u8, 4, 7, 11],
            ChordKind::Minor7 => vec![0u8, 3, 7, 10],
            ChordKind::Dominant7 => vec![0u8, 4, 7, 10],
            ChordKind::Diminished7 => vec![0u8, 3, 6, 9],
            ChordKind::HalfDiminished => vec![0u8, 3, 6, 10],
            ChordKind::MinorMajor7 => vec![0u8, 3, 7, 11],
            ChordKind::Dominant7Sus4 => vec![0u8, 5, 7, 10],
            ChordKind::Add9 => vec![0u8, 4, 7, 14],
            ChordKind::Major9 => vec![0u8, 4, 7, 11, 14],
            ChordKind::Minor9 => vec![0u8, 3, 7, 10, 14],
            ChordKind::Dominant9 => vec![0u8, 4, 7, 10, 14],
        };
        assert(r@ =~= self.spec_intervals());
        r
    }
}

/// A short tone list holds `x` exactly when one of its places does.
proof fn lemma_tones(s: Seq<u8>, x: u8)
    requires
        s.len() <= 5,
    ensures
        s.contains(x) <==> ((s.len() > 0 && s[0] == x) || (s.len() > 1 && s[1] == x) || (s.len() > 2 && s[2] == x)
            || (s.len() > 3 && s[3] == x) || (s.len() > 4 && s[4] == x)),
{
    if s.contains(x) {
        let i = choose|i: int| 0 <= i < s.len() && s[i] == x;
        assert(i == 0 || i == 1 || i == 2 || i == 3 || i == 4);
    }
}

/// Each chord is built from the standard chord tones of its kind, as
/// semitones above the root: the root first, then rising tones; a major
/// third (4) in the major-quality chords, a minor third (3) in the
/// minor-quality ones, a second (2) or fourth (5) in place of the third in
/// the suspended ones; a perfect fifth (7) except in the diminished (6) and
/// augmented (8) chords; a sixth (9) in the sixth chords and the diminished
/// seventh; a minor seventh (10) in the dominant, minor and half-diminished
/// sevenths; a major seventh (11) in the major and minor-major sevenths; a
/// ninth (14) in the ninth chords. No two kinds share a tone list.
pub proof fn law_chord_tones(k: ChordKind, other: ChordKind)
    ensures
        ({
            let t = k.spec_intervals();
            &&& t.len() >= 2 && t[0] == 0
            &&& forall|i: int, j: int| 0 <= i < j < t.len() ==> t[i] < t[j]
            &&& t.contains(2) <==> k is Suspended2
            &&& t.contains(3) <==> (k is Minor || k is Diminished || k is Minor6 || k is Minor7 || k is Diminished7
                || k is HalfDiminished || k is MinorMajor7 || k is Minor9)
            &&& t.contains(4) <==> (k is Major || k is Augmented || k is Major6 || k is Major7 || k is Dominant7
                || k is Add9 || k is Major9 || k is Dominant9)
            &&& t.contains(5) <==> (k is Suspended4 || k is Dominant7Sus4)
            &&& t.contains(6) <==> (k is Diminished || k is Diminished7 || k is HalfDiminished)
            &&& t.contains(7) <==> !(k is Diminished || k is Augmented || k is Diminished7 || k is HalfDiminished)
            &&& t.contains(8) <==> k is Augmented
            &&& t.contains(9) <==> (k is Major6 || k is Minor6 || k is Diminished7)
            &&& t.contains(10) <==> (k is Minor7 || k is Dominant7 || k is HalfDiminished || k is Dominant7Sus4
                || k is Minor9 || k is Dominant9)
            &&& t.contains(11) <==> (k is Major7 || k is MinorMajor7 || k is Major9)
            &&& t.contains(14) <==> (k is Add9 || k is Major9 || k is Minor9 || k is Dominant9)
        }),
        k != other ==> k.spec_intervals() != other.spec_intervals(),
{
    let t = k.spec_intervals();
    let u = other.spec_intervals();
    lemma_tones(t, 2);
    lemma_tones(t, 3);
    lemma_tones(t, 4);
    lemma_tones(t, 5);
    lemma_tones(t, 6);
    lemma_tones(t, 7);
    lemma_tones(t, 8);
    lemma_tones(t, 9);
    lemma_tones(t, 10);
    lemma_tones(t, 11);
    lemma_tones(t, 14);
    lemma_tones(u, 2);
    lemma_tones(u, 3);
    lemma_tones(u, 4);
    lemma_tones(u, 5);
    lemma_tones(u, 6);
    lemma_tones(u, 7);
    lemma_tones(u, 8);
    lemma_tones(u, 9);
    lemma_tones(u, 10);
    lemma_tones(u, 11);
    lemma_tones(u, 14);
}

} // verus!
