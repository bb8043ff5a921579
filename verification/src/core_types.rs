//! Core musical types: pitch classes, notes, modes, chord qualities and chords.

use vstd::prelude::*;

use crate::errors::LobachevskyError;
use crate::text::{chars_of, chars_eq_str, has_suffix, lowercase, str_ends_with, unicode_lowercase};

verus! {

/// The twelve pitch classes of equal temperament, C = 0 up to B = 11.
#[derive(Debug, Clone, Copy, PartialEq, Eq, Hash, Structural)]
pub enum PitchClass {
    C,
    Cs,
    D,
    Ds,
    E,
    F,
    Fs,
    G,
    Gs,
    A,
    As,
    B,
}

impl PitchClass {
    /// Semitones above C.
    pub open spec fn semitone(self) -> nat {
        match self {
            PitchClass::C => 0,
            PitchClass::Cs => 1,
            PitchClass::D => 2,
            PitchClass::Ds => 3,
            PitchClass::E => 4,
            PitchClass::F => 5,
            PitchClass::Fs => 6,
            PitchClass::G => 7,
            PitchClass::Gs => 8,
            PitchClass::A => 9,
            PitchClass::As => 10,
            PitchClass::B => 11,
        }
    }

    /// The pitch class `n` semitones above C, counted modulo the octave.
    pub open spec fn of(n: int) -> PitchClass {
        let m = n % 12;
        if m == 0 {
            PitchClass::C
        } else if m == 1 {
            PitchClass::Cs
        } else if m == 2 {
            PitchClass::D
        } else if m == 3 {
            PitchClass::Ds
        } else if m == 4 {
            PitchClass::E
        } else if m == 5 {
            PitchClass::F
        } else if m == 6 {
            PitchClass::Fs
        } else if m == 7 {
            PitchClass::G
        } else if m == 8 {
            PitchClass::Gs
        } else if m == 9 {
            PitchClass::A
        } else if m == 10 {
            PitchClass::As
        } else {
            PitchClass::B
        }
    }

    /// The pitch class reached by moving `n` semitones.
    pub closed spec fn shifted(self, n: int) -> PitchClass {
        PitchClass::of(self.semitone() + n)
    }

    /// Display name, with sharps or flats for the black keys.
    pub open spec fn enharmonic(self, prefer_sharps: bool) -> &'static str {
        match self {
            PitchClass::C => "C",
            PitchClass::Cs => if prefer_sharps { "C♯" } else { "D♭" },
            PitchClass::D => "D",
            PitchClass::Ds => if prefer_sharps { "D♯" } else { "E♭" },
            PitchClass::E => "E",
            PitchClass::F => "F",
            PitchClass::Fs => if prefer_sharps { "F♯" } else { "G♭" },
            PitchClass::G => "G",
            PitchClass::Gs => if prefer_sharps { "G♯" } else { "A♭" },
            PitchClass::A => "A",
            PitchClass::As => if prefer_sharps { "A♯" } else { "B♭" },
            PitchClass::B => "B",
        }
    }

    /// Convert from a semitone value; the value is taken modulo 12, so every
    /// input names a pitch class.
    pub fn from_semitone(semitone: u8) -> (r: Option<Self>)
        ensures
            r == Some(PitchClass::of(semitone as int)),
    {
        match semitone % 12 {
            0 => Some(PitchClass::C),
            1 => Some(PitchClass::Cs),
            2 => Some(PitchClass::D),
            3 => Some(PitchClass::Ds),
            4 => Some(PitchClass::E),
            5 => Some(PitchClass::F),
            6 => Some(PitchClass::Fs),
            7 => Some(PitchClass::G),
            8 => Some(PitchClass::Gs),
            9 => Some(PitchClass::A),
            10 => Some(PitchClass::As),
            11 => Some(PitchClass::B),
            _ => None,
        }
    }

    /// The semitone value (0-11).
    pub fn to_semitone(&self) -> (r: u8)
        ensures
            r == self.semitone(),
            r < 12,
    {
        match self {
            PitchClass::C => 0,
            PitchClass::Cs => 1,
            PitchClass::D => 2,
            PitchClass::Ds => 3,
            PitchClass::E => 4,
            PitchClass::F => 5,
            PitchClass::Fs => 6,
            PitchClass::G => 7,
            PitchClass::Gs => 8,
            PitchClass::A => 9,
            PitchClass::As => 10,
            PitchClass::B => 11,
        }
    }

    /// Transpose by a number of semitones (either direction), wrapping
    /// around the octave.
    pub fn transpose(&self, semitones: i8) -> (r: Self)
        requires
            -128 <= self.semitone() + semitones <= 127,
        ensures
            r == self.shifted(semitones as int),
    {
        let current = self.to_semitone() as i8;
        let sum: i8 = current + semitones;
        let shifted: u16 = (sum as i16 + 132) as u16;
        let new_val: u8 = (shifted % 12) as u8;
        proof {
            assert(shifted as int == sum + 132);
            assert((sum + 132) % 12 == sum % 12) by {
                vstd::arithmetic::div_mod::lemma_mod_add_multiples_vanish(sum as int, 12);
                vstd::arithmetic::div_mod::lemma_mod_multiples_vanish(11, sum as int, 12);
            }
            assert(PitchClass::of(new_val as int) == PitchClass::of(sum as int));
        }
        match Self::from_semitone(new_val) {
            Some(p) => p,
            None => *self,
        }
    }

    /// Display name of the pitch class, with sharps or flats for the black
    /// keys.
    pub fn enharmonic_name(&self, prefer_sharps: bool) -> (r: &'static str)
        ensures
            r == self.enharmonic(prefer_sharps),
    {
        match self {
            PitchClass::C => "C",
            PitchClass::Cs => if prefer_sharps { "C♯" } else { "D♭" },
            PitchClass::D => "D",
            PitchClass::Ds => if prefer_sharps { "D♯" } else { "E♭" },
            PitchClass::E => "E",
            PitchClass::F => "F",
            PitchClass::Fs => if prefer_sharps { "F♯" } else { "G♭" },
            PitchClass::G => "G",
            PitchClass::Gs => if prefer_sharps { "G♯" } else { "A♭" },
            PitchClass::A => "A",
            PitchClass::As => if prefer_sharps { "A♯" } else { "B♭" },
            PitchClass::B => "B",
        }
    }
}

/// Every pitch class is the one at its own semitone value.
pub proof fn lemma_pitch_class_of_semitone(p: PitchClass)
    ensures
        PitchClass::of(p.semitone() as int) == p,
{
}

/// The pitch class of any integer sits at that integer modulo 12.
pub proof fn lemma_semitone_of(n: int)
    ensures
        PitchClass::of(n).semitone() == n % 12,
{
}

/// Transposing twice is transposing once by the sum.
pub proof fn lemma_transpose_compose(p: PitchClass, a: int, b: int)
    ensures
        p.shifted(a).shifted(b) == p.shifted(a + b),
{
    lemma_semitone_of(p.semitone() + a);
    assert((p.semitone() + a) % 12 + b == (p.semitone() + a + b) + (-((p.semitone() + a) / 12)) * 12) by {
        vstd::arithmetic::div_mod::lemma_fundamental_div_mod(p.semitone() + a, 12);
    }
    vstd::arithmetic::div_mod::lemma_mod_multiples_vanish(
        -((p.semitone() + a) / 12),
        p.semitone() + a + b,
        12,
    );
}

/// What a move of the pitch class is, spelled out.
pub proof fn lemma_shifted_def(p: PitchClass, n: int)
    ensures
        p.shifted(n) == PitchClass::of(p.semitone() + n),
        p.shifted(n).semitone() == (p.semitone() + n) % 12,
{
}

/// Two moves of a pitch class land on the same pitch class exactly when
/// they differ by a whole number of octaves.
pub proof fn lemma_shift_same(r: PitchClass, a: int, b: int)
    ensures
        (r.shifted(a) == r.shifted(b)) == ((a - b) % 12 == 0),
{
    lemma_semitone_of(r.semitone() + a);
    lemma_semitone_of(r.semitone() + b);
    vstd::arithmetic::div_mod::lemma_mod_equivalence(r.semitone() + a, r.semitone() + b, 12);
}

/// Transposing by a whole octave changes nothing.
pub proof fn lemma_transpose_octave(p: PitchClass)
    ensures
        p.shifted(12) == p,
        p.shifted(-12) == p,
        p.shifted(0) == p,
{
}

/// The spellings accepted for each pitch class: a note letter alone, or
/// followed by `#` (or `s`) for a sharp or `b` for a flat.
pub open spec fn pitch_named(s: Seq<char>) -> Option<PitchClass> {
    if s == "C"@ || s == "B#"@ {
        Some(PitchClass::C)
    } else if s == "C#"@ || s == "Cs"@ || s == "Db"@ {
        Some(PitchClass::Cs)
    } else if s == "D"@ {
        Some(PitchClass::D)
    } else if s == "D#"@ || s == "Ds"@ || s == "Eb"@ {
        Some(PitchClass::Ds)
    } else if s == "E"@ || s == "Fb"@ {
        Some(PitchClass::E)
    } else if s == "F"@ || s == "E#"@ {
        Some(PitchClass::F)
    } else if s == "F#"@ || s == "Fs"@ || s == "Gb"@ {
        Some(PitchClass::Fs)
    } else if s == "G"@ {
        Some(PitchClass::G)
    } else if s == "G#"@ || s == "Gs"@ || s == "Ab"@ {
        Some(PitchClass::Gs)
    } else if s == "A"@ {
        Some(PitchClass::A)
    } else if s == "A#"@ || s == "As"@ || s == "Bb"@ {
        Some(PitchClass::As)
    } else if s == "B"@ || s == "Cb"@ {
        Some(PitchClass::B)
    } else {
        None
    }
}

/// The parse result of a pitch name, as `PitchClass::try_from` gives it.
pub open spec fn pitch_parse_ok(value: Seq<char>, r: Result<PitchClass, LobachevskyError>) -> bool {
    match pitch_named(value) {
        Some(p) => r == Ok::<PitchClass, LobachevskyError>(p),
        None => r matches Err(LobachevskyError::InvalidPitch { input }) && input@ == value,
    }
}

impl PitchClass {
    /// Looks a pitch class up by one of its accepted spellings.
    pub fn from_name(v: &[char]) -> (r: Option<PitchClass>)
        ensures
            r == pitch_named(v@),
    {
        if chars_eq_str(v, "C") || chars_eq_str(v, "B#") {
            Some(PitchClass::C)
        } else if chars_eq_str(v, "C#") || chars_eq_str(v, "Cs") || chars_eq_str(v, "Db") {
            Some(PitchClass::Cs)
        } else if chars_eq_str(v, "D") {
            Some(PitchClass::D)
        } else if chars_eq_str(v, "D#") || chars_eq_str(v, "Ds") || chars_eq_str(v, "Eb") {
            Some(PitchClass::Ds)
        } else if chars_eq_str(v, "E") || chars_eq_str(v, "Fb") {
            Some(PitchClass::E)
        } else if chars_eq_str(v, "F") || chars_eq_str(v, "E#") {
            Some(PitchClass::F)
        } else if chars_eq_str(v, "F#") || chars_eq_str(v, "Fs") || chars_eq_str(v, "Gb") {
            Some(PitchClass::Fs)
        } else if chars_eq_str(v, "G") {
            Some(PitchClass::G)
        } else if chars_eq_str(v, "G#") || chars_eq_str(v, "Gs") || chars_eq_str(v, "Ab") {
            Some(PitchClass::Gs)
        } else if chars_eq_str(v, "A") {
            Some(PitchClass::A)
        } else if chars_eq_str(v, "A#") || chars_eq_str(v, "As") || chars_eq_str(v, "Bb") {
            Some(PitchClass::As)
        } else if chars_eq_str(v, "B") || chars_eq_str(v, "Cb") {
            Some(PitchClass::B)
        } else {
            None
        }
    }

    /// Parses a pitch name; an unknown spelling is an `InvalidPitch` error
    /// that carries the input.
    pub fn parse(value: &str) -> (r: Result<PitchClass, LobachevskyError>)
        ensures
            pitch_parse_ok(value@, r),
    {
        let v = chars_of(value);
        match PitchClass::from_name(v.as_slice()) {
            Some(p) => Ok(p),
            None => Err(LobachevskyError::InvalidPitch { input: String::from_str(value) }),
        }
    }
}

/// Conversion from a name. Errors carry a fresh `String` equal to the input
/// by characters only, so `obeys_try_from_spec` is false and the impl states
/// its result in its own `ensures`.
impl<'a> vstd::std_specs::convert::TryFromSpecImpl<&'a str> for PitchClass {
    open spec fn obeys_try_from_spec() -> bool {
        false
    }

    open spec fn try_from_spec(v: &'a str) -> Result<Self, LobachevskyError> {
        match pitch_named(v@) {
            Some(p) => Ok(p),
            None => Err(LobachevskyError::InvalidPitch { input: choose|s: String| s@ == v@ }),
        }
    }
}

impl<'a> TryFrom<&'a str> for PitchClass {
    type Error = LobachevskyError;

    fn try_from(value: &'a str) -> (r: Result<Self, Self::Error>)
        ensures
            pitch_parse_ok(value@, r),
    {
        PitchClass::parse(value)
    }
}

impl Default for PitchClass {
    fn default() -> (r: Self)
        ensures
            r == PitchClass::C,
    {
        PitchClass::C
    }
}

/// A specific note: a pitch class in an octave (C4 is middle C).
#[derive(Debug, Clone, Copy, PartialEq, Eq, Structural)]
pub struct Note {
    pub pitch_class: PitchClass,
    pub octave: i8,
}

impl Note {
    /// The MIDI number of the note, as an unbounded integer.
    pub open spec fn midi_value(self) -> int {
        (self.octave + 1) * 12 + self.pitch_class.semitone()
    }

    /// The note's MIDI number can be computed in eight signed bits.
    pub open spec fn midi_computable(self) -> bool {
        -11 <= self.octave <= 9 && self.midi_value() <= 127
    }

    /// The note with a given MIDI number.
    pub open spec fn of_midi(m: int) -> Note {
        Note { pitch_class: PitchClass::of(m), octave: (m / 12 - 1) as i8 }
    }

    /// Create a new note.
    pub fn new(pitch_class: PitchClass, octave: i8) -> (r: Self)
        ensures
            r == (Note { pitch_class, octave }),
    {
        Note { pitch_class, octave }
    }

    /// Convert to a MIDI note number. Notes below MIDI 0 wrap around as the
    /// eight-bit value does.
    pub fn to_midi(&self) -> (r: u8)
        requires
            self.midi_computable(),
        ensures
            r as int == self.midi_value() % 256,
    {
        let base: i8 = (self.octave + 1) * 12;
        let v: i8 = base + self.pitch_class.to_semitone() as i8;
        let r = v as u8;
        assert(v >= 0 ==> r as i16 == v as i16) by (bit_vector)
            requires
                r == v as u8,
        ;
        assert(v < 0 ==> r as i16 == v as i16 + 256) by (bit_vector)
            requires
                r == v as u8,
        ;
        r
    }

    /// Create a note from its MIDI note number.
    pub fn from_midi(midi: u8) -> (r: Self)
        ensures
            r == Note::of_midi(midi as int),
            r.midi_value() == midi,
            r.midi_computable() <==> midi <= 127,
    {
        let octave: i8 = (midi / 12) as i8 - 1;
        let pitch_class = match PitchClass::from_semitone(midi % 12) {
            Some(p) => p,
            None => PitchClass::C,
        };
        proof {
            assert(PitchClass::of(midi as int).semitone() == midi % 12);
            assert(PitchClass::of((midi % 12) as int) == PitchClass::of(midi as int)) by {
                vstd::arithmetic::div_mod::lemma_mod_twice(midi as int, 12);
            }
        }
        Note { pitch_class, octave }
    }

    /// Transpose by semitones.
    #[verifier::rlimit(40)]
    #[verifier::spinoff_prover]
    pub fn transpose(&self, semitones: i8) -> (r: Self)
        requires
            self.midi_computable(),
            -128 <= self.midi_value() + semitones <= 127,
        ensures
            r == Note::of_midi((self.midi_value() + semitones) % 256),
    {
        let m = self.to_midi();
        let as_signed = m as i8;
        assert(m < 128 ==> as_signed as i16 == m as i16) by (bit_vector)
            requires
                as_signed == m as i8,
        ;
        assert(m >= 128 ==> as_signed as i16 == m as i16 - 256) by (bit_vector)
            requires
                as_signed == m as i8,
        ;
        let sum: i8 = as_signed + semitones;
        let new_midi = sum as u8;
        assert(sum >= 0 ==> new_midi as i16 == sum as i16) by (bit_vector)
            requires
                new_midi == sum as u8,
        ;
        assert(sum < 0 ==> new_midi as i16 == sum as i16 + 256) by (bit_vector)
            requires
                new_midi == sum as u8,
        ;
        assert(sum as int == self.midi_value() + semitones);
        assert(new_midi as int == (self.midi_value() + semitones) % 256);
        Self::from_midi(new_midi)
    }
}

impl Default for Note {
    fn default() -> (r: Self)
        ensures
            r == (Note { pitch_class: PitchClass::C, octave: 3 }),
    {
        Note { pitch_class: PitchClass::C, octave: 3 }
    }
}

impl<'a> vstd::std_specs::convert::FromSpecImpl<&'a str> for Note {
    open spec fn obeys_from_spec() -> bool {
        true
    }

    open spec fn from_spec(v: &'a str) -> Note {
        Note {
            pitch_class: match pitch_named(v@) {
                Some(p) => p,
                None => PitchClass::C,
            },
            octave: 3,
        }
    }
}

impl<'a> From<&'a str> for Note {
    fn from(value: &'a str) -> (r: Self)
        ensures
            r == (Note {
                pitch_class: match pitch_named(value@) {
                    Some(p) => p,
                    None => PitchClass::C,
                },
                octave: 3,
            }),
    {
        let pitch_class = match PitchClass::parse(value) {
            Ok(p) => p,
            Err(_) => PitchClass::C,
        };
        Note { pitch_class, octave: 3 }
    }
}

/// A note read back from its MIDI number is the note itself.
pub proof fn lemma_midi_round_trip(n: Note)
    requires
        n.midi_computable(),
        0 <= n.midi_value(),
    ensures
        Note::of_midi(n.midi_value()) == n,
{
    let v = n.midi_value();
    let s = n.pitch_class.semitone() as int;
    assert(v == (n.octave + 1) * 12 + s);
    vstd::arithmetic::div_mod::lemma_fundamental_div_mod(v, 12);
    vstd::arithmetic::div_mod::lemma_div_multiples_vanish_fancy(n.octave + 1, s, 12);
    vstd::arithmetic::div_mod::lemma_mod_multiples_vanish(n.octave + 1, s, 12);
    lemma_pitch_class_of_semitone(n.pitch_class);
}

/// The note at a MIDI number from 0 to 127 has that number and can be
/// computed.
pub proof fn lemma_of_midi_value(m: int)
    requires
        0 <= m <= 127,
    ensures
        Note::of_midi(m).midi_value() == m,
        Note::of_midi(m).midi_computable(),
{
    lemma_semitone_of(m);
    vstd::arithmetic::div_mod::lemma_fundamental_div_mod(m, 12);
    assert(0 <= m / 12 <= 10) by {
        vstd::arithmetic::div_mod::lemma_div_is_ordered(m, 127, 12);
    }
}

/// The seven diatonic modes.
#[derive(Debug, Clone, Copy, PartialEq, Eq, Hash, Structural)]
pub enum Mode {
    Ionian,
    Dorian,
    Phrygian,
    Lydian,
    Mixolydian,
    Aeolian,
    Locrian,
}

/// The mode names accepted (after lower-casing).
pub open spec fn mode_named(s: Seq<char>) -> Option<Mode> {
    if s == "ionian"@ {
        Some(Mode::Ionian)
    } else if s == "dorian"@ {
        Some(Mode::Dorian)
    } else if s == "phrygian"@ {
        Some(Mode::Phrygian)
    } else if s == "lydian"@ {
        Some(Mode::Lydian)
    } else if s == "mixolydian"@ {
        Some(Mode::Mixolydian)
    } else if s == "aeolian"@ {
        Some(Mode::Aeolian)
    } else if s == "locrian"@ {
        Some(Mode::Locrian)
    } else {
        None
    }
}

/// The parse result of a mode name: the name is lower-cased as
/// `str::to_lowercase` does, then looked up.
pub open spec fn mode_parse_ok(value: Seq<char>, r: Result<Mode, LobachevskyError>) -> bool {
    match mode_named(unicode_lowercase(value)) {
        Some(m) => r == Ok::<Mode, LobachevskyError>(m),
        None => r matches Err(LobachevskyError::InvalidMode { input }) && input@ == value,
    }
}

impl Mode {
    /// Semitone offsets of the seven scale degrees above the tonic.
    pub open spec fn interval_seq(self) -> Seq<u8> {
        match self {
            Mode::Ionian => seq![0u8, 2, 4, 5, 7, 9, 11],
            Mode::Dorian => seq![0u8, 2, 3, 5, 7, 9, 10],
            Mode::Phrygian => seq![0u8, 1, 3, 5, 7, 8, 10],
            Mode::Lydian => seq![0u8, 2, 4, 6, 7, 9, 11],
            Mode::Mixolydian => seq![0u8, 2, 4, 5, 7, 9, 10],
            Mode::Aeolian => seq![0u8, 2, 3, 5, 7, 8, 10],
            Mode::Locrian => seq![0u8, 1, 3, 5, 6, 8, 10],
        }
    }

    /// Triad quality built on each of the seven scale degrees.
    pub open spec fn quality_seq(self) -> Seq<ChordQuality> {
        match self {
            Mode::Ionian => seq![
                ChordQuality::Major,
                ChordQuality::Minor,
                ChordQuality::Minor,
                ChordQuality::Major,
                ChordQuality::Major,
                ChordQuality::Minor,
                ChordQuality::Diminished,
            ],
            Mode::Dorian => seq![
                ChordQuality::Minor,
                ChordQuality::Minor,
                ChordQuality::Major,
                ChordQuality::Major,
                ChordQuality::Minor,
                ChordQuality::Diminished,
                ChordQuality::Major,
            ],
            Mode::Phrygian => seq![
                ChordQuality::Minor,
                ChordQuality::Major,
                ChordQuality::Major,
                ChordQuality::Minor,
                ChordQuality::Diminished,
                ChordQuality::Major,
                ChordQuality::Minor,
            ],
            Mode::Lydian => seq![
                ChordQuality::Major,
                ChordQuality::Major,
                ChordQuality::Minor,
                ChordQuality::Diminished,
                ChordQuality::Major,
                ChordQuality::Minor,
                ChordQuality::Minor,
            ],
            Mode::Mixolydian => seq![
                ChordQuality::Major,
                ChordQuality::Minor,
                ChordQuality::Diminished,
                ChordQuality::Major,
                ChordQuality::Minor,
                ChordQuality::Minor,
                ChordQuality::Major,
            ],
            Mode::Aeolian => seq![
                ChordQuality::Minor,
                ChordQuality::Diminished,
                ChordQuality::Major,
                ChordQuality::Minor,
                ChordQuality::Minor,
                ChordQuality::Major,
                ChordQuality::Major,
            ],
            Mode::Locrian => seq![
                ChordQuality::Diminished,
                ChordQuality::Major,
                ChordQuality::Minor,
                ChordQuality::Minor,
                ChordQuality::Major,
                ChordQuality::Major,
                ChordQuality::Minor,
            ],
        }
    }

    /// The seven diatonic triads of the mode on a tonic, in degree order.
    pub open spec fn triad_seq(self, tonic: PitchClass) -> Seq<Chord> {
        Seq::new(
            7,
            |i: int|
                Chord {
                    root: tonic.shifted(self.interval_seq()[i] as int),
                    quality: self.quality_seq()[i],
                },
        )
    }

    /// Display name of the mode.
    pub open spec fn display_name(self) -> &'static str {
        match self {
            Mode::Ionian => "Ionian (Major)",
            Mode::Dorian => "Dorian",
            Mode::Phrygian => "Phrygian",
            Mode::Lydian => "Lydian",
            Mode::Mixolydian => "Mixolydian",
            Mode::Aeolian => "Aeolian (Natural Minor)",
            Mode::Locrian => "Locrian",
        }
    }

    /// The interval pattern of this mode, in semitones from the tonic.
    pub fn intervals(&self) -> (r: Vec<u8>)
        ensures
            r@ == self.interval_seq(),
    {
        match self {
            Mode::Ionian => vec![0, 2, 4, 5, 7, 9, 11],
            Mode::Dorian => vec![0, 2, 3, 5, 7, 9, 10],
            Mode::Phrygian => vec![0, 1, 3, 5, 7, 8, 10],
            Mode::Lydian => vec![0, 2, 4, 6, 7, 9, 11],
            Mode::Mixolydian => vec![0, 2, 4, 5, 7, 9, 10],
            Mode::Aeolian => vec![0, 2, 3, 5, 7, 8, 10],
            Mode::Locrian => vec![0, 1, 3, 5, 6, 8, 10],
        }
    }

    /// The chord quality on each degree of this mode (I to VII).
    pub fn chord_qualities(&self) -> (r: Vec<ChordQuality>)
        ensures
            r@ == self.quality_seq(),
    {
        match self {
            Mode::Ionian => vec![
                ChordQuality::Major,
                ChordQuality::Minor,
                ChordQuality::Minor,
                ChordQuality::Major,
                ChordQuality::Major,
                ChordQuality::Minor,
                ChordQuality::Diminished,
            ],
            Mode::Dorian => vec![
                ChordQuality::Minor,
                ChordQuality::Minor,
                ChordQuality::Major,
                ChordQuality::Major,
                ChordQuality::Minor,
                ChordQuality::Diminished,
                ChordQuality::Major,
            ],
            Mode::Phrygian => vec![
                ChordQuality::Minor,
                ChordQuality::Major,
                ChordQuality::Major,
                ChordQuality::Minor,
                ChordQuality::Diminished,
                ChordQuality::Major,
                ChordQuality::Minor,
            ],
            Mode::Lydian => vec![
                ChordQuality::Major,
                ChordQuality::Major,
                ChordQuality::Minor,
                ChordQuality::Diminished,
                ChordQuality::Major,
                ChordQuality::Minor,
                ChordQuality::Minor,
            ],
            Mode::Mixolydian => vec![
                ChordQuality::Major,
                ChordQuality::Minor,
                ChordQuality::Diminished,
                ChordQuality::Major,
                ChordQuality::Minor,
                ChordQuality::Minor,
                ChordQuality::Major,
            ],
            Mode::Aeolian => vec![
                ChordQuality::Minor,
                ChordQuality::Diminished,
                ChordQuality::Major,
                ChordQuality::Minor,
                ChordQuality::Minor,
                ChordQuality::Major,
                ChordQuality::Major,
            ],
            Mode::Locrian => vec![
                ChordQuality::Diminished,
                ChordQuality::Major,
                ChordQuality::Minor,
                ChordQuality::Minor,
                ChordQuality::Major,
                ChordQuality::Major,
                ChordQuality::Minor,
            ],
        }
    }

    /// All seven triads of this mode on the given tonic, in degree order.
    pub fn triads(&self, tonic: PitchClass) -> (r: Vec<Chord>)
        ensures
            r@ == self.triad_seq(tonic),
    {
        let intervals = self.intervals();
        let qualities = self.chord_qualities();
        let mut out: Vec<Chord> = Vec::new();
        let mut i: usize = 0;
        while i < 7
            invariant
                intervals@ == self.interval_seq(),
                qualities@ == self.quality_seq(),
                i <= 7,
                out@ == self.triad_seq(tonic).subrange(0, i as int),
            decreases 7 - i,
        {
            let interval = intervals[i];
            assert(interval < 12);
            let root = tonic.transpose(interval as i8);
            out.push(Chord::new(root, qualities[i]));
            assert(out@ =~= self.triad_seq(tonic).subrange(0, i + 1));
            i = i + 1;
        }
        assert(out@ =~= self.triad_seq(tonic));
        out
    }

    /// Whether a chord is one of the triads of this mode on the tonic.
    pub fn contains_chord(&self, tonic: PitchClass, chord: Chord) -> (r: bool)
        ensures
            r == self.triad_seq(tonic).contains(chord),
    {
        let triads = self.triads(tonic);
        let mut i: usize = 0;
        while i < triads.len()
            invariant
                triads@ == self.triad_seq(tonic),
                i <= triads@.len(),
                forall|j: int| 0 <= j < i ==> triads@[j] != chord,
            decreases triads.len() - i,
        {
            if triads[i] == chord {
                return true;
            }
            i = i + 1;
        }
        false
    }

    /// Display name of the mode.
    pub fn name(&self) -> (r: &'static str)
        ensures
            r == self.display_name(),
    {
        match self {
            Mode::Ionian => "Ionian (Major)",
            Mode::Dorian => "Dorian",
            Mode::Phrygian => "Phrygian",
            Mode::Lydian => "Lydian",
            Mode::Mixolydian => "Mixolydian",
            Mode::Aeolian => "Aeolian (Natural Minor)",
            Mode::Locrian => "Locrian",
        }
    }

    /// Looks a mode up by its lower-case name.
    pub fn from_lowercase_name(v: &[char]) -> (r: Option<Mode>)
        ensures
            r == mode_named(v@),
    {
        if chars_eq_str(v, "ionian") {
            Some(Mode::Ionian)
        } else if chars_eq_str(v, "dorian") {
            Some(Mode::Dorian)
        } else if chars_eq_str(v, "phrygian") {
            Some(Mode::Phrygian)
        } else if chars_eq_str(v, "lydian") {
            Some(Mode::Lydian)
        } else if chars_eq_str(v, "mixolydian") {
            Some(Mode::Mixolydian)
        } else if chars_eq_str(v, "aeolian") {
            Some(Mode::Aeolian)
        } else if chars_eq_str(v, "locrian") {
            Some(Mode::Locrian)
        } else {
            None
        }
    }

    /// Parses a mode name in any letter case; an unknown name is an
    /// `InvalidMode` error that carries the input.
    pub fn parse(value: &str) -> (r: Result<Mode, LobachevskyError>)
        ensures
            mode_parse_ok(value@, r),
    {
        let lower = lowercase(value);
        let v = chars_of(lower.as_str());
        match Mode::from_lowercase_name(v.as_slice()) {
            Some(m) => Ok(m),
            None => Err(LobachevskyError::InvalidMode { input: String::from_str(value) }),
        }
    }
}

/// Conversion from a name. Errors carry a fresh `String` equal to the input
/// by characters only, so `obeys_try_from_spec` is false and the impl states
/// its result in its own `ensures`.
impl<'a> vstd::std_specs::convert::TryFromSpecImpl<&'a str> for Mode {
    open spec fn obeys_try_from_spec() -> bool {
        false
    }

    open spec fn try_from_spec(v: &'a str) -> Result<Self, LobachevskyError> {
        match mode_named(unicode_lowercase(v@)) {
            Some(m) => Ok(m),
            None => Err(LobachevskyError::InvalidMode { input: choose|s: String| s@ == v@ }),
        }
    }
}

impl<'a> TryFrom<&'a str> for Mode {
    type Error = LobachevskyError;

    fn try_from(value: &'a str) -> (r: Result<Self, Self::Error>)
        ensures
            mode_parse_ok(value@, r),
    {
        Mode::parse(value)
    }
}

impl Default for Mode {
    fn default() -> (r: Self)
        ensures
            r == Mode::Ionian,
    {
        Mode::Ionian
    }
}

/// Chord quality: triads, seventh chords and suspended chords.
#[derive(Debug, Clone, Copy, PartialEq, Eq, Hash, Structural)]
pub enum ChordQuality {
    Major,
    Minor,
    Diminished,
    Augmented,
    MajorSeventh,
    MinorSeventh,
    DominantSeventh,
    MinorMajorSeventh,
    HalfDiminished,
    FullyDiminished,
    AugmentedMajorSeventh,
    Sus2,
    Sus4,
    SevenSus2,
    SevenSus4,
}

/// On degree `i` of a mode, the triad's third and fifth land, modulo an
/// octave, on scale degrees `i + 2` and `i + 4`.
spec fn degree_steps_fit(m: Mode, i: int) -> bool {
    let scale = m.interval_seq();
    let q = m.quality_seq()[i].interval_seq();
    &&& q.len() == 3
    &&& (scale[i] + q[1] - scale[(i + 2) % 7]) % 12 == 0
    &&& (scale[i] + q[2] - scale[(i + 4) % 7]) % 12 == 0
}

#[verifier::spinoff_prover]
proof fn lemma_degree_steps_ionian(i: int)
    requires
        0 <= i < 7,
    ensures
        degree_steps_fit(Mode::Ionian, i),
{
    if i == 0 {} else if i == 1 {} else if i == 2 {} else if i == 3 {} else if i == 4 {} else if i == 5 {} else {}
}

#[verifier::spinoff_prover]
proof fn lemma_degree_steps_dorian(i: int)
    requires
        0 <= i < 7,
    ensures
        degree_steps_fit(Mode::Dorian, i),
{
    if i == 0 {} else if i == 1 {} else if i == 2 {} else if i == 3 {} else if i == 4 {} else if i == 5 {} else {}
}

#[verifier::spinoff_prover]
proof fn lemma_degree_steps_phrygian(i: int)
    requires
        0 <= i < 7,
    ensures
        degree_steps_fit(Mode::Phrygian, i),
{
    if i == 0 {} else if i == 1 {} else if i == 2 {} else if i == 3 {} else if i == 4 {} else if i == 5 {} else {}
}

#[verifier::spinoff_prover]
proof fn lemma_degree_steps_lydian(i: int)
    requires
        0 <= i < 7,
    ensures
        degree_steps_fit(Mode::Lydian, i),
{
    if i == 0 {} else if i == 1 {} else if i == 2 {} else if i == 3 {} else if i == 4 {} else if i == 5 {} else {}
}

#[verifier::spinoff_prover]
proof fn lemma_degree_steps_mixolydian(i: int)
    requires
        0 <= i < 7,
    ensures
        degree_steps_fit(Mode::Mixolydian, i),
{
    if i == 0 {} else if i == 1 {} else if i == 2 {} else if i == 3 {} else if i == 4 {} else if i == 5 {} else {}
}

#[verifier::spinoff_prover]
proof fn lemma_degree_steps_aeolian(i: int)
    requires
        0 <= i < 7,
    ensures
        degree_steps_fit(Mode::Aeolian, i),
{
    if i == 0 {} else if i == 1 {} else if i == 2 {} else if i == 3 {} else if i == 4 {} else if i == 5 {} else {}
}

#[verifier::spinoff_prover]
proof fn lemma_degree_steps_locrian(i: int)
    requires
        0 <= i < 7,
    ensures
        degree_steps_fit(Mode::Locrian, i),
{
    if i == 0 {} else if i == 1 {} else if i == 2 {} else if i == 3 {} else if i == 4 {} else if i == 5 {} else {}
}

proof fn lemma_mode_degree_steps(m: Mode, i: int)
    requires
        0 <= i < 7,
    ensures
        degree_steps_fit(m, i),
{
    match m {
        Mode::Ionian => lemma_degree_steps_ionian(i),
        Mode::Dorian => lemma_degree_steps_dorian(i),
        Mode::Phrygian => lemma_degree_steps_phrygian(i),
        Mode::Lydian => lemma_degree_steps_lydian(i),
        Mode::Mixolydian => lemma_degree_steps_mixolydian(i),
        Mode::Aeolian => lemma_degree_steps_aeolian(i),
        Mode::Locrian => lemma_degree_steps_locrian(i),
    }
}

/// The triads of a mode are built from the mode's own scale: on degree
/// `i`, the root is scale degree `i`, the third is scale degree `i + 2` and
/// the fifth scale degree `i + 4` (counting round the seven degrees), each
/// as a pitch class above the tonic.
pub proof fn lemma_mode_triads_from_scale(m: Mode, tonic: PitchClass, i: int)
    requires
        0 <= i < 7,
    ensures
        ({
            let c = m.triad_seq(tonic)[i];
            let scale = m.interval_seq();
            &&& c.quality.interval_seq().len() == 3
            &&& c.root == tonic.shifted(scale[i] as int)
            &&& c.root.shifted(c.quality.interval_seq()[1] as int) == tonic.shifted(scale[(i + 2) % 7] as int)
            &&& c.root.shifted(c.quality.interval_seq()[2] as int) == tonic.shifted(scale[(i + 4) % 7] as int)
        }),
{
    let c = m.triad_seq(tonic)[i];
    let scale = m.interval_seq();
    let q = c.quality.interval_seq();
    lemma_mode_degree_steps(m, i);
    lemma_transpose_compose(tonic, scale[i] as int, q[1] as int);
    lemma_transpose_compose(tonic, scale[i] as int, q[2] as int);
    lemma_shift_same(tonic, scale[i] + q[1], scale[(i + 2) % 7] as int);
    lemma_shift_same(tonic, scale[i] + q[2], scale[(i + 4) % 7] as int);
}

/// The third a chord symbol names, in semitones above the root: a
/// suspension ending in 2 or 4 replaces it by a second or a fourth; a minor
/// (`m`, but not `maj`), diminished (`°`) or half-diminished (`ø`) symbol
/// names a minor third; every other symbol a major third.
pub open spec fn named_third(s: Seq<char>) -> int {
    if s.len() > 0 && s.last() == '2' {
        2
    } else if s.len() > 0 && s.last() == '4' {
        5
    } else if s.len() > 0 && ((s[0] == 'm' && (s.len() == 1 || s[1] != 'a')) || s[0] == '°' || s[0] == 'ø') {
        3
    } else {
        4
    }
}

/// The fifth a chord symbol names: diminished for `°` and `ø`, augmented
/// for `+`, perfect otherwise.
pub open spec fn named_fifth(s: Seq<char>) -> int {
    if s.len() > 0 && (s[0] == '°' || s[0] == 'ø') {
        6
    } else if s.len() > 0 && s[0] == '+' {
        8
    } else {
        7
    }
}

/// Whether a chord symbol names a seventh: it begins or ends with `7`.
pub open spec fn names_seventh(s: Seq<char>) -> bool {
    s.len() > 0 && (s[0] == '7' || s.last() == '7')
}

/// The seventh a chord symbol names: major for `maj7` / `Maj7`, diminished
/// for `°7`, minor otherwise.
pub open spec fn named_seventh(s: Seq<char>) -> int {
    if s.len() >= 2 && s[s.len() - 2] == 'j' {
        11
    } else if s.len() > 0 && s[0] == '°' {
        9
    } else {
        10
    }
}

/// Each quality's tones are the ones its chord symbol names: the root, the
/// named third and fifth, and the named seventh when the symbol names one.
pub proof fn lemma_intervals_match_symbol(q: ChordQuality)
    ensures
        ({
            let s = q.symbol_text()@;
            let iv = q.interval_seq();
            &&& iv.len() == if names_seventh(s) { 4nat } else { 3nat }
            &&& iv[0] == 0
            &&& iv[1] == named_third(s)
            &&& iv[2] == named_fifth(s)
            &&& names_seventh(s) ==> iv[3] == named_seventh(s)
        }),
{
    reveal_strlit("");
    reveal_strlit("m");
    reveal_strlit("°");
    reveal_strlit("+");
    reveal_strlit("maj7");
    reveal_strlit("m7");
    reveal_strlit("7");
    reveal_strlit("mMaj7");
    reveal_strlit("ø7");
    reveal_strlit("°7");
    reveal_strlit("+maj7");
    reveal_strlit("sus2");
    reveal_strlit("sus4");
    reveal_strlit("7sus2");
    reveal_strlit("7sus4");
    match q {
        ChordQuality::Major => {},
        ChordQuality::Minor => {},
        ChordQuality::Diminished => {},
        ChordQuality::Augmented => {},
        ChordQuality::MajorSeventh => {},
        ChordQuality::MinorSeventh => {},
        ChordQuality::DominantSeventh => {},
        ChordQuality::MinorMajorSeventh => {},
        ChordQuality::HalfDiminished => {},
        ChordQuality::FullyDiminished => {},
        ChordQuality::AugmentedMajorSeventh => {},
        ChordQuality::Sus2 => {},
        ChordQuality::Sus4 => {},
        ChordQuality::SevenSus2 => {},
        ChordQuality::SevenSus4 => {},
    }
}

/// A seventh chord that is not suspended rests on the triad of its first
/// three tones.
pub proof fn lemma_seventh_rests_on_triad(q: ChordQuality)
    requires
        q.seventh(),
        !q.suspended(),
    ensures
        q.interval_seq().take(3) == q.triad_basis().interval_seq(),
{
    assert(q.interval_seq().take(3) =~= q.triad_basis().interval_seq());
}

/// Chord-symbol suffixes, longest first, with the quality each one names.
pub open spec fn suffix_table() -> Seq<(&'static str, ChordQuality)> {
    seq![
        ("7sus4", ChordQuality::SevenSus4),
        ("7sus2", ChordQuality::SevenSus2),
        ("+maj7", ChordQuality::AugmentedMajorSeventh),
        ("mMaj7", ChordQuality::MinorMajorSeventh),
        ("m7b5", ChordQuality::HalfDiminished),
        ("dim7", ChordQuality::FullyDiminished),
        ("maj7", ChordQuality::MajorSeventh),
        ("sus4", ChordQuality::Sus4),
        ("sus2", ChordQuality::Sus2),
        ("aug", ChordQuality::Augmented),
        ("dim", ChordQuality::Diminished),
        ("maj", ChordQuality::Major),
        ("m7", ChordQuality::MinorSeventh),
        ("°7", ChordQuality::FullyDiminished),
        ("ø7", ChordQuality::HalfDiminished),
        ("7", ChordQuality::DominantSeventh),
        ("+", ChordQuality::Augmented),
        ("°", ChordQuality::Diminished),
        ("m", ChordQuality::Minor),
        ("", ChordQuality::Major),
    ]
}

/// The first entry of the suffix table, from position `i` on, whose suffix
/// ends `s`: the text before that suffix and the quality it names.
pub open spec fn split_from(s: Seq<char>, i: nat) -> (Seq<char>, ChordQuality)
    decreases suffix_table().len() - i,
{
    if i >= suffix_table().len() {
        (s, ChordQuality::Major)
    } else if has_suffix(s, suffix_table()[i as int].0@) {
        (s.subrange(0, s.len() - suffix_table()[i as int].0@.len()), suffix_table()[i as int].1)
    } else {
        split_from(s, i + 1)
    }
}

/// Splitting a chord symbol into its root text and its quality.
pub open spec fn split_symbol(s: Seq<char>) -> (Seq<char>, ChordQuality) {
    split_from(s, 0)
}

/// The last character of a note spelling, and any character before it,
/// is a note letter or an accidental mark.
pub open spec fn spelling_char(c: char) -> bool {
    c == 'A' || c == 'B' || c == 'C' || c == 'D' || c == 'E' || c == 'F' || c == 'G' || c == '#'
        || c == 's' || c == 'b'
}

/// Accepted pitch spellings are one or two spelling characters.
proof fn lemma_spelling_shape(root: Seq<char>)
    requires
        pitch_named(root) is Some,
    ensures
        1 <= root.len() <= 2,
        spelling_char(root.last()),
{
    reveal_strlit("C");
    reveal_strlit("B#");
    reveal_strlit("C#");
    reveal_strlit("Cs");
    reveal_strlit("Db");
    reveal_strlit("D");
    reveal_strlit("D#");
    reveal_strlit("Ds");
    reveal_strlit("Eb");
    reveal_strlit("E");
    reveal_strlit("Fb");
    reveal_strlit("F");
    reveal_strlit("E#");
    reveal_strlit("F#");
    reveal_strlit("Fs");
    reveal_strlit("Gb");
    reveal_strlit("G");
    reveal_strlit("G#");
    reveal_strlit("Gs");
    reveal_strlit("Ab");
    reveal_strlit("A");
    reveal_strlit("A#");
    reveal_strlit("As");
    reveal_strlit("Bb");
    reveal_strlit("B");
    reveal_strlit("Cb");
}

/// A text whose last character differs from a one-character suffix does
/// not end with it.
proof fn lemma_not_single_suffix(x: Seq<char>, e: Seq<char>)
    requires
        e.len() == 1,
        x.len() >= 1,
        x.last() != e[0],
    ensures
        !has_suffix(x, e),
{
    if has_suffix(x, e) {
        assert(x.subrange(x.len() - 1, x.len() as int)[0] == x.last());
    }
}

/// A root spelling followed by a quality's symbol splits back into that
/// root and that quality: the longest matching suffix is the symbol itself.
/// So chord symbols are read back as they are written.
#[verifier::spinoff_prover]
#[verifier::rlimit(80)]
pub proof fn lemma_symbol_splits_back(root: Seq<char>, q: ChordQuality)
    requires
        pitch_named(root) is Some,
    ensures
        split_symbol(root + q.symbol_text()@) == (root, q),
{
    lemma_spelling_shape(root);
    let x = root + q.symbol_text()@;
    reveal_strlit("7sus4");
    reveal_strlit("7sus2");
    reveal_strlit("+maj7");
    reveal_strlit("mMaj7");
    reveal_strlit("m7b5");
    reveal_strlit("dim7");
    reveal_strlit("maj7");
    reveal_strlit("sus4");
    reveal_strlit("sus2");
    reveal_strlit("aug");
    reveal_strlit("dim");
    reveal_strlit("maj");
    reveal_strlit("m7");
    reveal_strlit("°7");
    reveal_strlit("ø7");
    reveal_strlit("7");
    reveal_strlit("+");
    reveal_strlit("°");
    reveal_strlit("m");
    reveal_strlit("");
    assert forall|e: Seq<char>| e.len() > 0 && e.len() <= x.len() && x.last() != e.last() implies !has_suffix(x, e) by {
        if has_suffix(x, e) {
            assert(x.subrange(x.len() - e.len(), x.len() as int)[e.len() - 1] == x.last());
        }
    }
    assert forall|e: Seq<char>| e.len() > 1 && e.len() <= x.len() && x[x.len() - 2] != e[e.len() - 2] implies !has_suffix(x, e) by {
        if has_suffix(x, e) {
            assert(x.subrange(x.len() - e.len(), x.len() as int)[e.len() - 2] == x[x.len() - 2]);
        }
    }
    assert forall|e: Seq<char>| e.len() > 2 && e.len() <= x.len() && x[x.len() - 3] != e[e.len() - 3] implies !has_suffix(x, e) by {
        if has_suffix(x, e) {
            assert(x.subrange(x.len() - e.len(), x.len() as int)[e.len() - 3] == x[x.len() - 3]);
        }
    }
    assert forall|e: Seq<char>| e.len() > 3 && e.len() <= x.len() && x[x.len() - 4] != e[e.len() - 4] implies !has_suffix(x, e) by {
        if has_suffix(x, e) {
            assert(x.subrange(x.len() - e.len(), x.len() as int)[e.len() - 4] == x[x.len() - 4]);
        }
    }
    assert forall|e: Seq<char>| e.len() > 4 && e.len() <= x.len() && x[x.len() - 5] != e[e.len() - 5] implies !has_suffix(x, e) by {
        if has_suffix(x, e) {
            assert(x.subrange(x.len() - e.len(), x.len() as int)[e.len() - 5] == x[x.len() - 5]);
        }
    }
    assert(has_suffix(x, q.symbol_text()@)) by {
        assert(x.subrange(x.len() - q.symbol_text()@.len(), x.len() as int) =~= q.symbol_text()@);
    }
    assert(x.subrange(0, x.len() - q.symbol_text()@.len()) =~= root);
    let n = root.len();
    assert(x.last() == if q.symbol_text()@.len() == 0 { root.last() } else { q.symbol_text()@.last() });
    assert(q.symbol_text()@.len() >= 1 ==> x[x.len() - 2] == if q.symbol_text()@.len() == 1 {
        root.last()
    } else {
        q.symbol_text()@[q.symbol_text()@.len() - 2]
    });
    assert(q.symbol_text()@.len() >= 2 ==> x[x.len() - 3] == if q.symbol_text()@.len() == 2 {
        root.last()
    } else {
        q.symbol_text()@[q.symbol_text()@.len() - 3]
    });
    assert(q.symbol_text()@.len() == 4 ==> x[x.len() - 5] == root.last());
    assert(q.symbol_text()@.len() == 3 ==> x[x.len() - 4] == root.last());
    reveal_with_fuel(split_from, 21);
    match q {
        ChordQuality::Major => {
            assert(x =~= root);
            assert(split_from(x, 19) == (root, q));
            assert(x.last() != 'm' && x.last() != '°' && x.last() != '+' && x.last() != '7');
            assert(!has_suffix(x, "7sus4"@));
            assert(!has_suffix(x, "7sus2"@));
            assert(!has_suffix(x, "+maj7"@));
            assert(!has_suffix(x, "mMaj7"@));
            assert(!has_suffix(x, "m7b5"@));
            assert(!has_suffix(x, "dim7"@));
            assert(!has_suffix(x, "maj7"@));
            assert(!has_suffix(x, "sus4"@));
            assert(!has_suffix(x, "sus2"@));
            assert(!has_suffix(x, "aug"@));
            assert(!has_suffix(x, "dim"@));
            assert(!has_suffix(x, "maj"@));
            assert(!has_suffix(x, "m7"@));
            assert(!has_suffix(x, "°7"@));
            assert(!has_suffix(x, "ø7"@));
            lemma_not_single_suffix(x, "7"@);
            lemma_not_single_suffix(x, "+"@);
            lemma_not_single_suffix(x, "°"@);
            lemma_not_single_suffix(x, "m"@);
            assert(split_from(x, 18) == split_from(x, 19));
            assert(split_from(x, 17) == split_from(x, 18));
            assert(split_from(x, 16) == split_from(x, 17));
            assert(split_from(x, 15) == split_from(x, 16));
            assert(split_from(x, 14) == split_from(x, 15));
            assert(split_from(x, 13) == split_from(x, 14));
            assert(split_from(x, 12) == split_from(x, 13));
            assert(split_from(x, 11) == split_from(x, 12));
            assert(split_from(x, 10) == split_from(x, 11));
            assert(split_from(x, 9) == split_from(x, 10));
            assert(split_from(x, 8) == split_from(x, 9));
            assert(split_from(x, 7) == split_from(x, 8));
            assert(split_from(x, 6) == split_from(x, 7));
            assert(split_from(x, 5) == split_from(x, 6));
            assert(split_from(x, 4) == split_from(x, 5));
            assert(split_from(x, 3) == split_from(x, 4));
            assert(split_from(x, 2) == split_from(x, 3));
            assert(split_from(x, 1) == split_from(x, 2));
            assert(split_from(x, 0) == split_from(x, 1));
            assert(split_from(x, 0) == (root, q));
            assert(split_symbol(x) == (root, q));
        },
        ChordQuality::Minor => {},
        ChordQuality::Diminished => {},
        ChordQuality::Augmented => {},
        ChordQuality::MajorSeventh => {},
        ChordQuality::MinorSeventh => {},
        ChordQuality::DominantSeventh => {},
        ChordQuality::MinorMajorSeventh => {},
        ChordQuality::HalfDiminished => {},
        ChordQuality::FullyDiminished => {},
        ChordQuality::AugmentedMajorSeventh => {},
        ChordQuality::Sus2 => {},
        ChordQuality::Sus4 => {},
        ChordQuality::SevenSus2 => {},
        ChordQuality::SevenSus4 => {},
    }
}

impl ChordQuality {
    /// Semitone offsets of the chord tones above the root.
    pub open spec fn interval_seq(self) -> Seq<u8> {
        match self {
            ChordQuality::Major => seq![0u8, 4, 7],
            ChordQuality::Minor => seq![0u8, 3, 7],
            ChordQuality::Diminished => seq![0u8, 3, 6],
            ChordQuality::Augmented => seq![0u8, 4, 8],
            ChordQuality::MajorSeventh => seq![0u8, 4, 7, 11],
            ChordQuality::MinorSeventh => seq![0u8, 3, 7, 10],
            ChordQuality::DominantSeventh => seq![0u8, 4, 7, 10],
            ChordQuality::MinorMajorSeventh => seq![0u8, 3, 7, 11],
            ChordQuality::HalfDiminished => seq![0u8, 3, 6, 10],
            ChordQuality::FullyDiminished => seq![0u8, 3, 6, 9],
            ChordQuality::AugmentedMajorSeventh => seq![0u8, 4, 8, 11],
            ChordQuality::Sus2 => seq![0u8, 2, 7],
            ChordQuality::Sus4 => seq![0u8, 5, 7],
            ChordQuality::SevenSus2 => seq![0u8, 2, 7, 10],
            ChordQuality::SevenSus4 => seq![0u8, 5, 7, 10],
        }
    }

    /// Symbol used in chord names.
    pub open spec fn symbol_text(self) -> &'static str {
        match self {
            ChordQuality::Major => "",
            ChordQuality::Minor => "m",
            ChordQuality::Diminished => "°",
            ChordQuality::Augmented => "+",
            ChordQuality::MajorSeventh => "maj7",
            ChordQuality::MinorSeventh => "m7",
            ChordQuality::DominantSeventh => "7",
            ChordQuality::MinorMajorSeventh => "mMaj7",
            ChordQuality::HalfDiminished => "ø7",
            ChordQuality::FullyDiminished => "°7",
            ChordQuality::AugmentedMajorSeventh => "+maj7",
            ChordQuality::Sus2 => "sus2",
            ChordQuality::Sus4 => "sus4",
            ChordQuality::SevenSus2 => "7sus2",
            ChordQuality::SevenSus4 => "7sus4",
        }
    }

    /// Three-note chords.
    pub open spec fn triad(self) -> bool {
        matches!(self, ChordQuality::Major | ChordQuality::Minor | ChordQuality::Diminished
            | ChordQuality::Augmented | ChordQuality::Sus2 | ChordQuality::Sus4)
    }

    /// Four-note seventh chords.
    pub open spec fn seventh(self) -> bool {
        matches!(self, ChordQuality::MajorSeventh | ChordQuality::MinorSeventh
            | ChordQuality::DominantSeventh | ChordQuality::MinorMajorSeventh
            | ChordQuality::HalfDiminished | ChordQuality::FullyDiminished
            | ChordQuality::AugmentedMajorSeventh | ChordQuality::SevenSus2
            | ChordQuality::SevenSus4)
    }

    /// Suspended chords.
    pub open spec fn suspended(self) -> bool {
        matches!(self, ChordQuality::Sus2 | ChordQuality::Sus4 | ChordQuality::SevenSus2
            | ChordQuality::SevenSus4)
    }

    /// The triad a quality rests on.
    pub open spec fn triad_basis(self) -> ChordQuality {
        match self {
            ChordQuality::Major => ChordQuality::Major,
            ChordQuality::Minor => ChordQuality::Minor,
            ChordQuality::Diminished => ChordQuality::Diminished,
            ChordQuality::Augmented => ChordQuality::Augmented,
            ChordQuality::Sus2 | ChordQuality::Sus4 => ChordQuality::Major,
            ChordQuality::MajorSeventh => ChordQuality::Major,
            ChordQuality::MinorSeventh => ChordQuality::Minor,
            ChordQuality::DominantSeventh => ChordQuality::Major,
            ChordQuality::MinorMajorSeventh => ChordQuality::Minor,
            ChordQuality::HalfDiminished => ChordQuality::Diminished,
            ChordQuality::FullyDiminished => ChordQuality::Diminished,
            ChordQuality::AugmentedMajorSeventh => ChordQuality::Augmented,
            ChordQuality::SevenSus2 | ChordQuality::SevenSus4 => ChordQuality::Major,
        }
    }

    /// The intervals from the root for this quality, in semitones.
    pub fn intervals(&self) -> (r: Vec<u8>)
        ensures
            r@ == self.interval_seq(),
    {
        match self {
            ChordQuality::Major => vec![0, 4, 7],
            ChordQuality::Minor => vec![0, 3, 7],
            ChordQuality::Diminished => vec![0, 3, 6],
            ChordQuality::Augmented => vec![0, 4, 8],
            ChordQuality::MajorSeventh => vec![0, 4, 7, 11],
            ChordQuality::MinorSeventh => vec![0, 3, 7, 10],
            ChordQuality::DominantSeventh => vec![0, 4, 7, 10],
            ChordQuality::MinorMajorSeventh => vec![0, 3, 7, 11],
            ChordQuality::HalfDiminished => vec![0, 3, 6, 10],
            ChordQuality::FullyDiminished => vec![0, 3, 6, 9],
            ChordQuality::AugmentedMajorSeventh => vec![0, 4, 8, 11],
            ChordQuality::Sus2 => vec![0, 2, 7],
            ChordQuality::Sus4 => vec![0, 5, 7],
            ChordQuality::SevenSus2 => vec![0, 2, 7, 10],
            ChordQuality::SevenSus4 => vec![0, 5, 7, 10],
        }
    }

    /// Symbol for chord notation.
    pub fn symbol(&self) -> (r: &'static str)
        ensures
            r == self.symbol_text(),
    {
        match self {
            ChordQuality::Major => "",
            ChordQuality::Minor => "m",
            ChordQuality::Diminished => "°",
            ChordQuality::Augmented => "+",
            ChordQuality::MajorSeventh => "maj7",
            ChordQuality::MinorSeventh => "m7",
            ChordQuality::DominantSeventh => "7",
            ChordQuality::MinorMajorSeventh => "mMaj7",
            ChordQuality::HalfDiminished => "ø7",
            ChordQuality::FullyDiminished => "°7",
            ChordQuality::AugmentedMajorSeventh => "+maj7",
            ChordQuality::Sus2 => "sus2",
            ChordQuality::Sus4 => "sus4",
            ChordQuality::SevenSus2 => "7sus2",
            ChordQuality::SevenSus4 => "7sus4",
        }
    }

    /// The suffix table as a vector.
    fn suffixes() -> (r: Vec<(&'static str, ChordQuality)>)
        ensures
            r@ == suffix_table(),
    {
        let r = vec![
            ("7sus4", ChordQuality::SevenSus4),
            ("7sus2", ChordQuality::SevenSus2),
            ("+maj7", ChordQuality::AugmentedMajorSeventh),
            ("mMaj7", ChordQuality::MinorMajorSeventh),
            ("m7b5", ChordQuality::HalfDiminished),
            ("dim7", ChordQuality::FullyDiminished),
            ("maj7", ChordQuality::MajorSeventh),
            ("sus4", ChordQuality::Sus4),
            ("sus2", ChordQuality::Sus2),
            ("aug", ChordQuality::Augmented),
            ("dim", ChordQuality::Diminished),
            ("maj", ChordQuality::Major),
            ("m7", ChordQuality::MinorSeventh),
            ("°7", ChordQuality::FullyDiminished),
            ("ø7", ChordQuality::HalfDiminished),
            ("7", ChordQuality::DominantSeventh),
            ("+", ChordQuality::Augmented),
            ("°", ChordQuality::Diminished),
            ("m", ChordQuality::Minor),
            ("", ChordQuality::Major),
        ];
        assert(r@ =~= suffix_table());
        r
    }

    /// Splits a chord symbol into the root text and the quality named by the
    /// longest matching suffix; with no suffix the chord is major.
    pub fn split_root_quality(input: &str) -> (r: (&str, Self))
        ensures
            (r.0@, r.1) == split_symbol(input@),
    {
        let table = Self::suffixes();
        let mut i: usize = 0;
        while i < table.len()
            invariant
                table@ == suffix_table(),
                i <= table@.len(),
                split_symbol(input@) == split_from(input@, i as nat),
            decreases table.len() - i,
        {
            let (suffix, quality) = table[i];
            if str_ends_with(input, suffix) {
                let n = input.unicode_len();
                let k = suffix.unicode_len();
                let root = input.substring_char(0, n - k);
                return (root, quality);
            }
            i = i + 1;
        }
        (input, ChordQuality::Major)
    }

    /// Whether this is a triad (three notes).
    pub fn is_triad(&self) -> (r: bool)
        ensures
            r == self.triad(),
    {
        matches!(self, ChordQuality::Major | ChordQuality::Minor | ChordQuality::Diminished
            | ChordQuality::Augmented | ChordQuality::Sus2 | ChordQuality::Sus4)
    }

    /// Whether this is a seventh chord (four notes).
    pub fn is_seventh(&self) -> (r: bool)
        ensures
            r == self.seventh(),
    {
        matches!(self, ChordQuality::MajorSeventh | ChordQuality::MinorSeventh
            | ChordQuality::DominantSeventh | ChordQuality::MinorMajorSeventh
            | ChordQuality::HalfDiminished | ChordQuality::FullyDiminished
            | ChordQuality::AugmentedMajorSeventh | ChordQuality::SevenSus2
            | ChordQuality::SevenSus4)
    }

    /// Whether this is a suspended chord.
    pub fn is_suspended(&self) -> (r: bool)
        ensures
            r == self.suspended(),
    {
        matches!(self, ChordQuality::Sus2 | ChordQuality::Sus4 | ChordQuality::SevenSus2
            | ChordQuality::SevenSus4)
    }

    /// The underlying triad: seventh chords give their triad, suspended
    /// chords resolve to major.
    pub fn underlying_triad(&self) -> (r: ChordQuality)
        ensures
            r == self.triad_basis(),
    {
        match self {
            ChordQuality::Major => ChordQuality::Major,
            ChordQuality::Minor => ChordQuality::Minor,
            ChordQuality::Diminished => ChordQuality::Diminished,
            ChordQuality::Augmented => ChordQuality::Augmented,
            ChordQuality::Sus2 | ChordQuality::Sus4 => ChordQuality::Major,
            ChordQuality::MajorSeventh => ChordQuality::Major,
            ChordQuality::MinorSeventh => ChordQuality::Minor,
            ChordQuality::DominantSeventh => ChordQuality::Major,
            ChordQuality::MinorMajorSeventh => ChordQuality::Minor,
            ChordQuality::HalfDiminished => ChordQuality::Diminished,
            ChordQuality::FullyDiminished => ChordQuality::Diminished,
            ChordQuality::AugmentedMajorSeventh => ChordQuality::Augmented,
            ChordQuality::SevenSus2 | ChordQuality::SevenSus4 => ChordQuality::Major,
        }
    }
}

impl Default for ChordQuality {
    fn default() -> (r: Self)
        ensures
            r == ChordQuality::Major,
    {
        ChordQuality::Major
    }
}

/// The underlying triad of every quality is a plain triad, and taking it
/// twice changes nothing.
pub proof fn lemma_triad_basis_idempotent(q: ChordQuality)
    ensures
        q.triad_basis().triad(),
        !q.triad_basis().suspended(),
        q.triad_basis().triad_basis() == q.triad_basis(),
{
}

/// A chord: a root and a quality.
#[derive(Debug, Clone, Copy, PartialEq, Eq, Hash, Structural)]
pub struct Chord {
    pub root: PitchClass,
    pub quality: ChordQuality,
}

/// The parse result of a chord symbol, as `Chord::try_from` gives it.
pub open spec fn chord_parse_ok(value: Seq<char>, r: Result<Chord, LobachevskyError>) -> bool {
    let (root, quality) = split_symbol(value);
    match pitch_named(root) {
        Some(p) => r == Ok::<Chord, LobachevskyError>(Chord { root: p, quality }),
        None => r matches Err(LobachevskyError::InvalidPitch { input }) && input@ == root,
    }
}

/// A chord written as an accepted root spelling and a quality's symbol is
/// read back as that chord.
pub proof fn lemma_chord_symbol_round_trip(root: Seq<char>, q: ChordQuality, r: Result<Chord, LobachevskyError>)
    requires
        pitch_named(root) is Some,
        chord_parse_ok(root + q.symbol_text()@, r),
    ensures
        r == Ok::<Chord, LobachevskyError>(Chord { root: pitch_named(root).unwrap(), quality: q }),
{
    lemma_symbol_splits_back(root, q);
}

impl Chord {
    /// Whether some chord tone lies past B, in the next octave up.
    pub open spec fn crosses_octave(self) -> bool {
        exists|i: int|
            0 <= i < self.quality.interval_seq().len() && self.root.semitone()
                + self.quality.interval_seq()[i] > 11
    }

    /// The notes of the chord from a given octave; tones past B move up an
    /// octave.
    pub open spec fn note_seq(self, octave: i8) -> Seq<Note> {
        Seq::new(
            self.quality.interval_seq().len(),
            |i: int|
                Note {
                    pitch_class: self.root.shifted(self.quality.interval_seq()[i] as int),
                    octave: if self.root.semitone() + self.quality.interval_seq()[i] > 11 {
                        (octave + 1) as i8
                    } else {
                        octave
                    },
                },
        )
    }

    /// Display name: root name followed by the quality's symbol.
    pub open spec fn name_text(self, prefer_sharps: bool) -> Seq<char> {
        self.root.enharmonic(prefer_sharps)@ + self.quality.symbol_text()@
    }

    /// Create a new chord.
    pub fn new(root: PitchClass, quality: ChordQuality) -> (r: Self)
        ensures
            r == (Chord { root, quality }),
    {
        Chord { root, quality }
    }

    /// A major triad.
    pub fn major(root: PitchClass) -> (r: Self)
        ensures
            r == (Chord { root, quality: ChordQuality::Major }),
    {
        Chord::new(root, ChordQuality::Major)
    }

    /// A minor triad.
    pub fn minor(root: PitchClass) -> (r: Self)
        ensures
            r == (Chord { root, quality: ChordQuality::Minor }),
    {
        Chord::new(root, ChordQuality::Minor)
    }

    /// A seventh chord; the quality must be a seventh quality.
    pub fn seventh(root: PitchClass, quality: ChordQuality) -> (r: Self)
        requires
            quality.seventh(),
        ensures
            r == (Chord { root, quality }),
    {
        Chord::new(root, quality)
    }

    /// A suspended chord; the quality must be a suspended quality.
    pub fn suspended(root: PitchClass, quality: ChordQuality) -> (r: Self)
        requires
            quality.suspended(),
        ensures
            r == (Chord { root, quality }),
    {
        Chord::new(root, quality)
    }

    /// C major.
    pub fn c_major() -> (r: Self)
        ensures
            r == (Chord { root: PitchClass::C, quality: ChordQuality::Major }),
    {
        Chord::major(PitchClass::C)
    }

    /// F major.
    pub fn f_major() -> (r: Self)
        ensures
            r == (Chord { root: PitchClass::F, quality: ChordQuality::Major }),
    {
        Chord::major(PitchClass::F)
    }

    /// G major.
    pub fn g_major() -> (r: Self)
        ensures
            r == (Chord { root: PitchClass::G, quality: ChordQuality::Major }),
    {
        Chord::major(PitchClass::G)
    }

    /// A minor.
    pub fn a_minor() -> (r: Self)
        ensures
            r == (Chord { root: PitchClass::A, quality: ChordQuality::Minor }),
    {
        Chord::minor(PitchClass::A)
    }

    /// D minor.
    pub fn d_minor() -> (r: Self)
        ensures
            r == (Chord { root: PitchClass::D, quality: ChordQuality::Minor }),
    {
        Chord::minor(PitchClass::D)
    }

    /// E minor.
    pub fn e_minor() -> (r: Self)
        ensures
            r == (Chord { root: PitchClass::E, quality: ChordQuality::Minor }),
    {
        Chord::minor(PitchClass::E)
    }

    /// C major seventh.
    pub fn c_major_seventh() -> (r: Self)
        ensures
            r == (Chord { root: PitchClass::C, quality: ChordQuality::MajorSeventh }),
    {
        Chord::seventh(PitchClass::C, ChordQuality::MajorSeventh)
    }

    /// C dominant seventh.
    pub fn c_dominant_seventh() -> (r: Self)
        ensures
            r == (Chord { root: PitchClass::C, quality: ChordQuality::DominantSeventh }),
    {
        Chord::seventh(PitchClass::C, ChordQuality::DominantSeventh)
    }

    /// A minor seventh.
    pub fn a_minor_seventh() -> (r: Self)
        ensures
            r == (Chord { root: PitchClass::A, quality: ChordQuality::MinorSeventh }),
    {
        Chord::seventh(PitchClass::A, ChordQuality::MinorSeventh)
    }

    /// F sus2.
    pub fn f_sus2() -> (r: Self)
        ensures
            r == (Chord { root: PitchClass::F, quality: ChordQuality::Sus2 }),
    {
        Chord::suspended(PitchClass::F, ChordQuality::Sus2)
    }

    /// F sus4.
    pub fn f_sus4() -> (r: Self)
        ensures
            r == (Chord { root: PitchClass::F, quality: ChordQuality::Sus4 }),
    {
        Chord::suspended(PitchClass::F, ChordQuality::Sus4)
    }

    /// The notes of this chord, starting at an octave; tones that pass B
    /// land in the next octave.
    pub fn notes(&self, octave: i8) -> (r: Vec<Note>)
        requires
            octave < 127 || !self.crosses_octave(),
        ensures
            r@ == self.note_seq(octave),
    {
        let intervals = self.quality.intervals();
        let root_semitone = self.root.to_semitone();
        let mut out: Vec<Note> = Vec::new();
        let mut i: usize = 0;
        while i < intervals.len()
            invariant
                intervals@ == self.quality.interval_seq(),
                root_semitone == self.root.semitone(),
                octave < 127 || !self.crosses_octave(),
                i <= intervals@.len(),
                out@ == self.note_seq(octave).subrange(0, i as int),
            decreases intervals.len() - i,
        {
            let interval = intervals[i];
            assert(interval < 12);
            let pitch = self.root.transpose(interval as i8);
            let oct = if root_semitone + interval > 11 {
                assert(self.root.semitone() + self.quality.interval_seq()[i as int] > 11);
                octave + 1
            } else {
                octave
            };
            out.push(Note::new(pitch, oct));
            assert(out@ =~= self.note_seq(octave).subrange(0, i + 1));
            i = i + 1;
        }
        assert(out@ =~= self.note_seq(octave));
        out
    }

    /// Chord name for display: root name, then the quality symbol.
    pub fn name(&self, prefer_sharps: bool) -> (r: String)
        ensures
            r@ == self.name_text(prefer_sharps),
    {
        let root = String::from_str(self.root.enharmonic_name(prefer_sharps));
        root.concat(self.quality.symbol())
    }

    /// Parses a chord symbol such as `Am7`: the longest known suffix names
    /// the quality and the text before it must name a pitch.
    pub fn parse(value: &str) -> (r: Result<Chord, LobachevskyError>)
        ensures
            chord_parse_ok(value@, r),
    {
        let (root_str, quality) = ChordQuality::split_root_quality(value);
        match PitchClass::parse(root_str) {
            Ok(root) => Ok(Chord::new(root, quality)),
            Err(e) => Err(e),
        }
    }
}

/// Conversion from a chord symbol. Errors carry a fresh `String` equal to
/// the root text by characters only, so `obeys_try_from_spec` is false and
/// the impl states its result in its own `ensures`.
impl<'a> vstd::std_specs::convert::TryFromSpecImpl<&'a str> for Chord {
    open spec fn obeys_try_from_spec() -> bool {
        false
    }

    open spec fn try_from_spec(v: &'a str) -> Result<Self, LobachevskyError> {
        let (root, quality) = split_symbol(v@);
        match pitch_named(root) {
            Some(p) => Ok(Chord { root: p, quality }),
            None => Err(LobachevskyError::InvalidPitch { input: choose|s: String| s@ == root }),
        }
    }
}

impl<'a> TryFrom<&'a str> for Chord {
    type Error = LobachevskyError;

    fn try_from(value: &'a str) -> (r: Result<Self, Self::Error>)
        ensures
            chord_parse_ok(value@, r),
    {
        Chord::parse(value)
    }
}

impl Default for Chord {
    fn default() -> (r: Self)
        ensures
            r == (Chord { root: PitchClass::C, quality: ChordQuality::Major }),
    {
        Chord::c_major()
    }
}

} // verus!
