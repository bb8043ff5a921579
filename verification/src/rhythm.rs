//! Drum and bass voices, and the step patterns of Euclidean rhythm tracks.
//! Timing in beats is floating-point and lives with the program.

use vstd::prelude::*;

use crate::core_types::{Chord, ChordQuality, Note, PitchClass};
use crate::errors::LobachevskyError;
use crate::euclidean::{
    bresenham_pattern, pulse_count, rotate_pattern, rotated, Breshenham, EuclideanRhythm,
};
use crate::text::{chars_eq_str, chars_of, lowercase, unicode_lowercase};

verus! {

/// Drum and percussion instruments.
#[derive(Debug, Clone, Copy, PartialEq, Eq, Hash)]
pub enum DrumVoice {
    Kick,
    KickSoft,
    Snare,
    Rim,
    HiHatClosed,
    HiHatOpen,
    Shaker,
    Ride,
    Clap,
    Percussion,
}

impl DrumVoice {
    /// The General MIDI note of each drum.
    pub open spec fn gm_note(self) -> u8 {
        match self {
            DrumVoice::Kick => 36,
            DrumVoice::KickSoft => 35,
            DrumVoice::Snare => 38,
            DrumVoice::Rim => 37,
            DrumVoice::HiHatClosed => 42,
            DrumVoice::HiHatOpen => 46,
            DrumVoice::Shaker => 70,
            DrumVoice::Ride => 51,
            DrumVoice::Clap => 39,
            DrumVoice::Percussion => 69,
        }
    }

    /// General MIDI note number of this drum.
    pub fn midi_note(&self) -> (r: u8)
        ensures
            r == self.gm_note(),
    {
        match self {
            DrumVoice::Kick => 36,
            DrumVoice::KickSoft => 35,
            DrumVoice::Snare => 38,
            DrumVoice::Rim => 37,
            DrumVoice::HiHatClosed => 42,
            DrumVoice::HiHatOpen => 46,
            DrumVoice::Shaker => 70,
            DrumVoice::Ride => 51,
            DrumVoice::Clap => 39,
            DrumVoice::Percussion => 69,
        }
    }
}

/// The drum a lower-case name stands for.
pub open spec fn drum_named(s: Seq<char>) -> Option<DrumVoice> {
    if s == "kick"@ {
        Some(DrumVoice::Kick)
    } else if s == "kicksoft"@ || s == "kick_soft"@ {
        Some(DrumVoice::KickSoft)
    } else if s == "snare"@ {
        Some(DrumVoice::Snare)
    } else if s == "rim"@ {
        Some(DrumVoice::Rim)
    } else if s == "hihatclosed"@ || s == "hihat_closed"@ || s == "closed_hihat"@ {
        Some(DrumVoice::HiHatClosed)
    } else if s == "hihatopen"@ || s == "hihat_open"@ || s == "open_hihat"@ {
        Some(DrumVoice::HiHatOpen)
    } else if s == "shaker"@ {
        Some(DrumVoice::Shaker)
    } else if s == "ride"@ {
        Some(DrumVoice::Ride)
    } else if s == "clap"@ {
        Some(DrumVoice::Clap)
    } else if s == "percussion"@ || s == "perc"@ {
        Some(DrumVoice::Percussion)
    } else {
        None
    }
}

/// The result of reading a drum name: case is ignored; an unknown name is
/// an `InvalidDrumVoice` error carrying the name as given.
pub open spec fn drum_parse_ok(value: Seq<char>, r: Result<DrumVoice, LobachevskyError>) -> bool {
    match drum_named(unicode_lowercase(value)) {
        Some(d) => r == Ok::<DrumVoice, LobachevskyError>(d),
        None => r matches Err(LobachevskyError::InvalidDrumVoice { voice }) && voice@ == value,
    }
}

impl DrumVoice {
    /// Read a drum name, ignoring case.
    pub fn parse(value: &str) -> (r: Result<DrumVoice, LobachevskyError>)
        ensures
            drum_parse_ok(value@, r),
    {
        let lower = lowercase(value);
        let v = chars_of(lower.as_str());
        let s = v.as_slice();
        if chars_eq_str(s, "kick") {
            Ok(DrumVoice::Kick)
        } else if chars_eq_str(s, "kicksoft") || chars_eq_str(s, "kick_soft") {
            Ok(DrumVoice::KickSoft)
        } else if chars_eq_str(s, "snare") {
            Ok(DrumVoice::Snare)
        } else if chars_eq_str(s, "rim") {
            Ok(DrumVoice::Rim)
        } else if chars_eq_str(s, "hihatclosed") || chars_eq_str(s, "hihat_closed") || chars_eq_str(
            s,
            "closed_hihat",
        ) {
            Ok(DrumVoice::HiHatClosed)
        } else if chars_eq_str(s, "hihatopen") || chars_eq_str(s, "hihat_open") || chars_eq_str(
            s,
            "open_hihat",
        ) {
            Ok(DrumVoice::HiHatOpen)
        } else if chars_eq_str(s, "shaker") {
            Ok(DrumVoice::Shaker)
        } else if chars_eq_str(s, "ride") {
            Ok(DrumVoice::Ride)
        } else if chars_eq_str(s, "clap") {
            Ok(DrumVoice::Clap)
        } else if chars_eq_str(s, "percussion") || chars_eq_str(s, "perc") {
            Ok(DrumVoice::Percussion)
        } else {
            Err(LobachevskyError::InvalidDrumVoice { voice: String::from_str(value) })
        }
    }
}

/// Conversion from a name. Errors carry a fresh `String` equal to the input
/// by characters only, so `obeys_try_from_spec` is false and the impl states
/// its result in its own `ensures`.
impl<'a> vstd::std_specs::convert::TryFromSpecImpl<&'a str> for DrumVoice {
    open spec fn obeys_try_from_spec() -> bool {
        false
    }

    open spec fn try_from_spec(v: &'a str) -> Result<Self, LobachevskyError> {
        match drum_named(unicode_lowercase(v@)) {
            Some(d) => Ok(d),
            None => Err(LobachevskyError::InvalidDrumVoice { voice: choose|s: String| s@ == v@ }),
        }
    }
}

impl<'a> TryFrom<&'a str> for DrumVoice {
    type Error = LobachevskyError;

    fn try_from(value: &'a str) -> (r: Result<Self, Self::Error>)
        ensures
            drum_parse_ok(value@, r),
    {
        DrumVoice::parse(value)
    }
}

/// The steps of a Euclidean track: empty without steps; otherwise the hits
/// (at most the steps) spread by the line-drawing algorithm, started on a
/// hit and then rotated left by the rotation (modulo the steps).
pub open spec fn euclidean_steps(steps: nat, hits: nat, rotation: nat) -> Seq<bool> {
    if steps == 0 {
        Seq::empty()
    } else {
        let h = if hits <= steps {
            hits
        } else {
            steps
        };
        let base = bresenham_pattern(steps, h);
        if rotation > 0 {
            rotated(base, (rotation % steps) as int)
        } else {
            base
        }
    }
}

/// The steps of a Euclidean track, computed.
pub fn euclidean_track(steps: usize, hits: usize, rotation: usize) -> (r: Vec<bool>)
    ensures
        r@ == euclidean_steps(steps as nat, hits as nat, rotation as nat),
        r@.len() == steps,
        pulse_count(r@) == if hits <= steps {
            hits
        } else {
            steps
        },
{
    if steps == 0 {
        return Vec::new();
    }
    let h = if hits <= steps {
        hits
    } else {
        steps
    };
    let pattern = match Breshenham::generate(steps, h) {
        Ok(p) => p,
        Err(_) => {
            return Vec::new();
        },
    };
    if rotation > 0 {
        let rot = rotation % steps;
        proof {
            let s = pattern@;
            let k = rot as int;
            crate::euclidean::lemma_pulse_count_concat(s.subrange(k, s.len() as int), s.subrange(0, k));
            crate::euclidean::lemma_pulse_count_concat(s.subrange(0, k), s.subrange(k, s.len() as int));
            assert(s.subrange(0, k) + s.subrange(k, s.len() as int) =~= s);
        }
        rotate_pattern(&pattern, rot)
    } else {
        pattern
    }
}

/// Euclidean drum track: hits spread evenly over the steps of a bar.
#[derive(Debug, Clone, Copy)]
pub struct EuclideanPattern {
    voice: DrumVoice,
    hits: usize,
    steps: usize,
    rotation: usize,
    velocity: u8,
}

impl EuclideanPattern {
    /// The drum.
    pub closed spec fn voice_view(&self) -> DrumVoice {
        self.voice
    }

    /// The number of hits.
    pub closed spec fn hits_view(&self) -> nat {
        self.hits as nat
    }

    /// The number of steps in a bar.
    pub closed spec fn steps_view(&self) -> nat {
        self.steps as nat
    }

    /// The extra rotation.
    pub closed spec fn rotation_view(&self) -> nat {
        self.rotation as nat
    }

    /// The velocity of each hit.
    pub closed spec fn velocity_view(&self) -> u8 {
        self.velocity
    }

    /// A track of `hits` hits over `steps` steps, unrotated, at velocity 64.
    pub fn new(voice: DrumVoice, hits: usize, steps: usize) -> (r: Self)
        ensures
            r.voice_view() == voice,
            r.hits_view() == hits,
            r.steps_view() == steps,
            r.rotation_view() == 0,
            r.velocity_view() == 64,
    {
        EuclideanPattern { voice, hits, steps, rotation: 0, velocity: 64 }
    }

    /// Set the rotation.
    pub fn with_rotation(self, rotation: usize) -> (r: Self)
        ensures
            r.rotation_view() == rotation,
            r.voice_view() == self.voice_view(),
            r.hits_view() == self.hits_view(),
            r.steps_view() == self.steps_view(),
            r.velocity_view() == self.velocity_view(),
    {
        EuclideanPattern { rotation, ..self }
    }

    /// Set the velocity.
    pub fn with_velocity(self, velocity: u8) -> (r: Self)
        ensures
            r.velocity_view() == velocity,
            r.voice_view() == self.voice_view(),
            r.hits_view() == self.hits_view(),
            r.steps_view() == self.steps_view(),
            r.rotation_view() == self.rotation_view(),
    {
        EuclideanPattern { velocity, ..self }
    }

    /// The drum.
    pub fn voice(&self) -> (r: DrumVoice)
        ensures
            r == self.voice_view(),
    {
        self.voice
    }

    /// The number of steps in a bar.
    pub fn steps(&self) -> (r: usize)
        ensures
            r == self.steps_view(),
    {
        self.steps
    }

    /// The velocity of each hit.
    pub fn velocity(&self) -> (r: u8)
        ensures
            r == self.velocity_view(),
    {
        self.velocity
    }

    /// The steps of one bar: `true` where the drum sounds.
    pub fn generate_pattern(&self) -> (r: Vec<bool>)
        ensures
            r@ == euclidean_steps(self.steps_view(), self.hits_view(), self.rotation_view()),
    {
        euclidean_track(self.steps, self.hits, self.rotation)
    }
}

impl Default for EuclideanPattern {
    fn default() -> (r: Self)
        ensures
            r.voice_view() == DrumVoice::Kick,
            r.hits_view() == 0,
            r.steps_view() == 4,
            r.rotation_view() == 0,
            r.velocity_view() == 64,
    {
        EuclideanPattern { voice: DrumVoice::Kick, hits: 0, steps: 4, rotation: 0, velocity: 64 }
    }
}

/// Bass voices, for different articulations.
#[derive(Debug, Clone, Copy, PartialEq, Eq)]
pub enum BassVoice {
    /// Standard bass.
    Bass,
    /// Short, punchy notes.
    BassStaccato,
    /// Smooth, connected notes.
    BassLegato,
    /// Deep sub-bass.
    BassSub,
    /// Sliding notes.
    BassSlide,
}

impl BassVoice {
    /// The MIDI channel of each voice.
    pub open spec fn channel_of(self) -> u8 {
        match self {
            BassVoice::Bass => 1,
            BassVoice::BassStaccato => 1,
            BassVoice::BassLegato => 2,
            BassVoice::BassSub => 3,
            BassVoice::BassSlide => 4,
        }
    }

    /// The default velocity of each voice.
    pub open spec fn velocity_of(self) -> u8 {
        match self {
            BassVoice::Bass => 80,
            BassVoice::BassStaccato => 90,
            BassVoice::BassLegato => 70,
            BassVoice::BassSub => 60,
            BassVoice::BassSlide => 75,
        }
    }

    /// MIDI channel of this voice.
    pub fn midi_channel(&self) -> (r: u8)
        ensures
            r == self.channel_of(),
    {
        match self {
            BassVoice::Bass => 1,
            BassVoice::BassStaccato => 1,
            BassVoice::BassLegato => 2,
            BassVoice::BassSub => 3,
            BassVoice::BassSlide => 4,
        }
    }

    /// Default velocity of this voice.
    pub fn default_velocity(&self) -> (r: u8)
        ensures
            r == self.velocity_of(),
    {
        match self {
            BassVoice::Bass => 80,
            BassVoice::BassStaccato => 90,
            BassVoice::BassLegato => 70,
            BassVoice::BassSub => 60,
            BassVoice::BassSlide => 75,
        }
    }
}

/// Chords whose third is major for bass purposes.
pub open spec fn major_third_quality(q: ChordQuality) -> bool {
    q == ChordQuality::Major || q == ChordQuality::MajorSeventh || q == ChordQuality::DominantSeventh
}

/// The bass note a note-pattern word picks from a chord: the root, third,
/// fifth, seventh (in the octave), or the root an octave up; unknown words
/// give the root.
pub open spec fn bass_note_of(word: Seq<char>, chord: Chord, octave: i8) -> Note {
    let major = major_third_quality(chord.quality);
    if word == "third"@ {
        Note {
            pitch_class: chord.root.shifted(
                if major {
                    4
                } else {
                    3
                },
            ),
            octave,
        }
    } else if word == "fifth"@ {
        Note { pitch_class: chord.root.shifted(7), octave }
    } else if word == "octave"@ {
        Note { pitch_class: chord.root, octave: (octave + 1) as i8 }
    } else if word == "seventh"@ {
        Note {
            pitch_class: chord.root.shifted(
                if major {
                    11
                } else {
                    10
                },
            ),
            octave,
        }
    } else {
        Note { pitch_class: chord.root, octave }
    }
}

/// The note-pattern words are different words.
proof fn lemma_note_words_differ()
    ensures
        "root"@ != "third"@,
        "root"@ != "fifth"@,
        "root"@ != "octave"@,
        "root"@ != "seventh"@,
        "third"@ != "fifth"@,
        "third"@ != "octave"@,
        "third"@ != "seventh"@,
        "fifth"@ != "octave"@,
        "fifth"@ != "seventh"@,
        "octave"@ != "seventh"@,
{
    reveal_strlit("root");
    reveal_strlit("third");
    reveal_strlit("fifth");
    reveal_strlit("octave");
    reveal_strlit("seventh");
    assert("root"@.len() == 4);
    assert("third"@.len() == 5);
    assert("fifth"@.len() == 5);
    assert("octave"@.len() == 6);
    assert("seventh"@.len() == 7);
    assert("third"@[0] != "fifth"@[0]);
}

/// The bass note a note-pattern word picks from a chord.
pub fn bass_note(word: &str, chord: &Chord, octave: i8) -> (r: Note)
    requires
        word@ == "octave"@ ==> octave < 127,
    ensures
        r == bass_note_of(word@, *chord, octave),
{
    let is_major = match chord.quality {
        ChordQuality::Major | ChordQuality::MajorSeventh | ChordQuality::DominantSeventh => true,
        _ => false,
    };
    assert(is_major == major_third_quality(chord.quality));
    let w = chars_of(word);
    let s = w.as_slice();
    proof {
        lemma_note_words_differ();
    }
    let third: i8 = if is_major {
        4
    } else {
        3
    };
    let seventh: i8 = if is_major {
        11
    } else {
        10
    };
    if chars_eq_str(s, "root") {
        Note::new(chord.root, octave)
    } else if chars_eq_str(s, "third") {
        Note::new(chord.root.transpose(third), octave)
    } else if chars_eq_str(s, "fifth") {
        Note::new(chord.root.transpose(7), octave)
    } else if chars_eq_str(s, "octave") {
        Note::new(chord.root, octave + 1)
    } else if chars_eq_str(s, "seventh") {
        Note::new(chord.root.transpose(seventh), octave)
    } else {
        Note::new(chord.root, octave)
    }
}

/// Euclidean bass track: hits spread over the steps, each playing the note
/// its step picks from the note pattern.
pub struct EuclideanBassPattern {
    voice: BassVoice,
    hits: usize,
    steps: usize,
    rotation: usize,
    velocity: u8,
    note_pattern: Vec<String>,
}

impl EuclideanBassPattern {
    /// The voice.
    pub closed spec fn voice_view(&self) -> BassVoice {
        self.voice
    }

    /// The number of hits.
    pub closed spec fn hits_view(&self) -> nat {
        self.hits as nat
    }

    /// The number of steps in a bar.
    pub closed spec fn steps_view(&self) -> nat {
        self.steps as nat
    }

    /// The extra rotation.
    pub closed spec fn rotation_view(&self) -> nat {
        self.rotation as nat
    }

    /// The velocity of each note.
    pub closed spec fn velocity_view(&self) -> u8 {
        self.velocity
    }

    /// The note-pattern words, cycled over the steps.
    pub closed spec fn note_pattern_view(&self) -> Seq<Seq<char>> {
        self.note_pattern@.map_values(|s: String| s@)
    }

    /// A track of `hits` hits over `steps` steps at the voice's default
    /// velocity, playing roots.
    pub fn new(voice: BassVoice, hits: usize, steps: usize) -> (r: Self)
        ensures
            r.voice_view() == voice,
            r.hits_view() == hits,
            r.steps_view() == steps,
            r.rotation_view() == 0,
            r.velocity_view() == voice.velocity_of(),
            r.note_pattern_view() == seq!["root"@],
    {
        let words = vec![String::from_str("root")];
        let r = EuclideanBassPattern {
            voice,
            hits,
            steps,
            rotation: 0,
            velocity: voice.default_velocity(),
            note_pattern: words,
        };
        assert(r.note_pattern@.map_values(|s: String| s@) =~= seq!["root"@]);
        r
    }

    /// Set the rotation.
    pub fn with_rotation(self, rotation: usize) -> (r: Self)
        ensures
            r.rotation_view() == rotation,
            r.voice_view() == self.voice_view(),
            r.hits_view() == self.hits_view(),
            r.steps_view() == self.steps_view(),
            r.velocity_view() == self.velocity_view(),
            r.note_pattern_view() == self.note_pattern_view(),
    {
        EuclideanBassPattern { rotation, ..self }
    }

    /// Set the velocity.
    pub fn with_velocity(self, velocity: u8) -> (r: Self)
        ensures
            r.velocity_view() == velocity,
            r.voice_view() == self.voice_view(),
            r.hits_view() == self.hits_view(),
            r.steps_view() == self.steps_view(),
            r.rotation_view() == self.rotation_view(),
            r.note_pattern_view() == self.note_pattern_view(),
    {
        EuclideanBassPattern { velocity, ..self }
    }

    /// Set the note-pattern words (such as "root", "fifth", "octave").
    pub fn with_note_pattern(self, pattern: Vec<String>) -> (r: Self)
        ensures
            r.note_pattern_view() == pattern@.map_values(|s: String| s@),
            r.voice_view() == self.voice_view(),
            r.hits_view() == self.hits_view(),
            r.steps_view() == self.steps_view(),
            r.rotation_view() == self.rotation_view(),
            r.velocity_view() == self.velocity_view(),
    {
        EuclideanBassPattern { note_pattern: pattern, ..self }
    }

    /// The voice.
    pub fn voice(&self) -> (r: BassVoice)
        ensures
            r == self.voice_view(),
    {
        self.voice
    }

    /// The number of steps in a bar.
    pub fn steps(&self) -> (r: usize)
        ensures
            r == self.steps_view(),
    {
        self.steps
    }

    /// The number of hits.
    pub fn hits(&self) -> (r: usize)
        ensures
            r == self.hits_view(),
    {
        self.hits
    }

    /// The velocity of each note.
    pub fn velocity(&self) -> (r: u8)
        ensures
            r == self.velocity_view(),
    {
        self.velocity
    }

    /// The number of words in the note pattern.
    pub fn note_pattern_len(&self) -> (r: usize)
        ensures
            r == self.note_pattern_view().len(),
    {
        self.note_pattern.len()
    }

    /// The steps of one bar: `true` where the bass sounds.
    pub fn step_pattern(&self) -> (r: Vec<bool>)
        ensures
            r@ == euclidean_steps(self.steps_view(), self.hits_view(), self.rotation_view()),
    {
        euclidean_track(self.steps, self.hits, self.rotation)
    }

    /// The note played at a step over a chord, in octave 2: the step picks
    /// its word from the note pattern cyclically.
    pub fn note_at_step(&self, step: usize, chord: &Chord) -> (r: Note)
        requires
            self.note_pattern_view().len() > 0,
        ensures
            r == bass_note_of(
                self.note_pattern_view()[step as int % self.note_pattern_view().len() as int],
                *chord,
                2,
            ),
    {
        let i = step % self.note_pattern.len();
        assert(self.note_pattern_view()[i as int] == self.note_pattern@[i as int]@);
        bass_note(self.note_pattern[i].as_str(), chord, 2)
    }
}

} // verus!
