//! Melody strategies and the notes each plays, the pitches of
//! call-and-response phrases, reading note names, and the self-harmony of a
//! pattern.

use vstd::prelude::*;

use crate::core_types::{pitch_named, Chord, Note, PitchClass};
use crate::errors::LobachevskyError;
use crate::text::{
    concat, first_index_of, lemma_first_index_at, push_char,
    chars_eq_str, chars_of, chars_start_with, has_prefix, lowercase, parse_i8, parse_usize,
    signed_parse, split_on, split_pieces, str_views, unicode_lowercase, unsigned_parse,
};

verus! {

/// Melody generation strategies.
#[derive(Debug, Clone, Copy, PartialEq, Eq)]
pub enum MelodyStrategy {
    /// Soaring lead synthesizer lines with filter sweeps.
    LeadSynth,
    /// Fast arpeggiated sequences.
    Arpeggiated,
    /// Punchy rhythmic chord stabs and accents.
    RhythmicStabs,
    /// Sustained textural pads.
    TexturalPads,
    /// Percussive pluck sequences.
    PluckSequence,
    /// Deep bass-register lead lines.
    BassLead,
    /// Markov chain generation: the order, and whether intervals are used.
    Markov(usize, bool),
}

/// The strategy a lower-case name stands for. A name starting with
/// "markov" is a Markov strategy: its second `_` piece, if a number, is
/// the order (2 otherwise), and a piece "intervals" or "interval" turns
/// intervals on. Unknown names give the lead synth.
pub open spec fn melody_strategy_named(s: Seq<char>) -> MelodyStrategy {
    if has_prefix(s, "markov"@) {
        let parts = split_pieces(s, '_');
        let order: usize = if parts.len() > 1 {
            match unsigned_parse(parts[1], usize::MAX as int) {
                Some(n) => n as usize,
                None => 2,
            }
        } else {
            2
        };
        MelodyStrategy::Markov(order, parts.contains("intervals"@) || parts.contains("interval"@))
    } else if s == "arpeggiated"@ {
        MelodyStrategy::Arpeggiated
    } else if s == "rhythmic_stabs"@ {
        MelodyStrategy::RhythmicStabs
    } else if s == "textural_pads"@ {
        MelodyStrategy::TexturalPads
    } else if s == "pluck_sequence"@ {
        MelodyStrategy::PluckSequence
    } else if s == "bass_lead"@ {
        MelodyStrategy::BassLead
    } else {
        MelodyStrategy::LeadSynth
    }
}

/// Whether any piece of a split is one of two words.
fn any_piece_is(parts: &Vec<&str>, a: &str, b: &str) -> (r: bool)
    ensures
        r == (str_views(parts@).contains(a@) || str_views(parts@).contains(b@)),
{
    let mut i: usize = 0;
    while i < parts.len()
        invariant
            i <= parts@.len(),
            forall|j: int| 0 <= j < i ==> parts@[j]@ != a@ && parts@[j]@ != b@,
        decreases parts.len() - i,
    {
        let piece = chars_of(parts[i]);
        if chars_eq_str(piece.as_slice(), a) || chars_eq_str(piece.as_slice(), b) {
            proof {
                let k = i as int;
                assert(str_views(parts@)[k] == parts@[k]@);
            }
            return true;
        }
        i = i + 1;
    }
    proof {
        assert forall|j: int| 0 <= j < str_views(parts@).len() implies str_views(parts@)[j] != a@
            && str_views(parts@)[j] != b@ by {
            assert(str_views(parts@)[j] == parts@[j]@);
        }
    }
    false
}

impl<'a> vstd::std_specs::convert::FromSpecImpl<&'a str> for MelodyStrategy {
    open spec fn obeys_from_spec() -> bool {
        true
    }

    open spec fn from_spec(v: &'a str) -> MelodyStrategy {
        melody_strategy_named(unicode_lowercase(v@))
    }
}

impl<'a> From<&'a str> for MelodyStrategy {
    /// Read a strategy name, ignoring case (see `melody_strategy_named`).
    fn from(value: &'a str) -> (r: Self)
        ensures
            r == melody_strategy_named(unicode_lowercase(value@)),
    {
        let lower = lowercase(value);
        let v = chars_of(lower.as_str());
        let s = v.as_slice();
        proof {
            reveal_strlit("markov");
            reveal_strlit("intervals");
            reveal_strlit("interval");
            reveal_strlit("lead_synth");
            reveal_strlit("arpeggiated");
            reveal_strlit("rhythmic_stabs");
            reveal_strlit("textural_pads");
            reveal_strlit("pluck_sequence");
            reveal_strlit("bass_lead");
        }
        if chars_start_with(s, "markov") {
            let parts = split_on(lower.as_str(), '_');
            let order: usize = if parts.len() > 1 {
                let digits = chars_of(parts[1]);
                assert(str_views(parts@)[1] == parts@[1]@);
                match parse_usize(digits.as_slice()) {
                    Some(n) => n,
                    None => 2,
                }
            } else {
                2
            };
            let intervals = any_piece_is(&parts, "intervals", "interval");
            return MelodyStrategy::Markov(order, intervals);
        }
        if chars_eq_str(s, "lead_synth") {
            MelodyStrategy::LeadSynth
        } else if chars_eq_str(s, "arpeggiated") {
            MelodyStrategy::Arpeggiated
        } else if chars_eq_str(s, "rhythmic_stabs") {
            MelodyStrategy::RhythmicStabs
        } else if chars_eq_str(s, "textural_pads") {
            MelodyStrategy::TexturalPads
        } else if chars_eq_str(s, "pluck_sequence") {
            MelodyStrategy::PluckSequence
        } else if chars_eq_str(s, "bass_lead") {
            MelodyStrategy::BassLead
        } else {
            MelodyStrategy::LeadSynth
        }
    }
}

/// Types of call-and-response.
#[derive(Debug, Clone, Copy, PartialEq, Eq)]
pub enum CallResponseType {
    /// The response repeats the call with variation.
    Echo,
    /// The response completes the harmonic or melodic idea.
    Complement,
    /// The response gives contrasting material.
    Contrast,
    /// The response transposes the call by an interval.
    Sequence(i8),
    /// The response inverts the melodic contour.
    Inversion,
}

/// The call-and-response type a lower-case name stands for. A name
/// starting with "sequence" is a sequence: by its second `_` piece when
/// that is an `i8`, by a fifth (5) otherwise. Unknown names give echo.
pub open spec fn call_response_named(s: Seq<char>) -> CallResponseType {
    if has_prefix(s, "sequence"@) {
        let parts = split_pieces(s, '_');
        if parts.len() > 1 && signed_parse(parts[1], -128, 127) is Some {
            CallResponseType::Sequence(signed_parse(parts[1], -128, 127).unwrap() as i8)
        } else {
            CallResponseType::Sequence(5)
        }
    } else if s == "complement"@ {
        CallResponseType::Complement
    } else if s == "contrast"@ {
        CallResponseType::Contrast
    } else if s == "inversion"@ {
        CallResponseType::Inversion
    } else {
        CallResponseType::Echo
    }
}

impl<'a> vstd::std_specs::convert::FromSpecImpl<&'a str> for CallResponseType {
    open spec fn obeys_from_spec() -> bool {
        true
    }

    open spec fn from_spec(v: &'a str) -> CallResponseType {
        call_response_named(unicode_lowercase(v@))
    }
}

impl<'a> From<&'a str> for CallResponseType {
    /// Read a call-and-response type, ignoring case (see
    /// `call_response_named`).
    fn from(value: &'a str) -> (r: Self)
        ensures
            r == call_response_named(unicode_lowercase(value@)),
    {
        let lower = lowercase(value);
        let v = chars_of(lower.as_str());
        let s = v.as_slice();
        proof {
            reveal_strlit("sequence");
            reveal_strlit("echo");
            reveal_strlit("complement");
            reveal_strlit("contrast");
            reveal_strlit("inversion");
        }
        if chars_start_with(s, "sequence") {
            let parts = split_on(lower.as_str(), '_');
            if parts.len() > 1 {
                let digits = chars_of(parts[1]);
                assert(str_views(parts@)[1] == parts@[1]@);
                if let Some(interval) = parse_i8(digits.as_slice()) {
                    return CallResponseType::Sequence(interval);
                }
            }
            return CallResponseType::Sequence(5);
        }
        if chars_eq_str(s, "echo") {
            CallResponseType::Echo
        } else if chars_eq_str(s, "complement") {
            CallResponseType::Complement
        } else if chars_eq_str(s, "contrast") {
            CallResponseType::Contrast
        } else if chars_eq_str(s, "inversion") {
            CallResponseType::Inversion
        } else {
            CallResponseType::Echo
        }
    }
}

/// How the voices of a canon sound together.
#[derive(Debug, Clone, Copy, PartialEq, Eq)]
pub enum SelfHarmony {
    /// Consonant harmonies (thirds, fifths, octaves).
    Consonant,
    /// Mild dissonances that resolve.
    Moderate,
    /// Strong dissonances or clashes.
    Dissonant,
    /// Single notes or unisons only.
    Neutral,
}

/// The self-harmony a lower-case name stands for; unknown names are
/// neutral.
pub open spec fn self_harmony_named(s: Seq<char>) -> SelfHarmony {
    if s == "consonant"@ {
        SelfHarmony::Consonant
    } else if s == "moderate"@ {
        SelfHarmony::Moderate
    } else if s == "dissonant"@ {
        SelfHarmony::Dissonant
    } else {
        SelfHarmony::Neutral
    }
}

impl<'a> vstd::std_specs::convert::FromSpecImpl<&'a str> for SelfHarmony {
    open spec fn obeys_from_spec() -> bool {
        true
    }

    open spec fn from_spec(v: &'a str) -> SelfHarmony {
        self_harmony_named(unicode_lowercase(v@))
    }
}

impl<'a> From<&'a str> for SelfHarmony {
    /// Read a self-harmony name, ignoring case.
    fn from(value: &'a str) -> (r: Self)
        ensures
            r == self_harmony_named(unicode_lowercase(value@)),
    {
        let lower = lowercase(value);
        let v = chars_of(lower.as_str());
        let s = v.as_slice();
        if chars_eq_str(s, "consonant") {
            SelfHarmony::Consonant
        } else if chars_eq_str(s, "moderate") {
            SelfHarmony::Moderate
        } else if chars_eq_str(s, "dissonant") {
            SelfHarmony::Dissonant
        } else {
            SelfHarmony::Neutral
        }
    }
}

/// Counts describing a trained Markov chain.
#[derive(Debug, Clone, Copy, PartialEq, Eq)]
pub struct MarkovStats {
    /// Order of the chain.
    pub order: usize,
    /// Number of distinct states.
    pub total_states: usize,
    /// Number of transitions seen.
    pub total_transitions: usize,
    /// Number of states that start a sequence.
    pub starting_states_count: usize,
}


/// The tones of a chord, from the given octave upwards.
pub open spec fn tones(chord: Chord, octave: i8) -> Seq<Note> {
    chord.note_seq(octave)
}

/// The same pitch an octave up.
pub open spec fn raised(n: Note) -> Note {
    Note { pitch_class: n.pitch_class, octave: (n.octave + 1) as i8 }
}

/// The order in which an arpeggio visits the chord tones, by the chord's
/// place in the progression.
pub open spec fn arpeggio_order(chord_idx: nat) -> Seq<nat> {
    let k = chord_idx % 6;
    if k == 0 {
        seq![0nat, 1, 2, 1]
    } else if k == 1 {
        seq![0nat, 2, 1, 2]
    } else if k == 2 {
        seq![2nat, 1, 0, 1]
    } else if k == 3 {
        seq![0nat, 1, 2, 0]
    } else if k == 4 {
        seq![1nat, 0, 2, 1]
    } else {
        seq![0nat, 2, 0, 1]
    }
}

/// The chord tone an arpeggio plays at step `i`, before any octave lift.
pub open spec fn arpeggio_base(t: Seq<Note>, chord_idx: nat, i: nat) -> Note {
    t[(arpeggio_order(chord_idx)[(i % 4) as int] % t.len()) as int]
}

/// Step `i` of an arpeggio: the second half of every eight steps is an
/// octave up.
pub open spec fn arpeggio_note(t: Seq<Note>, chord_idx: nat, i: nat) -> Note {
    if i % 8 >= 4 {
        raised(arpeggio_base(t, chord_idx, i))
    } else {
        arpeggio_base(t, chord_idx, i)
    }
}

/// The order of a pluck sequence over the chord tones.
pub open spec fn pluck_order(chord_idx: nat) -> Seq<nat> {
    let k = chord_idx % 5;
    if k == 0 {
        seq![0nat, 0, 1, 0]
    } else if k == 1 {
        seq![0nat, 2, 1, 2]
    } else if k == 2 {
        seq![1nat, 0, 1, 0]
    } else if k == 3 {
        seq![2nat, 1, 0, 1]
    } else {
        seq![0nat, 1, 2, 1]
    }
}

/// The chord tone a pluck sequence plays at step `i`, before any jump.
pub open spec fn pluck_base(t: Seq<Note>, chord_idx: nat, i: nat) -> Note {
    t[(pluck_order(chord_idx)[(i % 4) as int] % t.len()) as int]
}

/// Which steps of a stab pattern sound, by the chord's place.
pub open spec fn stab_order(chord_idx: nat) -> Seq<bool> {
    let k = chord_idx % 4;
    if k == 0 {
        seq![true, false, true, false]
    } else if k == 1 {
        seq![true, false, false, true]
    } else if k == 2 {
        seq![false, true, true, false]
    } else {
        seq![true, true, false, true]
    }
}

/// Step `i` of a stab line: a sounding step plays the picked chord tone,
/// a silent one holds the root.
pub open spec fn stab_note(t: Seq<Note>, chord_idx: nat, pick: nat, i: nat) -> Note {
    if stab_order(chord_idx)[(i % 4) as int] {
        t[(pick % t.len()) as int]
    } else {
        t[0]
    }
}

/// A chord always has at least three tones.
pub proof fn lemma_three_tones(chord: Chord, octave: i8)
    ensures
        tones(chord, octave).len() >= 3,
{
}

/// The chord tones as an arpeggio over `num_notes` steps, in the order
/// set by the chord's place `chord_idx`; the second half of every eight
/// steps is an octave up. Each lifted octave must fit an `i8`.
pub fn arpeggiated_line(chord: Chord, octave: i8, num_notes: usize, chord_idx: usize) -> (r: Vec<
    Note,
>)
    requires
        octave < 127 || !chord.crosses_octave(),
        forall|i: nat|
            i < num_notes && i % 8 >= 4 ==> #[trigger] arpeggio_base(
                tones(chord, octave),
                chord_idx as nat,
                i,
            ).octave < 127,
    ensures
        r@.len() == num_notes,
        forall|i: int|
            0 <= i < num_notes ==> r@[i] == arpeggio_note(
                tones(chord, octave),
                chord_idx as nat,
                i as nat,
            ),
{
    let t = chord.notes(octave);
    proof {
        lemma_three_tones(chord, octave);
    }
    let order: [usize; 4] = match chord_idx % 6 {
        0 => [0, 1, 2, 1],
        1 => [0, 2, 1, 2],
        2 => [2, 1, 0, 1],
        3 => [0, 1, 2, 0],
        4 => [1, 0, 2, 1],
        _ => [0, 2, 0, 1],
    };
    assert(forall|j: int| 0 <= j < 4 ==> order@[j] as nat == arpeggio_order(chord_idx as nat)[j]);
    let mut melody: Vec<Note> = Vec::new();
    let mut i: usize = 0;
    while i < num_notes
        invariant
            i <= num_notes,
            t@ == tones(chord, octave),
            t@.len() >= 3,
            forall|j: int| 0 <= j < 4 ==> order@[j] as nat == arpeggio_order(chord_idx as nat)[j],
            forall|k: nat|
                k < num_notes && k % 8 >= 4 ==> #[trigger] arpeggio_base(
                    tones(chord, octave),
                    chord_idx as nat,
                    k,
                ).octave < 127,
            melody@.len() == i,
            forall|j: int|
                0 <= j < i ==> melody@[j] == arpeggio_note(t@, chord_idx as nat, j as nat),
        decreases num_notes - i,
    {
        let base = t[order[i % 4] % t.len()];
        assert(base == arpeggio_base(t@, chord_idx as nat, i as nat));
        let note = if i % 8 >= 4 {
            Note::new(base.pitch_class, base.octave + 1)
        } else {
            base
        };
        melody.push(note);
        i = i + 1;
    }
    melody
}

/// A pad: the first three tones of the chord, held together.
pub fn textural_pad(chord: Chord, octave: i8) -> (r: Vec<Note>)
    requires
        octave < 127 || !chord.crosses_octave(),
    ensures
        r@ == tones(chord, octave).take(3),
{
    let t = chord.notes(octave);
    proof {
        lemma_three_tones(chord, octave);
    }
    let pad = vec![t[0], t[1], t[2]];
    assert(pad@ =~= t@.take(3));
    pad
}

/// A pluck sequence over `num_notes` steps, in the order set by the
/// chord's place; step `i` jumps an octave up when `jumps[i]` is set (the
/// program draws these at random). Each jumped octave must fit an `i8`.
pub fn pluck_line(
    chord: Chord,
    octave: i8,
    num_notes: usize,
    chord_idx: usize,
    jumps: &Vec<bool>,
) -> (r: Vec<Note>)
    requires
        octave < 127 || !chord.crosses_octave(),
        jumps@.len() >= num_notes,
        forall|i: nat|
            i < num_notes && jumps@[i as int] ==> #[trigger] pluck_base(
                tones(chord, octave),
                chord_idx as nat,
                i,
            ).octave < 127,
    ensures
        r@.len() == num_notes,
        forall|i: int|
            0 <= i < num_notes ==> r@[i] == if jumps@[i] {
                raised(pluck_base(tones(chord, octave), chord_idx as nat, i as nat))
            } else {
                pluck_base(tones(chord, octave), chord_idx as nat, i as nat)
            },
{
    let t = chord.notes(octave);
    proof {
        lemma_three_tones(chord, octave);
    }
    let order: [usize; 4] = match chord_idx % 5 {
        0 => [0, 0, 1, 0],
        1 => [0, 2, 1, 2],
        2 => [1, 0, 1, 0],
        3 => [2, 1, 0, 1],
        _ => [0, 1, 2, 1],
    };
    assert(forall|j: int| 0 <= j < 4 ==> order@[j] as nat == pluck_order(chord_idx as nat)[j]);
    let mut melody: Vec<Note> = Vec::new();
    let mut i: usize = 0;
    while i < num_notes
        invariant
            i <= num_notes,
            t@ == tones(chord, octave),
            t@.len() >= 3,
            jumps@.len() >= num_notes,
            forall|j: int| 0 <= j < 4 ==> order@[j] as nat == pluck_order(chord_idx as nat)[j],
            forall|k: nat|
                k < num_notes && jumps@[k as int] ==> #[trigger] pluck_base(
                    tones(chord, octave),
                    chord_idx as nat,
                    k,
                ).octave < 127,
            melody@.len() == i,
            forall|j: int|
                0 <= j < i ==> melody@[j] == if jumps@[j] {
                    raised(pluck_base(t@, chord_idx as nat, j as nat))
                } else {
                    pluck_base(t@, chord_idx as nat, j as nat)
                },
        decreases num_notes - i,
    {
        let base = t[order[i % 4] % t.len()];
        assert(base == pluck_base(t@, chord_idx as nat, i as nat));
        let note = if jumps[i] {
            Note::new(base.pitch_class, base.octave + 1)
        } else {
            base
        };
        melody.push(note);
        i = i + 1;
    }
    melody
}

/// A stab line over `num_notes` steps: on the sounding steps of the
/// pattern set by the chord's place, the chord tone `picks[i]` (the
/// program draws these, the root most often); elsewhere the root.
pub fn stab_line(
    chord: Chord,
    octave: i8,
    num_notes: usize,
    chord_idx: usize,
    picks: &Vec<usize>,
) -> (r: Vec<Note>)
    requires
        octave < 127 || !chord.crosses_octave(),
        picks@.len() >= num_notes,
    ensures
        r@.len() == num_notes,
        forall|i: int|
            0 <= i < num_notes ==> r@[i] == stab_note(
                tones(chord, octave),
                chord_idx as nat,
                picks@[i] as nat,
                i as nat,
            ),
{
    let t = chord.notes(octave);
    proof {
        lemma_three_tones(chord, octave);
    }
    let pattern: [bool; 4] = match chord_idx % 4 {
        0 => [true, false, true, false],
        1 => [true, false, false, true],
        2 => [false, true, true, false],
        _ => [true, true, false, true],
    };
    assert(forall|j: int| 0 <= j < 4 ==> pattern@[j] == stab_order(chord_idx as nat)[j]);
    let mut melody: Vec<Note> = Vec::new();
    let mut i: usize = 0;
    while i < num_notes
        invariant
            i <= num_notes,
            t@ == tones(chord, octave),
            t@.len() >= 3,
            picks@.len() >= num_notes,
            forall|j: int| 0 <= j < 4 ==> pattern@[j] == stab_order(chord_idx as nat)[j],
            melody@.len() == i,
            forall|j: int|
                0 <= j < i ==> melody@[j] == stab_note(
                    t@,
                    chord_idx as nat,
                    picks@[j] as nat,
                    j as nat,
                ),
        decreases num_notes - i,
    {
        let note = if pattern[i % 4] {
            t[picks[i] % t.len()]
        } else {
            t[0]
        };
        melody.push(note);
        i = i + 1;
    }
    melody
}

/// A note moved by some semitones through its MIDI number, as
/// `Note::transpose` moves it.
pub open spec fn moved(n: Note, semitones: int) -> Note {
    Note::of_midi((n.midi_value() + semitones) % 256)
}

/// Whether `Note::transpose` can move a note by some semitones.
pub open spec fn movable(n: Note, semitones: int) -> bool {
    n.midi_computable() && -128 <= n.midi_value() + semitones <= 127
}

/// The leap a lead line tries for a draw from 0 to 4: down a fifth, down
/// a minor third, up a second, up a major third, up a fifth.
pub open spec fn lead_interval(d: u8) -> int {
    if d == 0 {
        -7
    } else if d == 1 {
        -3
    } else if d == 2 {
        2
    } else if d == 3 {
        4
    } else {
        7
    }
}

/// Step `i` of a lead line after `prev`: every fourth step a drawn chord
/// tone; otherwise the drawn leap, kept when it lands in octaves 4 to 7,
/// else a drawn chord tone.
pub open spec fn lead_step(t: Seq<Note>, prev: Note, leap: u8, pick: nat, i: nat) -> Note {
    if i % 4 == 0 {
        t[(pick % t.len()) as int]
    } else {
        let candidate = moved(prev, lead_interval(leap));
        if 4 <= candidate.octave <= 7 {
            candidate
        } else {
            t[(pick % t.len()) as int]
        }
    }
}

/// The first `n` notes of a lead line: the root, then one step at a time.
pub open spec fn lead_walk(t: Seq<Note>, leaps: Seq<u8>, picks: Seq<usize>, n: nat) -> Seq<Note>
    decreases n,
{
    if n == 0 {
        seq![]
    } else if n == 1 {
        seq![t[0]]
    } else {
        let prev = lead_walk(t, leaps, picks, (n - 1) as nat);
        prev.push(lead_step(t, prev.last(), leaps[n - 1], picks[n - 1] as nat, (n - 1) as nat))
    }
}

/// A lead line over a chord: the root, then `num_notes - 1` steps of
/// `lead_step`, with the leaps and the chord tones the program drew at
/// random (`leaps[i]` from 0 to 4, `picks[i]` any). A line always has at
/// least the root. Each leap taken must be one `Note::transpose` can make.
pub fn lead_line(
    chord: Chord,
    octave: i8,
    num_notes: usize,
    leaps: &Vec<u8>,
    picks: &Vec<usize>,
) -> (r: Vec<Note>)
    requires
        octave < 127 || !chord.crosses_octave(),
        leaps@.len() >= num_notes,
        picks@.len() >= num_notes,
        forall|i: nat|
            1 <= i < num_notes && i % 4 != 0 ==> movable(
                #[trigger] lead_walk(tones(chord, octave), leaps@, picks@, i).last(),
                lead_interval(leaps@[i as int]),
            ),
    ensures
        r@ == lead_walk(
            tones(chord, octave),
            leaps@,
            picks@,
            if num_notes == 0 {
                1
            } else {
                num_notes as nat
            },
        ),
{
    let t = chord.notes(octave);
    proof {
        lemma_three_tones(chord, octave);
    }
    let mut current = t[0];
    let mut melody: Vec<Note> = vec![current];
    assert(melody@ =~= lead_walk(t@, leaps@, picks@, 1));
    let mut i: usize = 1;
    while i < num_notes
        invariant
            1 <= i,
            i <= num_notes || num_notes == 0,
            num_notes == 0 ==> i == 1,
            t@ == tones(chord, octave),
            t@.len() >= 3,
            leaps@.len() >= num_notes,
            picks@.len() >= num_notes,
            forall|k: nat|
                1 <= k < num_notes && k % 4 != 0 ==> movable(
                    #[trigger] lead_walk(tones(chord, octave), leaps@, picks@, k).last(),
                    lead_interval(leaps@[k as int]),
                ),
            melody@ == lead_walk(t@, leaps@, picks@, i as nat),
            current == melody@.last(),
        decreases num_notes - i,
    {
        let chosen = t[picks[i] % t.len()];
        let next = if i % 4 == 0 {
            chosen
        } else {
            let leap: i8 = match leaps[i] {
                0 => -7,
                1 => -3,
                2 => 2,
                3 => 4,
                _ => 7,
            };
            assert(leap as int == lead_interval(leaps@[i as int]));
            assert(movable(lead_walk(t@, leaps@, picks@, i as nat).last(), leap as int));
            let candidate = current.transpose(leap);
            if candidate.octave >= 4 && candidate.octave <= 7 {
                candidate
            } else {
                chosen
            }
        };
        melody.push(next);
        current = next;
        i = i + 1;
    }
    melody
}

/// The register of a bass line: two octaves down, but not below octave 1.
pub open spec fn bass_register(octave: i8) -> i8 {
    if octave - 2 > 1 {
        (octave - 2) as i8
    } else {
        1
    }
}

/// Step `i` of a bass line after `prev`, by `(i + chord_idx) % 6`: the
/// root, the fifth, the chord's third tone, the root, the fifth, then a
/// semitone up or down (as drawn).
pub open spec fn bass_step(t: Seq<Note>, fifth: Note, prev: Note, up: bool, chord_idx: nat, i: nat) -> Note {
    let k = (i + chord_idx) % 6;
    if k == 0 || k == 3 {
        t[0]
    } else if k == 1 || k == 4 {
        fifth
    } else if k == 2 {
        t[2]
    } else {
        moved(prev, if up { 1 } else { -1 })
    }
}

/// The first `n` notes of a bass line: the root, then one step at a time.
pub open spec fn bass_walk(t: Seq<Note>, fifth: Note, ups: Seq<bool>, chord_idx: nat, n: nat) -> Seq<
    Note,
>
    decreases n,
{
    if n == 0 {
        seq![]
    } else if n == 1 {
        seq![t[0]]
    } else {
        let prev = bass_walk(t, fifth, ups, chord_idx, (n - 1) as nat);
        prev.push(bass_step(t, fifth, prev.last(), ups[n - 1], chord_idx, (n - 1) as nat))
    }
}

/// The fifth above the root, in the bass register.
pub open spec fn bass_fifth(chord: Chord, octave: i8) -> Note {
    Note { pitch_class: chord.root.shifted(7), octave: bass_register(octave) }
}

/// A bass lead line: the root in the bass register, then `num_notes - 1`
/// steps of `bass_step`, moving by a semitone up where `ups[i]` is set and
/// down elsewhere (the program draws these). A line always has at least
/// the root. Each semitone move must be one `Note::transpose` can make.
pub fn bass_lead_line(
    chord: Chord,
    octave: i8,
    num_notes: usize,
    chord_idx: usize,
    ups: &Vec<bool>,
) -> (r: Vec<Note>)
    requires
        octave >= -126,
        chord_idx + num_notes <= usize::MAX,
        ups@.len() >= num_notes,
        forall|i: nat|
            1 <= i < num_notes && (i + chord_idx) % 6 == 5 ==> movable(
                #[trigger] bass_walk(
                    tones(chord, bass_register(octave)),
                    bass_fifth(chord, octave),
                    ups@,
                    chord_idx as nat,
                    i,
                ).last(),
                if ups@[i as int] {
                    1
                } else {
                    -1
                },
            ),
    ensures
        r@ == bass_walk(
            tones(chord, bass_register(octave)),
            bass_fifth(chord, octave),
            ups@,
            chord_idx as nat,
            if num_notes == 0 {
                1
            } else {
                num_notes as nat
            },
        ),
{
    let lowered: i8 = octave - 2;
    let register: i8 = if lowered > 1 {
        lowered
    } else {
        1
    };
    let t = chord.notes(register);
    proof {
        lemma_three_tones(chord, register);
    }
    let fifth = Note::new(chord.root.transpose(7), register);
    let ghost tv = tones(chord, bass_register(octave));
    let ghost f = bass_fifth(chord, octave);
    let mut current = t[0];
    let mut melody: Vec<Note> = vec![current];
    assert(melody@ =~= bass_walk(tv, f, ups@, chord_idx as nat, 1));
    let mut i: usize = 1;
    while i < num_notes
        invariant
            1 <= i,
            i <= num_notes || num_notes == 0,
            num_notes == 0 ==> i == 1,
            chord_idx + num_notes <= usize::MAX,
            t@ == tv,
            tv == tones(chord, bass_register(octave)),
            f == bass_fifth(chord, octave),
            fifth == f,
            t@.len() >= 3,
            ups@.len() >= num_notes,
            forall|k: nat|
                1 <= k < num_notes && (k + chord_idx) % 6 == 5 ==> movable(
                    #[trigger] bass_walk(tv, f, ups@, chord_idx as nat, k).last(),
                    if ups@[k as int] {
                        1
                    } else {
                        -1
                    },
                ),
            melody@ == bass_walk(tv, f, ups@, chord_idx as nat, i as nat),
            current == melody@.last(),
        decreases num_notes - i,
    {
        let k = (i + chord_idx) % 6;
        let next = if k == 0 || k == 3 {
            t[0]
        } else if k == 1 || k == 4 {
            fifth
        } else if k == 2 {
            t[2]
        } else {
            let step: i8 = if ups[i] {
                1
            } else {
                -1
            };
            assert(movable(bass_walk(tv, f, ups@, chord_idx as nat, i as nat).last(), step as int));
            current.transpose(step)
        };
        melody.push(next);
        current = next;
        i = i + 1;
    }
    melody
}

/// A note name split into pitch and octave: at the first `#` (kept with
/// the pitch), else at the first `b` (likewise), else after the first
/// character.
pub open spec fn note_parts(s: Seq<char>) -> (Seq<char>, Seq<char>) {
    if s.contains('#') {
        let k = first_index_of(s, '#') as int;
        (s.take(k).push('#'), s.skip(k + 1))
    } else if s.contains('b') {
        let k = first_index_of(s, 'b') as int;
        (s.take(k).push('b'), s.skip(k + 1))
    } else {
        (s.take(1), s.skip(1))
    }
}

/// What reading a note name gives: the note when its pitch and its octave
/// (a signed number that fits an `i8`) read; else an `InvalidPitch` error
/// with the pitch part, or a `ParseError` naming the octave part.
pub open spec fn note_parse_ok(s: Seq<char>, r: Result<Note, LobachevskyError>) -> bool {
    let pitch = note_parts(s).0;
    let octave = note_parts(s).1;
    match pitch_named(pitch) {
        None => r matches Err(LobachevskyError::InvalidPitch { input }) && input@ == pitch,
        Some(p) => match signed_parse(octave, -128, 127) {
            Some(o) => r == Ok::<Note, LobachevskyError>(Note { pitch_class: p, octave: o as i8 }),
            None => r matches Err(LobachevskyError::ParseError { message }) && message@
                == "Invalid octave: "@ + octave,
        },
    }
}

/// The position of the first `c`, if there is one.
fn find_char(v: &[char], c: char) -> (r: Option<usize>)
    ensures
        match r {
            None => !v@.contains(c),
            Some(k) => k < v@.len() && v@[k as int] == c && k == first_index_of(v@, c),
        },
{
    let mut i: usize = 0;
    while i < v.len()
        invariant
            i <= v@.len(),
            forall|j: int| 0 <= j < i ==> v@[j] != c,
        decreases v.len() - i,
    {
        if v[i] == c {
            proof {
                lemma_first_index_at(v@, c, i as nat);
            }
            return Some(i);
        }
        i = i + 1;
    }
    None
}

/// A string of the given characters.
fn string_of(v: &[char]) -> (r: String)
    ensures
        r@ == v@,
{
    let mut out = String::new();
    let mut i: usize = 0;
    while i < v.len()
        invariant
            i <= v@.len(),
            out@ == v@.take(i as int),
        decreases v.len() - i,
    {
        push_char(&mut out, v[i]);
        i = i + 1;
        assert(out@ =~= v@.take(i as int));
    }
    assert(v@.take(i as int) =~= v@);
    out
}

/// Reads a note name such as `C4`, `F#4` or `Bb3`: a pitch, then a signed
/// octave. The name must not be empty, and without `#` or `b` it must
/// start with an ASCII character.
pub fn parse_note(note: &str) -> (r: Result<Note, LobachevskyError>)
    requires
        note@.len() > 0,
        note@.contains('#') || note@.contains('b') || (note@[0] as u32) < 128,
    ensures
        note_parse_ok(note@, r),
{
    let v = chars_of(note);
    let (pitch_chars, octave_chars): (Vec<char>, Vec<char>) = match find_char(v.as_slice(), '#') {
        Some(k) => {
            let mut p = slice_to_vec(v.as_slice(), 0, k);
            p.push('#');
            let o = slice_to_vec(v.as_slice(), k + 1, v.len());
            assert(p@ =~= v@.take(k as int).push('#'));
            assert(o@ =~= v@.skip(k + 1));
            (p, o)
        },
        None => match find_char(v.as_slice(), 'b') {
            Some(k) => {
                let mut p = slice_to_vec(v.as_slice(), 0, k);
                p.push('b');
                let o = slice_to_vec(v.as_slice(), k + 1, v.len());
                assert(p@ =~= v@.take(k as int).push('b'));
                assert(o@ =~= v@.skip(k + 1));
                (p, o)
            },
            None => {
                let p = slice_to_vec(v.as_slice(), 0, 1);
                let o = slice_to_vec(v.as_slice(), 1, v.len());
                assert(p@ =~= v@.take(1));
                assert(o@ =~= v@.skip(1));
                (p, o)
            },
        },
    };
    assert(pitch_chars@ == note_parts(note@).0);
    assert(octave_chars@ == note_parts(note@).1);
    let pitch_text = string_of(pitch_chars.as_slice());
    match PitchClass::parse(pitch_text.as_str()) {
        Err(e) => Err(e),
        Ok(p) => match parse_i8(octave_chars.as_slice()) {
            Some(o) => Ok(Note::new(p, o)),
            None => {
                let octave_text = string_of(octave_chars.as_slice());
                Err(LobachevskyError::ParseError { message: concat("Invalid octave: ", octave_text.as_str()) })
            },
        },
    }
}

/// The characters from `start` up to `end`.
fn slice_to_vec(v: &[char], start: usize, end: usize) -> (r: Vec<char>)
    requires
        start <= end <= v@.len(),
    ensures
        r@ == v@.subrange(start as int, end as int),
{
    let mut out: Vec<char> = Vec::new();
    let mut i: usize = start;
    while i < end
        invariant
            start <= i <= end <= v@.len(),
            out@ == v@.subrange(start as int, i as int),
        decreases end - i,
    {
        out.push(v[i]);
        i = i + 1;
        assert(out@ =~= v@.subrange(start as int, i as int));
    }
    out
}

/// The interval class of two notes, from their MIDI bytes: the distance
/// in semitones, reduced to within an octave.
pub open spec fn interval_class(a: Note, b: Note) -> int {
    let d = (b.midi_value() % 256) - (a.midi_value() % 256);
    (if d < 0 {
        -d
    } else {
        d
    }) % 12
}

/// Unison, thirds, fifth and sixths.
pub open spec fn is_consonant(ic: int) -> bool {
    ic == 0 || ic == 3 || ic == 4 || ic == 7 || ic == 8 || ic == 9
}

/// Seconds, tritone and sevenths.
pub open spec fn is_dissonant(ic: int) -> bool {
    ic == 1 || ic == 2 || ic == 6 || ic == 10 || ic == 11
}

/// Consonant and dissonant intervals from each note of `q` to `x`.
pub open spec fn counts_to(q: Seq<Note>, x: Note) -> (nat, nat)
    decreases q.len(),
{
    if q.len() == 0 {
        (0, 0)
    } else {
        let prev = counts_to(q.drop_last(), x);
        let ic = interval_class(q.last(), x);
        (
            if is_consonant(ic) {
                prev.0 + 1
            } else {
                prev.0
            },
            if is_dissonant(ic) {
                prev.1 + 1
            } else {
                prev.1
            },
        )
    }
}

/// Consonant and dissonant intervals over all pairs of notes.
pub open spec fn pair_counts(p: Seq<Note>) -> (nat, nat)
    decreases p.len(),
{
    if p.len() == 0 {
        (0, 0)
    } else {
        let prev = pair_counts(p.drop_last());
        let last = counts_to(p.drop_last(), p.last());
        (prev.0 + last.0, prev.1 + last.1)
    }
}

/// How a line sounds against itself: neutral with no notes or one pitch
/// only; else consonant when consonant pairs outnumber dissonant ones more
/// than twice, dissonant the other way round, moderate otherwise.
pub open spec fn self_harmony_spec(p: Seq<Note>) -> SelfHarmony {
    if p.len() == 0 || (forall|i: int| 0 <= i < p.len() ==> #[trigger] p[i] == p[0]) {
        SelfHarmony::Neutral
    } else {
        let c = pair_counts(p).0;
        let d = pair_counts(p).1;
        if c > d * 2 {
            SelfHarmony::Consonant
        } else if d > c * 2 {
            SelfHarmony::Dissonant
        } else {
            SelfHarmony::Moderate
        }
    }
}

/// At most one interval per earlier note.
pub proof fn lemma_counts_to_bound(q: Seq<Note>, x: Note)
    ensures
        counts_to(q, x).0 + counts_to(q, x).1 <= q.len(),
    decreases q.len(),
{
    if q.len() > 0 {
        lemma_counts_to_bound(q.drop_last(), x);
    }
}

/// At most one interval per pair.
pub proof fn lemma_pair_counts_bound(p: Seq<Note>)
    ensures
        pair_counts(p).0 + pair_counts(p).1 <= p.len() * p.len(),
    decreases p.len(),
{
    if p.len() > 0 {
        lemma_pair_counts_bound(p.drop_last());
        lemma_counts_to_bound(p.drop_last(), p.last());
        let n = p.len() as int;
        assert((n - 1) * (n - 1) + (n - 1) <= n * n) by (nonlinear_arith)
            requires
                n >= 1,
        ;
    }
}

/// Counting pairs note by note never goes past the count for the whole line.
proof fn lemma_pair_counts_prefix(p: Seq<Note>, j: int)
    requires
        0 <= j <= p.len(),
    ensures
        pair_counts(p.take(j)).0 <= pair_counts(p).0,
        pair_counts(p.take(j)).1 <= pair_counts(p).1,
    decreases p.len() - j,
{
    if j < p.len() {
        lemma_pair_counts_prefix(p, j + 1);
        assert(p.take(j + 1).drop_last() =~= p.take(j));
    } else {
        assert(p.take(j) =~= p);
    }
}

/// The counts of a line of pitches fit the arithmetic of the comparison:
/// neither count, nor twice the dissonant count, nor (where it is reached)
/// twice the consonant count passes `i32::MAX`.
pub open spec fn self_harmony_counts_fit(p: Seq<Note>) -> bool {
    let c = pair_counts(p).0;
    let d = pair_counts(p).1;
    &&& c <= i32::MAX
    &&& d * 2 <= i32::MAX
    &&& c <= d * 2 ==> c * 2 <= i32::MAX
}

/// How a line of pitches harmonizes with itself in canon; see
/// `self_harmony_spec`. Every pitch must have a MIDI number, and, when the
/// line has two different pitches, its pair counts must fit the arithmetic
/// (see `self_harmony_counts_fit`).
pub fn self_harmony_of(pitches: &[Note]) -> (r: SelfHarmony)
    requires
        forall|i: int| 0 <= i < pitches@.len() ==> #[trigger] pitches@[i].midi_computable(),
        !(forall|i: int| 0 <= i < pitches@.len() ==> #[trigger] pitches@[i] == pitches@[0])
            ==> self_harmony_counts_fit(pitches@),
    ensures
        r == self_harmony_spec(pitches@),
{
    if pitches.len() == 0 {
        return SelfHarmony::Neutral;
    }
    let first = pitches[0];
    let mut same = true;
    let mut k: usize = 1;
    while k < pitches.len()
        invariant
            1 <= k <= pitches@.len(),
            first == pitches@[0],
            same == (forall|i: int| 0 <= i < k ==> #[trigger] pitches@[i] == pitches@[0]),
        decreases pitches.len() - k,
    {
        if pitches[k] != first {
            same = false;
        }
        k = k + 1;
    }
    if same {
        return SelfHarmony::Neutral;
    }
    let mut consonant: u64 = 0;
    let mut dissonant: u64 = 0;
    let mut j: usize = 0;
    while j < pitches.len()
        invariant
            j <= pitches@.len(),
            self_harmony_counts_fit(pitches@),
            forall|i: int| 0 <= i < pitches@.len() ==> #[trigger] pitches@[i].midi_computable(),
            consonant == pair_counts(pitches@.take(j as int)).0,
            dissonant == pair_counts(pitches@.take(j as int)).1,
        decreases pitches.len() - j,
    {
        let ghost before = pitches@.take(j as int);
        let ghost x = pitches@[j as int];
        assert(pitches@.take(j + 1).drop_last() =~= before);
        proof {
            lemma_pair_counts_prefix(pitches@, j + 1);
        }
        let b = pitches[j].to_midi() as i32;
        let mut i: usize = 0;
        let mut c_here: u64 = 0;
        let mut d_here: u64 = 0;
        while i < j
            invariant
                i <= j < pitches@.len(),
                before == pitches@.take(j as int),
                x == pitches@[j as int],
                b as int == x.midi_value() % 256,
                forall|t: int| 0 <= t < pitches@.len() ==> #[trigger] pitches@[t].midi_computable(),
                c_here == counts_to(before.take(i as int), x).0,
                d_here == counts_to(before.take(i as int), x).1,
                c_here + d_here <= i,
            decreases j - i,
        {
            assert(before.take(i + 1).drop_last() =~= before.take(i as int));
            let a = pitches[i].to_midi() as i32;
            let diff = b - a;
            let ic = (if diff < 0 {
                -diff
            } else {
                diff
            }) % 12;
            assert(ic == interval_class(before.take(i + 1).last(), x));
            if ic == 0 || ic == 3 || ic == 4 || ic == 7 || ic == 8 || ic == 9 {
                c_here = c_here + 1;
            } else if ic == 1 || ic == 2 || ic == 6 || ic == 10 || ic == 11 {
                d_here = d_here + 1;
            }
            i = i + 1;
        }
        assert(before.take(j as int) =~= before);
        consonant = consonant + c_here;
        dissonant = dissonant + d_here;
        j = j + 1;
    }
    assert(pitches@.take(j as int) =~= pitches@);
    if consonant > dissonant * 2 {
        SelfHarmony::Consonant
    } else if dissonant > consonant * 2 {
        SelfHarmony::Dissonant
    } else {
        SelfHarmony::Moderate
    }
}

/// The MIDI byte of a note, as `Note::to_midi` gives it.
pub open spec fn midi_byte(n: Note) -> int {
    n.midi_value() % 256
}

/// A MIDI number kept within C1 to C8.
pub open spec fn clamp_register(m: int) -> int {
    if m < 24 {
        24
    } else if m > 108 {
        108
    } else {
        m
    }
}

/// The major scale's steps above the root.
pub open spec fn major_steps() -> Seq<int> {
    seq![0int, 2, 4, 5, 7, 9, 11]
}

/// The seven notes of the major scale on a chord's root, all in one
/// octave.
pub fn scale_notes(chord: Chord, octave: i8) -> (r: Vec<Note>)
    ensures
        r@ == Seq::new(
            7,
            |i: int| Note { pitch_class: chord.root.shifted(major_steps()[i]), octave },
        ),
{
    let steps: [i8; 7] = [0, 2, 4, 5, 7, 9, 11];
    assert(forall|j: int| 0 <= j < 7 ==> steps@[j] as int == major_steps()[j]);
    let mut out: Vec<Note> = Vec::new();
    let mut i: usize = 0;
    while i < 7
        invariant
            i <= 7,
            forall|j: int| 0 <= j < 7 ==> steps@[j] as int == major_steps()[j],
            out@ == Seq::new(
                i as nat,
                |k: int| Note { pitch_class: chord.root.shifted(major_steps()[k]), octave },
            ),
        decreases 7 - i,
    {
        out.push(Note::new(chord.root.transpose(steps[i]), octave));
        i = i + 1;
        assert(out@ =~= Seq::new(
            i as nat,
            |k: int| Note { pitch_class: chord.root.shifted(major_steps()[k]), octave },
        ));
    }
    out
}

/// A complementing response: the chord tones in turn, one per call note.
pub fn complement_pitches(chord: Chord, octave: i8, n: usize) -> (r: Vec<Note>)
    requires
        octave < 127 || !chord.crosses_octave(),
    ensures
        r@ == Seq::new(
            n as nat,
            |i: int| tones(chord, octave)[i % (tones(chord, octave).len() as int)],
        ),
{
    let t = chord.notes(octave);
    proof {
        lemma_three_tones(chord, octave);
    }
    let mut out: Vec<Note> = Vec::new();
    let mut i: usize = 0;
    while i < n
        invariant
            i <= n,
            t@ == tones(chord, octave),
            t@.len() >= 3,
            out@ == Seq::new(i as nat, |k: int| t@[k % (t@.len() as int)]),
        decreases n - i,
    {
        out.push(t[i % t.len()]);
        i = i + 1;
        assert(out@ =~= Seq::new(i as nat, |k: int| t@[k % (t@.len() as int)]));
    }
    out
}

/// A sequence response: each call note moved by the interval, kept within
/// C1 to C8. Every call note must have a MIDI number.
pub fn sequence_pitches(call: &[Note], interval: i8) -> (r: Vec<Note>)
    requires
        forall|i: int| 0 <= i < call@.len() ==> #[trigger] call@[i].midi_computable(),
    ensures
        r@ == Seq::new(
            call@.len(),
            |i: int| Note::of_midi(clamp_register(midi_byte(call@[i]) + interval)),
        ),
{
    let mut out: Vec<Note> = Vec::new();
    let mut i: usize = 0;
    while i < call.len()
        invariant
            i <= call@.len(),
            forall|k: int| 0 <= k < call@.len() ==> #[trigger] call@[k].midi_computable(),
            out@ == Seq::new(
                i as nat,
                |k: int| Note::of_midi(clamp_register(midi_byte(call@[k]) + interval)),
            ),
        decreases call.len() - i,
    {
        let m = call[i].to_midi() as i16 + interval as i16;
        let c: i16 = if m < 24 {
            24
        } else if m > 108 {
            108
        } else {
            m
        };
        out.push(Note::from_midi(c as u8));
        i = i + 1;
        assert(out@ =~= Seq::new(
            i as nat,
            |k: int| Note::of_midi(clamp_register(midi_byte(call@[k]) + interval)),
        ));
    }
    out
}

/// An inversion response: each call note mirrored around the first one,
/// kept within C1 to C8; nothing for an empty call. Every call note must
/// have a MIDI number.
pub fn inversion_pitches(call: &[Note]) -> (r: Vec<Note>)
    requires
        forall|i: int| 0 <= i < call@.len() ==> #[trigger] call@[i].midi_computable(),
    ensures
        r@ == Seq::new(
            call@.len(),
            |i: int|
                Note::of_midi(
                    clamp_register(midi_byte(call@[0]) - (midi_byte(call@[i]) - midi_byte(call@[0]))),
                ),
        ),
{
    let mut out: Vec<Note> = Vec::new();
    if call.len() == 0 {
        assert(out@ =~= Seq::new(
            call@.len(),
            |i: int|
                Note::of_midi(
                    clamp_register(midi_byte(call@[0]) - (midi_byte(call@[i]) - midi_byte(call@[0]))),
                ),
        ));
        return out;
    }
    let center = call[0].to_midi() as i16;
    let mut i: usize = 0;
    while i < call.len()
        invariant
            i <= call@.len(),
            call@.len() > 0,
            center as int == midi_byte(call@[0]),
            forall|k: int| 0 <= k < call@.len() ==> #[trigger] call@[k].midi_computable(),
            out@ == Seq::new(
                i as nat,
                |k: int|
                    Note::of_midi(
                        clamp_register(midi_byte(call@[0]) - (midi_byte(call@[k]) - midi_byte(call@[0]))),
                    ),
            ),
        decreases call.len() - i,
    {
        let interval = call[i].to_midi() as i16 - center;
        let m = center - interval;
        let c: i16 = if m < 24 {
            24
        } else if m > 108 {
            108
        } else {
            m
        };
        out.push(Note::from_midi(c as u8));
        i = i + 1;
        assert(out@ =~= Seq::new(
            i as nat,
            |k: int|
                Note::of_midi(
                    clamp_register(midi_byte(call@[0]) - (midi_byte(call@[k]) - midi_byte(call@[0]))),
                ),
        ));
    }
    out
}

/// Whether a note stands a third to a fifth away from another (by MIDI
/// distance), the range a contrasting answer picks from.
pub open spec fn contrasts(n: Note, call_note: Note) -> bool {
    let d = midi_byte(n) - midi_byte(call_note);
    3 <= (if d < 0 {
        -d
    } else {
        d
    }) <= 7
}

/// The notes of `s` that contrast with a call note, in order.
pub open spec fn contrasting(s: Seq<Note>, call_note: Note) -> Seq<Note>
    decreases s.len(),
{
    if s.len() == 0 {
        seq![]
    } else if contrasts(s.last(), call_note) {
        contrasting(s.drop_last(), call_note).push(s.last())
    } else {
        contrasting(s.drop_last(), call_note)
    }
}

/// The notes a contrasting answer may pick from: those of `candidates`
/// between a third and a fifth away from the call note. All notes must
/// have MIDI numbers.
pub fn contrast_candidates(candidates: &[Note], call_note: Note) -> (r: Vec<Note>)
    requires
        call_note.midi_computable(),
        forall|i: int| 0 <= i < candidates@.len() ==> #[trigger] candidates@[i].midi_computable(),
    ensures
        r@ == contrasting(candidates@, call_note),
{
    let c = call_note.to_midi() as i16;
    let mut out: Vec<Note> = Vec::new();
    let mut i: usize = 0;
    while i < candidates.len()
        invariant
            i <= candidates@.len(),
            c as int == midi_byte(call_note),
            forall|k: int| 0 <= k < candidates@.len() ==> #[trigger] candidates@[k].midi_computable(),
            out@ == contrasting(candidates@.take(i as int), call_note),
        decreases candidates.len() - i,
    {
        assert(candidates@.take(i + 1).drop_last() =~= candidates@.take(i as int));
        let d = candidates[i].to_midi() as i16 - c;
        let a = if d < 0 {
            -d
        } else {
            d
        };
        if a >= 3 && a <= 7 {
            out.push(candidates[i]);
        }
        i = i + 1;
    }
    assert(candidates@.take(i as int) =~= candidates@);
    out
}

} // verus!
