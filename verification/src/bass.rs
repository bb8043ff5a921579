//! Bass line strategies, reading their names, and the notes each plays.

use vstd::prelude::*;

use crate::core_types::{pitch_named, Chord, Note, PitchClass};
use crate::melody::{lemma_three_tones, midi_byte, tones};
use crate::text::{
    chars_eq_str, chars_of, chars_start_with, has_prefix, lowercase, split_on, split_pieces,
    str_views, unicode_lowercase, unicode_uppercase, uppercase,
};

verus! {

/// Strategies for bass lines.
#[derive(Debug, Clone, Copy, PartialEq, Eq)]
pub enum BassStrategy {
    /// Follow the root of each chord.
    Root,
    /// Walking bass line with passing tones.
    Walking,
    /// Pedal point: sustain a single pitch.
    Pedal(PitchClass),
    /// Rhythmic bass following the kick pattern.
    Rhythmic,
    /// Independent melodic counterpoint.
    Counterpoint,
    /// Alternate between root and fifth.
    RootFifth,
}

/// The strategy a lower-case name stands for. A name starting with "pedal"
/// is a pedal: on the pitch its second `_` piece names once upper-cased,
/// on C otherwise. Unknown names follow the root.
pub open spec fn bass_strategy_named(s: Seq<char>) -> BassStrategy {
    if has_prefix(s, "pedal"@) {
        let parts = split_pieces(s, '_');
        if parts.len() > 1 && pitch_named(unicode_uppercase(parts[1])) is Some {
            BassStrategy::Pedal(pitch_named(unicode_uppercase(parts[1])).unwrap())
        } else {
            BassStrategy::Pedal(PitchClass::C)
        }
    } else if s == "walking"@ {
        BassStrategy::Walking
    } else if s == "rhythmic"@ {
        BassStrategy::Rhythmic
    } else if s == "counterpoint"@ {
        BassStrategy::Counterpoint
    } else if s == "root_fifth"@ {
        BassStrategy::RootFifth
    } else {
        BassStrategy::Root
    }
}

impl<'a> vstd::std_specs::convert::FromSpecImpl<&'a str> for BassStrategy {
    open spec fn obeys_from_spec() -> bool {
        true
    }

    open spec fn from_spec(v: &'a str) -> BassStrategy {
        bass_strategy_named(unicode_lowercase(v@))
    }
}

impl<'a> From<&'a str> for BassStrategy {
    /// Read a bass strategy name, ignoring case (see `bass_strategy_named`).
    fn from(value: &'a str) -> (r: Self)
        ensures
            r == bass_strategy_named(unicode_lowercase(value@)),
    {
        let lower = lowercase(value);
        let v = chars_of(lower.as_str());
        let s = v.as_slice();
        proof {
            reveal_strlit("pedal");
            reveal_strlit("root");
            reveal_strlit("walking");
            reveal_strlit("rhythmic");
            reveal_strlit("counterpoint");
            reveal_strlit("root_fifth");
        }
        if chars_start_with(s, "pedal") {
            let parts = split_on(lower.as_str(), '_');
            if parts.len() > 1 {
                assert(str_views(parts@)[1] == parts@[1]@);
                let upper = uppercase(parts[1]);
                if let Ok(pitch) = PitchClass::try_from(upper.as_str()) {
                    return BassStrategy::Pedal(pitch);
                }
            }
            return BassStrategy::Pedal(PitchClass::C);
        }
        if chars_eq_str(s, "root") {
            BassStrategy::Root
        } else if chars_eq_str(s, "walking") {
            BassStrategy::Walking
        } else if chars_eq_str(s, "rhythmic") {
            BassStrategy::Rhythmic
        } else if chars_eq_str(s, "counterpoint") {
            BassStrategy::Counterpoint
        } else if chars_eq_str(s, "root_fifth") {
            BassStrategy::RootFifth
        } else {
            BassStrategy::Root
        }
    }
}

/// The root of a chord in the given octave.
pub open spec fn root_note(chord: Chord, octave: i8) -> Note {
    Note { pitch_class: chord.root, octave }
}

/// The fifth above the root of a chord, in the given octave.
pub open spec fn fifth_note(chord: Chord, octave: i8) -> Note {
    Note { pitch_class: chord.root.shifted(7), octave }
}

/// A bass line that holds one note for `n` steps.
pub fn held_notes(note: Note, n: usize) -> (r: Vec<Note>)
    ensures
        r@ == Seq::new(n as nat, |i: int| note),
{
    let mut out: Vec<Note> = Vec::new();
    let mut i: usize = 0;
    while i < n
        invariant
            i <= n,
            out@ == Seq::new(i as nat, |k: int| note),
        decreases n - i,
    {
        out.push(note);
        i = i + 1;
        assert(out@ =~= Seq::new(i as nat, |k: int| note));
    }
    out
}

/// The root bass of a chord: its root, `n` times.
pub fn root_bass_notes(chord: Chord, octave: i8, n: usize) -> (r: Vec<Note>)
    ensures
        r@ == Seq::new(n as nat, |i: int| root_note(chord, octave)),
{
    held_notes(Note::new(chord.root, octave), n)
}

/// A pedal bass under a chord: the pedal pitch, `n` times.
pub fn pedal_bass_notes(pedal: PitchClass, octave: i8, n: usize) -> (r: Vec<Note>)
    ensures
        r@ == Seq::new(n as nat, |i: int| Note { pitch_class: pedal, octave }),
{
    held_notes(Note::new(pedal, octave), n)
}

/// Root and fifth in turn, `n` steps, starting on the root.
pub fn root_fifth_bass_notes(chord: Chord, octave: i8, n: usize) -> (r: Vec<Note>)
    ensures
        r@ == Seq::new(
            n as nat,
            |i: int|
                if i % 2 == 0 {
                    root_note(chord, octave)
                } else {
                    fifth_note(chord, octave)
                },
        ),
{
    let root = Note::new(chord.root, octave);
    let fifth = Note::new(chord.root.transpose(7), octave);
    let mut out: Vec<Note> = Vec::new();
    let mut i: usize = 0;
    while i < n
        invariant
            i <= n,
            root == root_note(chord, octave),
            fifth == fifth_note(chord, octave),
            out@ == Seq::new(
                i as nat,
                |k: int|
                    if k % 2 == 0 {
                        root_note(chord, octave)
                    } else {
                        fifth_note(chord, octave)
                    },
            ),
        decreases n - i,
    {
        out.push(if i % 2 == 0 {
            root
        } else {
            fifth
        });
        i = i + 1;
        assert(out@ =~= Seq::new(
            i as nat,
            |k: int|
                if k % 2 == 0 {
                    root_note(chord, octave)
                } else {
                    fifth_note(chord, octave)
                },
        ));
    }
    out
}

/// Step `i` of a rhythmic bass, by `i % 4` and the draw for that step:
/// the root; the root again or nothing; the fifth or the root; the root
/// or nothing.
pub open spec fn rhythmic_pick(root: Note, fifth: Note, i: nat, draw: bool) -> Option<Note> {
    let k = i % 4;
    if k == 0 {
        Some(root)
    } else if k == 1 {
        if draw {
            Some(root)
        } else {
            None
        }
    } else if k == 2 {
        Some(
            if draw {
                fifth
            } else {
                root
            },
        )
    } else {
        if draw {
            Some(root)
        } else {
            None
        }
    }
}

/// The notes of the first `n` steps of a rhythmic bass; steps that give
/// nothing are skipped.
pub open spec fn rhythmic_line(root: Note, fifth: Note, draws: Seq<bool>, n: nat) -> Seq<Note>
    decreases n,
{
    if n == 0 {
        seq![]
    } else {
        let prev = rhythmic_line(root, fifth, draws, (n - 1) as nat);
        match rhythmic_pick(root, fifth, (n - 1) as nat, draws[n - 1]) {
            Some(x) => prev.push(x),
            None => prev,
        }
    }
}

/// A rhythmic bass under a chord over `n` steps, with the draws the
/// program made for each step (the root repeated at 30%, the fifth at
/// 70%, the syncopation at 40%); skipped steps leave no note.
pub fn rhythmic_bass_notes(chord: Chord, octave: i8, n: usize, draws: &Vec<bool>) -> (r: Vec<Note>)
    requires
        draws@.len() >= n,
    ensures
        r@ == rhythmic_line(root_note(chord, octave), fifth_note(chord, octave), draws@, n as nat),
{
    let root = Note::new(chord.root, octave);
    let fifth = Note::new(chord.root.transpose(7), octave);
    let mut out: Vec<Note> = Vec::new();
    let mut i: usize = 0;
    while i < n
        invariant
            i <= n,
            draws@.len() >= n,
            root == root_note(chord, octave),
            fifth == fifth_note(chord, octave),
            out@ == rhythmic_line(root, fifth, draws@, i as nat),
        decreases n - i,
    {
        let k = i % 4;
        if k == 0 {
            out.push(root);
        } else if k == 1 {
            if draws[i] {
                out.push(root);
            }
        } else if k == 2 {
            out.push(if draws[i] { fifth } else { root });
        } else {
            if draws[i] {
                out.push(root);
            }
        }
        i = i + 1;
    }
    out
}

/// A MIDI number kept within the bass register, C1 to C6.
pub open spec fn clamp_bass(m: int) -> int {
    if m < 24 {
        24
    } else if m > 84 {
        84
    } else {
        m
    }
}

/// The note before a target, from the root: a semitone beside the target
/// (on the root's side) when drawn so, else a whole tone from the root
/// towards it.
pub open spec fn approach_note(root: Note, target: Note, from_target: bool) -> Note {
    let c = midi_byte(root);
    let t = midi_byte(target);
    Note::of_midi(
        clamp_bass(
            if from_target {
                if t > c {
                    t - 1
                } else {
                    t + 1
                }
            } else {
                if t > c {
                    c + 2
                } else {
                    c - 2
                }
            },
        ),
    )
}

/// A passing tone from the root towards the target, `step` semitones
/// away (up or down as the target lies; either way when they agree).
pub open spec fn passing_note(root: Note, target: Note, step: i16) -> Note {
    let c = midi_byte(root);
    let t = midi_byte(target);
    Note::of_midi(
        clamp_bass(
            if t < c {
                c - step
            } else {
                c + step
            },
        ),
    )
}

/// A drawn step the passing tone can take: 1 to 3 semitones, no further
/// than the target, or one semitone either way when root and target agree.
pub open spec fn passing_step_ok(root: Note, target: Note, step: i16) -> bool {
    let c = midi_byte(root);
    let t = midi_byte(target);
    if t == c {
        step == 1 || step == -1
    } else {
        let gap = if t > c {
            t - c
        } else {
            c - t
        };
        1 <= step <= 3 && step <= gap
    }
}

/// What the program drew for one step of a walking bass.
#[derive(Debug, Clone, Copy)]
pub struct WalkDraw {
    /// A chord tone rather than a passing tone.
    pub use_tone: bool,
    /// Which chord tone.
    pub pick: usize,
    /// How far the passing tone goes.
    pub step: i16,
    /// Whether the closing approach comes from beside the target.
    pub from_target: bool,
}

/// Step `i` (from 1) of a walking bass of `n` steps over a chord: the
/// last step approaches the target, the others play a chord tone or a
/// passing tone as drawn.
pub open spec fn walking_step(t: Seq<Note>, root: Note, target: Note, i: nat, n: nat, d: WalkDraw) -> Note {
    if i == n - 1 {
        approach_note(root, target, d.from_target)
    } else if d.use_tone {
        t[((d.pick as nat) % t.len()) as int]
    } else {
        passing_note(root, target, d.step)
    }
}

/// A walking bass over a chord towards the next root (`target`, the
/// chord's own root for the last chord): the root, then `n - 1` steps of
/// `walking_step` with the program's draws; at least the root. Root and
/// target must have MIDI numbers, and the drawn steps must be ones the
/// passing tone can take.
pub fn walking_bass_notes(chord: Chord, target: Note, octave: i8, n: usize, draws: &Vec<WalkDraw>) -> (r: Vec<Note>)
    requires
        octave < 127 || !chord.crosses_octave(),
        root_note(chord, octave).midi_computable(),
        target.midi_computable(),
        draws@.len() >= n,
        forall|i: int| 1 <= i < n ==> passing_step_ok(root_note(chord, octave), target, #[trigger] draws@[i].step),
    ensures
        r@.len() == if n == 0 {
            1
        } else {
            n as int
        },
        r@[0] == root_note(chord, octave),
        forall|i: int|
            1 <= i < n ==> r@[i] == walking_step(
                tones(chord, octave),
                root_note(chord, octave),
                target,
                i as nat,
                n as nat,
                draws@[i],
            ),
{
    let t = chord.notes(octave);
    proof {
        lemma_three_tones(chord, octave);
    }
    let root = Note::new(chord.root, octave);
    let c = root.to_midi() as i16;
    let tm = target.to_midi() as i16;
    let mut out: Vec<Note> = vec![root];
    let mut i: usize = 1;
    while i < n
        invariant
            1 <= i,
            i <= n || n == 0,
            n == 0 ==> i == 1,
            t@ == tones(chord, octave),
            t@.len() >= 3,
            root == root_note(chord, octave),
            c as int == midi_byte(root),
            tm as int == midi_byte(target),
            0 <= c < 256,
            0 <= tm < 256,
            draws@.len() >= n,
            forall|k: int| 1 <= k < n ==> passing_step_ok(root, target, #[trigger] draws@[k].step),
            out@.len() == i,
            out@[0] == root,
            forall|k: int|
                1 <= k < i ==> out@[k] == walking_step(t@, root, target, k as nat, n as nat, draws@[k]),
        decreases n - i,
    {
        let d = draws[i];
        assert(passing_step_ok(root, target, draws@[i as int].step));
        let m: i16 = if i == n - 1 {
            if d.from_target {
                if tm > c {
                    tm - 1
                } else {
                    tm + 1
                }
            } else {
                if tm > c {
                    c + 2
                } else {
                    c - 2
                }
            }
        } else if tm < c {
            c - d.step
        } else {
            c + d.step
        };
        let note = if i != n - 1 && d.use_tone {
            t[d.pick % t.len()]
        } else {
            let clamped: i16 = if m < 24 {
                24
            } else if m > 84 {
                84
            } else {
                m
            };
            Note::from_midi(clamped as u8)
        };
        out.push(note);
        i = i + 1;
    }
    out
}

/// The chord tones within a fifth (by MIDI number) of the current note, in
/// order.
pub open spec fn near_tones(t: Seq<Note>, current: Note) -> Seq<Note>
    decreases t.len(),
{
    if t.len() == 0 {
        seq![]
    } else {
        let d = midi_byte(t.last()) - midi_byte(current);
        let near = (if d < 0 {
            -d
        } else {
            d
        }) <= 7;
        if near {
            near_tones(t.drop_last(), current).push(t.last())
        } else {
            near_tones(t.drop_last(), current)
        }
    }
}

/// The next note of a counterpoint bass: a drawn chord tone within a
/// fifth of the current note, or any drawn chord tone when none is.
pub open spec fn counterpoint_step(t: Seq<Note>, current: Note, pick: nat) -> Note {
    let near = near_tones(t, current);
    if near.len() == 0 {
        t[(pick % t.len()) as int]
    } else {
        near[(pick % near.len()) as int]
    }
}

/// The first `n` notes of a counterpoint bass from `start`.
pub open spec fn counterpoint_walk(t: Seq<Note>, start: Note, picks: Seq<usize>, n: nat) -> Seq<Note>
    decreases n,
{
    if n == 0 {
        seq![]
    } else {
        let prev = counterpoint_walk(t, start, picks, (n - 1) as nat);
        let current = if n == 1 {
            start
        } else {
            prev.last()
        };
        prev.push(counterpoint_step(t, current, picks[n - 1] as nat))
    }
}

/// The tones within a fifth of a note.
fn near_tones_of(t: &Vec<Note>, current: Note) -> (r: Vec<Note>)
    requires
        current.midi_computable(),
        forall|i: int| 0 <= i < t@.len() ==> #[trigger] t@[i].midi_computable(),
    ensures
        r@ == near_tones(t@, current),
{
    let c = current.to_midi() as i16;
    let mut out: Vec<Note> = Vec::new();
    let mut i: usize = 0;
    while i < t.len()
        invariant
            i <= t@.len(),
            c as int == midi_byte(current),
            forall|k: int| 0 <= k < t@.len() ==> #[trigger] t@[k].midi_computable(),
            out@ == near_tones(t@.take(i as int), current),
        decreases t.len() - i,
    {
        assert(t@.take(i + 1).drop_last() =~= t@.take(i as int));
        let d = t[i].to_midi() as i16 - c;
        let a = if d < 0 {
            -d
        } else {
            d
        };
        if a <= 7 {
            out.push(t[i]);
        }
        i = i + 1;
    }
    assert(t@.take(i as int) =~= t@);
    out
}

/// A counterpoint bass under a chord: `n` notes from `start`, each a
/// chord tone near the one before (see `counterpoint_step`), as the
/// program drew them. The chord tones and the start must have MIDI
/// numbers.
pub fn counterpoint_bass_notes(chord: Chord, octave: i8, start: Note, n: usize, picks: &Vec<usize>) -> (r: Vec<
    Note,
>)
    requires
        octave < 127 || !chord.crosses_octave(),
        start.midi_computable(),
        forall|i: int|
            0 <= i < tones(chord, octave).len() ==> #[trigger] tones(chord, octave)[i].midi_computable(),
        picks@.len() >= n,
    ensures
        r@ == counterpoint_walk(tones(chord, octave), start, picks@, n as nat),
{
    let t = chord.notes(octave);
    proof {
        lemma_three_tones(chord, octave);
    }
    let mut out: Vec<Note> = Vec::new();
    let mut current = start;
    let mut i: usize = 0;
    while i < n
        invariant
            i <= n,
            t@ == tones(chord, octave),
            t@.len() >= 3,
            picks@.len() >= n,
            current.midi_computable(),
            forall|k: int| 0 <= k < t@.len() ==> #[trigger] t@[k].midi_computable(),
            out@ == counterpoint_walk(t@, start, picks@, i as nat),
            current == if i == 0 {
                start
            } else {
                out@.last()
            },
        decreases n - i,
    {
        let near = near_tones_of(&t, current);
        let next = if near.len() == 0 {
            t[picks[i] % t.len()]
        } else {
            near[picks[i] % near.len()]
        };
        proof {
            if near@.len() > 0 {
                let j = ((picks@[i as int] as nat) % near@.len()) as int;
                lemma_near_tones_are_tones(t@, current, j);
            }
        }
        out.push(next);
        current = next;
        i = i + 1;
    }
    out
}

/// Each near tone is one of the tones.
proof fn lemma_near_tones_are_tones(t: Seq<Note>, current: Note, j: int)
    requires
        0 <= j < near_tones(t, current).len(),
    ensures
        exists|k: int| 0 <= k < t.len() && t[k] == near_tones(t, current)[j],
    decreases t.len(),
{
    if t.len() > 0 {
        let prev = near_tones(t.drop_last(), current);
        if j < prev.len() {
            lemma_near_tones_are_tones(t.drop_last(), current, j);
            let k = choose|k: int| 0 <= k < t.drop_last().len() && t.drop_last()[k] == prev[j];
            assert(t[k] == near_tones(t, current)[j]);
        } else {
            assert(near_tones(t, current)[j] == t.last());
            assert(t[t.len() - 1] == t.last());
        }
    }
}

} // verus!
