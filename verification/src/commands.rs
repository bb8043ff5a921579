//! What each exploration command plays, computed from its input; the
//! printing and the MIDI file belong to the program.

use vstd::prelude::*;

use crate::cli_inputs::{ExtendedInput, HexatonicInput, ModalInput, ProgressionInput};
use crate::composition::pattern_mode;
use crate::core_types::Chord;
use crate::generation::{
    cycle_pattern, walks_to_close, lemma_progression_same, progression_spec, HexatonicExplorer, ProgressionBuilder,
};
use crate::theory::{
    any_sequence, base_triad, chord_in, pattern_cycle_spec, lemma_same_transform_apply, lemma_same_transform_modal,
    lemma_same_transforms_index, modal_apply, modal_sequence, same_transform, same_transforms, scale_triads,
    ModalNeoRiemannian, NeoRiemannian, Transform, Transformable,
};

verus! {

/// The letter shown for a transformation.
pub open spec fn transform_label(t: Transform) -> &'static str {
    match t {
        Transform::P => "P",
        Transform::R => "R",
        Transform::L => "L",
        Transform::Compound(_) => "compound",
    }
}

/// The letter shown for a transformation.
pub fn transform_name(t: &Transform) -> (r: &'static str)
    ensures
        r == transform_label(*t),
{
    match t {
        Transform::P => "P",
        Transform::R => "R",
        Transform::L => "L",
        Transform::Compound(_) => "compound",
    }
}

/// The roman numeral shown for each degree of a mode.
pub open spec fn degree_label(i: int) -> &'static str {
    if i == 0 {
        "I"
    } else if i == 1 {
        "ii"
    } else if i == 2 {
        "iii"
    } else if i == 3 {
        "IV"
    } else if i == 4 {
        "V"
    } else if i == 5 {
        "vi"
    } else if i == 6 {
        "vii°"
    } else {
        "?"
    }
}

/// The roman numeral shown for a degree of a mode.
pub fn degree_name(i: usize) -> (r: &'static str)
    ensures
        r == degree_label(i as int),
{
    match i {
        0 => "I",
        1 => "ii",
        2 => "iii",
        3 => "IV",
        4 => "V",
        5 => "vi",
        6 => "vii°",
        _ => "?",
    }
}

/// A sequence four times over.
pub open spec fn four_times(c: Seq<Chord>) -> Seq<Chord> {
    c + c + c + c
}

/// The pattern repeated cyclically for `k` transformations; nothing when
/// the pattern is empty.
pub open spec fn cycled(ts: Seq<Transform>, k: nat) -> Seq<Transform> {
    if ts.len() == 0 {
        seq![]
    } else {
        Seq::new(k, |i: int| ts[i % (ts.len() as int)])
    }
}

/// The pattern's transformations taken in turn, over and over, `k` of
/// them; none when the pattern is empty. Each is a copy of the same
/// structure as the pattern's.
pub fn cycled_pattern(transforms: &Vec<Transform>, k: usize) -> (r: Vec<Transform>)
    ensures
        same_transforms(r@, cycled(transforms@, k as nat)),
{
    let mut out: Vec<Transform> = Vec::new();
    let n = transforms.len();
    if n == 0 {
        proof {
            lemma_same_transforms_index(out@, cycled(transforms@, k as nat));
        }
        return out;
    }
    let mut i: usize = 0;
    while i < k
        invariant
            n == transforms@.len(),
            n > 0,
            i <= k,
            out@.len() == i,
            forall|j: int| 0 <= j < i ==> #[trigger] same_transform(out@[j], transforms@[j % (n as int)]),
        decreases k - i,
    {
        out.push(transforms[i % n].clone());
        i = i + 1;
    }
    proof {
        let c = cycled(transforms@, k as nat);
        assert forall|j: int| 0 <= j < out@.len() implies #[trigger] same_transform(out@[j], c[j]) by {
            assert(same_transform(out@[j], transforms@[j % (n as int)]));
        }
        lemma_same_transforms_index(out@, c);
    }
    out
}

/// Lists of the same structure walk the same way inside a mode.
proof fn lemma_same_modal_sequence(valid: Seq<Chord>, c: Chord, x: Seq<Transform>, y: Seq<Transform>)
    requires
        same_transforms(x, y),
    ensures
        modal_sequence(valid, c, x) == modal_sequence(valid, c, y),
    decreases x.len(),
{
    if x.len() > 0 {
        lemma_same_transform_modal(valid, c, x[0], y[0]);
        if let Some(n) = modal_apply(valid, c, x[0]) {
            lemma_same_modal_sequence(valid, n, x.drop_first(), y.drop_first());
        }
    }
}

/// Lists of the same structure walk the same way over any chord.
proof fn lemma_same_chord_sequence(c: Chord, x: Seq<Transform>, y: Seq<Transform>)
    requires
        same_transforms(x, y),
    ensures
        any_sequence(c, x) == any_sequence(c, y),
    decreases x.len(),
{
    if x.len() > 0 {
        lemma_same_transform_apply(c, x[0], y[0]);
        lemma_same_transform_apply(base_triad(c), x[0], y[0]);
        if let Some(n) = c.basic_image(x[0]) {
            lemma_same_chord_sequence(n, x.drop_first(), y.drop_first());
        }
    }
}

impl ProgressionInput {
    /// The progression the command plays: the pattern walked from the start
    /// chord, returning to it when asked, inside the mode when both mode and
    /// tonic are given.
    pub fn progression(&self) -> (r: Vec<Chord>)
        ensures
            r@ == progression_spec(
                self.start_chord,
                self.transforms@,
                self.length as nat,
                self.return_to_start,
                pattern_mode(self.mode, self.tonic),
            ),
    {
        let mut builder = ProgressionBuilder::new().start(self.start_chord).pattern(
            self.transforms.as_slice(),
        ).length(self.length);
        if self.return_to_start {
            builder = builder.with_return();
        }
        if let (Some(mode), Some(tonic)) = (self.mode, self.tonic) {
            builder = builder.with_mode(mode, tonic);
        }
        let progression = builder.build();
        proof {
            lemma_progression_same(
                self.start_chord,
                builder.pattern_view(),
                self.transforms@,
                self.length as nat,
                builder.returns_view(),
                builder.mode_view(),
            );
        }
        progression
    }
}

impl HexatonicInput {
    /// The chords the command plays: the cycle from the start chord four
    /// times over, if the cycle closes.
    pub fn progression(&self) -> (r: Option<Vec<Chord>>)
        ensures
            match pattern_cycle_spec(self.start_chord, cycle_pattern(self.cycle), walks_to_close(self.cycle)) {
                Some(c) => r matches Some(v) && v@ == four_times(c),
                None => r is None,
            },
    {
        let explorer = HexatonicExplorer::new();
        match explorer.get_cycle(self.cycle, self.start_chord) {
            Some(chords) => {
                let mut full: Vec<Chord> = Vec::new();
                let mut k: usize = 0;
                while k < 4
                    invariant
                        k <= 4,
                        full@ == if k == 0 {
                            Seq::<Chord>::empty()
                        } else if k == 1 {
                            chords@
                        } else if k == 2 {
                            chords@ + chords@
                        } else if k == 3 {
                            chords@ + chords@ + chords@
                        } else {
                            four_times(chords@)
                        },
                    decreases 4 - k,
                {
                    let ghost before = full@;
                    let mut i: usize = 0;
                    while i < chords.len()
                        invariant
                            i <= chords@.len(),
                            full@ == before + chords@.take(i as int),
                        decreases chords.len() - i,
                    {
                        full.push(chords[i]);
                        i = i + 1;
                        assert(full@ =~= before + chords@.take(i as int));
                    }
                    assert(chords@.take(i as int) =~= chords@);
                    assert(before == Seq::<Chord>::empty() ==> before + chords@ =~= chords@);
                    k = k + 1;
                }
                Some(full)
            },
            None => None,
        }
    }
}

/// The result of planning a modal exploration.
pub struct ModalPlan {
    /// The chord the exploration starts from.
    pub start_chord: Chord,
    /// Whether the chord asked for (if any) is in the mode; when it is
    /// not, the first chord of the mode is used instead.
    pub start_in_mode: bool,
    /// The chords visited.
    pub progression: Vec<Chord>,
}

impl ModalInput {
    /// The modal exploration: from the start chord when it is in the mode,
    /// else from the mode's first chord, `length` transformations, the
    /// pattern's taken in turn over and over, applied inside the mode.
    pub fn plan(&self) -> (r: ModalPlan)
        ensures
            ({
                let valid = scale_triads((self.mode, self.tonic));
                let start = match self.start_chord {
                    Some(c) => if valid.contains(c) {
                        c
                    } else {
                        valid[0]
                    },
                    None => valid[0],
                };
                &&& r.start_chord == start
                &&& r.start_in_mode == match self.start_chord {
                    Some(c) => valid.contains(c),
                    None => true,
                }
                &&& r.progression@ == modal_sequence(valid, start, cycled(self.transforms@, self.length as nat))
            }),
    {
        let transformer = ModalNeoRiemannian::new(self.mode, self.tonic);
        let valid = transformer.valid_chords();
        let (start, in_mode) = match self.start_chord {
            Some(chord) => if chord_in(valid, chord) {
                (chord, true)
            } else {
                (valid[0], false)
            },
            None => (self.mode.triads(self.tonic)[0], true),
        };
        let steps = cycled_pattern(&self.transforms, self.length);
        let progression = transformer.apply_sequence(start, steps.as_slice());
        proof {
            lemma_same_modal_sequence(valid@, start, steps@, cycled(self.transforms@, self.length as nat));
        }
        ModalPlan { start_chord: start, start_in_mode: in_mode, progression }
    }
}

impl ExtendedInput {
    /// The extended-chord exploration: `length` chords from the start chord,
    /// the pattern's transformations applied in turn, over and over (seventh
    /// and suspended chords included); fewer when one does not apply or the
    /// pattern is empty, none for a length of zero.
    pub fn progression(&self) -> (r: Vec<Chord>)
        ensures
            r@ == if self.length == 0 {
                seq![]
            } else {
                any_sequence(self.start_chord, cycled(self.transforms@, (self.length - 1) as nat))
            },
    {
        if self.length == 0 {
            return Vec::new();
        }
        let transformer = NeoRiemannian::new();
        let steps = cycled_pattern(&self.transforms, self.length - 1);
        let r = transformer.apply_sequence_any(self.start_chord, steps.as_slice());
        proof {
            lemma_same_chord_sequence(self.start_chord, steps@, cycled(self.transforms@, (self.length - 1) as nat));
        }
        r
    }
}

} // verus!
