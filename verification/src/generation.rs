//! Building chord progressions from transformation patterns, walking
//! hexatonic cycles, and the notes of the simple melody generator.

use rand::Rng;

use vstd::prelude::*;

use crate::core_types::{lemma_of_midi_value, Chord, ChordQuality, Mode, Note, PitchClass};
use crate::theory::{
    copy_transforms, cycle_group_spec, hexatonic_spec, pattern_cycle_spec, modal_apply, modal_sequence, nr_apply,
    nr_sequence, same_transform, same_transforms, scale_triads, ModalNeoRiemannian,
    NeoRiemannian, Transform,
};

verus! {

/// A uniformly chosen index below `n`.
///
/// Calls `rand::Rng::random_range` on the thread's generator
/// (`rand::rng()`), which panics on an empty range: hence `n > 0`. The
/// contract claims only that the index is in range; which index comes back
/// is chance.
#[verifier::external_body]
pub(crate) fn random_index(n: usize) -> (r: usize)
    requires
        n > 0,
    ensures
        r < n,
{
    rand::rng().random_range(0..n)
}

/// One step of a transformer: free, or kept inside a mode on a tonic.
pub open spec fn engine_step(mode: Option<(Mode, PitchClass)>, c: Chord, t: Transform) -> Option<
    Chord,
> {
    match mode {
        None => nr_apply(c, t),
        Some(m) => modal_apply(scale_triads(m), c, t),
    }
}

/// The transformer that a progression uses.
pub enum TransformEngine {
    /// Transformations on all major and minor triads.
    Free(NeoRiemannian),
    /// Transformations kept inside a mode.
    Modal(ModalNeoRiemannian),
}

impl TransformEngine {
    /// The mode the transformer keeps to, if any.
    pub open spec fn constraint(&self) -> Option<(Mode, PitchClass)> {
        match self {
            TransformEngine::Free(_) => None,
            TransformEngine::Modal(m) => Some(m@),
        }
    }

    /// Apply one transformation.
    fn transform(&self, chord: Chord, transform: &Transform) -> (r: Option<Chord>)
        ensures
            r == engine_step(self.constraint(), chord, *transform),
    {
        match self {
            TransformEngine::Free(engine) => engine.transform(chord, transform),
            TransformEngine::Modal(engine) => engine.transform(chord, transform),
        }
    }

    /// Apply transformations one after another, collecting the chords.
    fn apply_sequence(&self, start: Chord, transforms: &[Transform]) -> (r: Vec<Chord>)
        ensures
            r@ == match self.constraint() {
                None => nr_sequence(start, transforms@),
                Some(m) => modal_sequence(scale_triads(m), start, transforms@),
            },
    {
        match self {
            TransformEngine::Free(engine) => engine.apply_sequence(start, transforms),
            TransformEngine::Modal(engine) => engine.apply_sequence(start, transforms),
        }
    }
}

/// The first `k + 1` chords of a progression: each step applies the next
/// transformation of the pattern (cyclically) and keeps the chord when the
/// transformation does not apply.
pub open spec fn progression_walk(
    start: Chord,
    pattern: Seq<Transform>,
    mode: Option<(Mode, PitchClass)>,
    k: nat,
) -> Seq<Chord>
    decreases k,
{
    if k == 0 {
        seq![start]
    } else {
        let w = progression_walk(start, pattern, mode, (k - 1) as nat);
        let t = pattern[(k - 1) % (pattern.len() as int)];
        w.push(
            match engine_step(mode, w.last(), t) {
                Some(n) => n,
                None => w.last(),
            },
        )
    }
}

/// The progression a builder makes: `length` chords. None for a length of
/// zero; `length` copies of the start without a pattern; otherwise the
/// walk, with room left for the start to come back at the end when asked.
pub open spec fn progression_spec(
    start: Chord,
    pattern: Seq<Transform>,
    length: nat,
    return_to_start: bool,
    mode: Option<(Mode, PitchClass)>,
) -> Seq<Chord> {
    if length == 0 {
        seq![]
    } else if pattern.len() == 0 {
        Seq::new(length, |i: int| start)
    } else {
        let target: int = if return_to_start {
            length - 1
        } else {
            length as int
        };
        let steps: nat = if target >= 1 {
            (target - 1) as nat
        } else {
            0
        };
        let w = progression_walk(start, pattern, mode, steps);
        if return_to_start && w.len() < length {
            w.push(start)
        } else {
            w
        }
    }
}

/// A walk of `k` steps holds `k + 1` chords, the first being the start.
pub proof fn lemma_progression_walk_len(
    start: Chord,
    pattern: Seq<Transform>,
    mode: Option<(Mode, PitchClass)>,
    k: nat,
)
    ensures
        progression_walk(start, pattern, mode, k).len() == k + 1,
        progression_walk(start, pattern, mode, k)[0] == start,
    decreases k,
{
    if k > 0 {
        lemma_progression_walk_len(start, pattern, mode, (k - 1) as nat);
    }
}

/// Each step of a walk applies the pattern's transformation at that step
/// (cyclically) to the chord before; a step that does not apply keeps it.
proof fn lemma_progression_walk_step(
    start: Chord,
    pattern: Seq<Transform>,
    mode: Option<(Mode, PitchClass)>,
    k: nat,
    i: int,
)
    requires
        pattern.len() > 0,
        0 <= i < k,
    ensures
        progression_walk(start, pattern, mode, k)[i + 1] == match engine_step(
            mode,
            progression_walk(start, pattern, mode, k)[i],
            pattern[i % (pattern.len() as int)],
        ) {
            Some(n) => n,
            None => progression_walk(start, pattern, mode, k)[i],
        },
    decreases k,
{
    lemma_progression_walk_len(start, pattern, mode, (k - 1) as nat);
    if i < k - 1 {
        lemma_progression_walk_step(start, pattern, mode, (k - 1) as nat, i);
    }
}

/// What a progression is, chord by chord: it starts on the start chord;
/// each following chord, up to the closing return when one is asked, is
/// the pattern's next transformation (taken in turn, cyclically) of the
/// chord before, inside the mode when there is one, and the chord before
/// itself when that transformation does not apply; a return ends on the
/// start chord.
pub proof fn lemma_progression_steps(
    start: Chord,
    pattern: Seq<Transform>,
    length: nat,
    return_to_start: bool,
    mode: Option<(Mode, PitchClass)>,
)
    requires
        pattern.len() > 0,
    ensures
        ({
            let r = progression_spec(start, pattern, length, return_to_start, mode);
            let walked: int = if return_to_start { length - 1 } else { length as int };
            &&& r.len() == length
            &&& length >= 1 ==> r[0] == start
            &&& forall|i: int|
                0 <= i && i + 1 < walked ==> #[trigger] r[i + 1] == match engine_step(
                    mode,
                    r[i],
                    pattern[i % (pattern.len() as int)],
                ) {
                    Some(n) => n,
                    None => r[i],
                }
            &&& return_to_start && length >= 2 ==> r[length - 1] == start
        }),
{
    if length >= 1 {
        let target: int = if return_to_start { length - 1 } else { length as int };
        let steps: nat = if target >= 1 { (target - 1) as nat } else { 0 };
        let w = progression_walk(start, pattern, mode, steps);
        lemma_progression_walk_len(start, pattern, mode, steps);
        let r = progression_spec(start, pattern, length, return_to_start, mode);
        assert forall|i: int| 0 <= i && i + 1 < target implies #[trigger] r[i + 1] == match engine_step(
            mode,
            r[i],
            pattern[i % (pattern.len() as int)],
        ) {
            Some(n) => n,
            None => r[i],
        } by {
            lemma_progression_walk_step(start, pattern, mode, steps, i);
            assert(r[i] == w[i] && r[i + 1] == w[i + 1]);
        }
    }
}

/// Patterns of the same structure make the same walk.
pub proof fn lemma_progression_walk_same(
    start: Chord,
    p: Seq<Transform>,
    q: Seq<Transform>,
    mode: Option<(Mode, PitchClass)>,
    k: nat,
)
    requires
        same_transforms(p, q),
        p.len() > 0,
    ensures
        progression_walk(start, p, mode, k) == progression_walk(start, q, mode, k),
    decreases k,
{
    if k > 0 {
        lemma_progression_walk_same(start, p, q, mode, (k - 1) as nat);
        crate::theory::lemma_same_transforms_index(p, q);
        let i = (k - 1) % (p.len() as int);
        assert(same_transform(p[i], q[i]));
        let w = progression_walk(start, p, mode, (k - 1) as nat);
        crate::theory::lemma_same_transform_apply(w.last(), p[i], q[i]);
        match mode {
            Some(m) => crate::theory::lemma_same_transform_modal(scale_triads(m), w.last(), p[i], q[i]),
            None => {},
        }
    }
}

/// Patterns of the same structure make the same progression.
pub proof fn lemma_progression_same(
    start: Chord,
    p: Seq<Transform>,
    q: Seq<Transform>,
    length: nat,
    return_to_start: bool,
    mode: Option<(Mode, PitchClass)>,
)
    requires
        same_transforms(p, q),
    ensures
        progression_spec(start, p, length, return_to_start, mode) == progression_spec(
            start,
            q,
            length,
            return_to_start,
            mode,
        ),
{
    crate::theory::lemma_same_transforms_index(p, q);
    if p.len() > 0 {
        let target: int = if return_to_start {
            length - 1
        } else {
            length as int
        };
        let steps: nat = if target >= 1 {
            (target - 1) as nat
        } else {
            0
        };
        lemma_progression_walk_same(start, p, q, mode, steps);
    }
}

/// Builder for chord progressions.
pub struct ProgressionBuilder {
    start_chord: Option<Chord>,
    transforms: Vec<Transform>,
    length: usize,
    return_to_start: bool,
    transformer: TransformEngine,
    modal_constraints: Option<(Mode, PitchClass)>,
}

impl ProgressionBuilder {
    #[verifier::type_invariant]
    spec fn well_formed(self) -> bool {
        self.transformer.constraint() == self.modal_constraints
    }

    /// The starting chord, if one was set.
    pub closed spec fn start_view(&self) -> Option<Chord> {
        self.start_chord
    }

    /// The pattern of transformations.
    pub closed spec fn pattern_view(&self) -> Seq<Transform> {
        self.transforms@
    }

    /// The number of chords asked for.
    pub closed spec fn length_view(&self) -> nat {
        self.length as nat
    }

    /// Whether the progression returns to its start.
    pub closed spec fn returns_view(&self) -> bool {
        self.return_to_start
    }

    /// The mode the progression keeps to, if any.
    pub closed spec fn mode_view(&self) -> Option<(Mode, PitchClass)> {
        self.modal_constraints
    }

    /// The chord the progression starts from: the one set, or C major.
    pub open spec fn start_or_default(&self) -> Chord {
        match self.start_view() {
            Some(c) => c,
            None => Chord { root: PitchClass::C, quality: ChordQuality::Major },
        }
    }

    /// A builder with no start, no pattern, eight chords, no return and no
    /// mode.
    pub fn new() -> (r: Self)
        ensures
            r.start_view() is None,
            r.pattern_view().len() == 0,
            r.length_view() == 8,
            !r.returns_view(),
            r.mode_view() is None,
    {
        ProgressionBuilder {
            start_chord: None,
            transforms: Vec::new(),
            length: 8,
            return_to_start: false,
            transformer: TransformEngine::Free(NeoRiemannian::new()),
            modal_constraints: None,
        }
    }

    /// Set the starting chord.
    pub fn start(self, chord: Chord) -> (r: Self)
        ensures
            r.start_view() == Some(chord),
            r.pattern_view() == self.pattern_view(),
            r.length_view() == self.length_view(),
            r.returns_view() == self.returns_view(),
            r.mode_view() == self.mode_view(),
    {
        proof {
            use_type_invariant(&self);
        }
        let mut b = self;
        b.start_chord = Some(chord);
        b
    }

    /// Add one transformation to the end of the pattern.
    pub fn add_transform(self, transform: Transform) -> (r: Self)
        ensures
            r.pattern_view() == self.pattern_view().push(transform),
            r.start_view() == self.start_view(),
            r.length_view() == self.length_view(),
            r.returns_view() == self.returns_view(),
            r.mode_view() == self.mode_view(),
    {
        proof {
            use_type_invariant(&self);
        }
        let ProgressionBuilder {
            start_chord,
            mut transforms,
            length,
            return_to_start,
            transformer,
            modal_constraints,
        } = self;
        transforms.push(transform);
        ProgressionBuilder {
            start_chord,
            transforms,
            length,
            return_to_start,
            transformer,
            modal_constraints,
        }
    }

    /// Set the repeating pattern of transformations.
    pub fn pattern(self, transforms: &[Transform]) -> (r: Self)
        ensures
            same_transforms(r.pattern_view(), transforms@),
            r.start_view() == self.start_view(),
            r.length_view() == self.length_view(),
            r.returns_view() == self.returns_view(),
            r.mode_view() == self.mode_view(),
    {
        proof {
            use_type_invariant(&self);
        }
        let mut b = self;
        b.transforms = copy_transforms(transforms);
        b
    }

    /// Set the number of chords.
    pub fn length(self, length: usize) -> (r: Self)
        ensures
            r.length_view() == length,
            r.start_view() == self.start_view(),
            r.pattern_view() == self.pattern_view(),
            r.returns_view() == self.returns_view(),
            r.mode_view() == self.mode_view(),
    {
        proof {
            use_type_invariant(&self);
        }
        let mut b = self;
        b.length = length;
        b
    }

    /// Make the progression return to its starting chord.
    pub fn with_return(self) -> (r: Self)
        ensures
            r.returns_view(),
            r.start_view() == self.start_view(),
            r.pattern_view() == self.pattern_view(),
            r.length_view() == self.length_view(),
            r.mode_view() == self.mode_view(),
    {
        proof {
            use_type_invariant(&self);
        }
        let mut b = self;
        b.return_to_start = true;
        b
    }

    /// Keep the transformations inside a mode on a tonic.
    pub fn with_mode(self, mode: Mode, tonic: PitchClass) -> (r: Self)
        ensures
            r.mode_view() == Some((mode, tonic)),
            r.start_view() == self.start_view(),
            r.pattern_view() == self.pattern_view(),
            r.length_view() == self.length_view(),
            r.returns_view() == self.returns_view(),
    {
        let ProgressionBuilder { start_chord, transforms, length, return_to_start, .. } = self;
        ProgressionBuilder {
            start_chord,
            transforms,
            length,
            return_to_start,
            transformer: TransformEngine::Modal(ModalNeoRiemannian::new(mode, tonic)),
            modal_constraints: Some((mode, tonic)),
        }
    }

    /// The mode the progression keeps to, if any.
    pub fn modal_info(&self) -> (r: Option<(Mode, PitchClass)>)
        ensures
            r == self.mode_view(),
    {
        self.modal_constraints
    }

    /// Build the progression of `length` chords. A transformation that does
    /// not apply keeps the current chord.
    pub fn build(&self) -> (r: Vec<Chord>)
        ensures
            r@ == progression_spec(
                self.start_or_default(),
                self.pattern_view(),
                self.length_view(),
                self.returns_view(),
                self.mode_view(),
            ),
            r@.len() == self.length_view(),
            self.length_view() >= 1 ==> r@[0] == self.start_or_default(),
            self.returns_view() && self.length_view() >= 2 ==> r@.last()
                == self.start_or_default(),
            self.pattern_view().len() > 0 ==> forall|i: int|
                0 <= i && i + 1 < (if self.returns_view() { self.length_view() - 1 } else { self.length_view() as int })
                    ==> #[trigger] r@[i + 1] == match engine_step(
                    self.mode_view(),
                    r@[i],
                    self.pattern_view()[i % (self.pattern_view().len() as int)],
                ) {
                    Some(n) => n,
                    None => r@[i],
                },
    {
        proof {
            use_type_invariant(self);
            if self.pattern_view().len() > 0 {
                lemma_progression_steps(
                    self.start_or_default(),
                    self.pattern_view(),
                    self.length_view(),
                    self.returns_view(),
                    self.mode_view(),
                );
            }
        }
        let start = match self.start_chord {
            Some(c) => c,
            None => Chord::c_major(),
        };
        let ghost pattern = self.transforms@;
        let ghost mode = self.modal_constraints;
        if self.length == 0 {
            return Vec::new();
        }
        if self.transforms.len() == 0 {
            let mut same: Vec<Chord> = Vec::new();
            let mut i: usize = 0;
            while i < self.length
                invariant
                    i <= self.length,
                    same@ == Seq::new(i as nat, |j: int| start),
                decreases self.length - i,
            {
                same.push(start);
                i = i + 1;
                assert(same@ =~= Seq::new(i as nat, |j: int| start));
            }
            return same;
        }
        let mut progression: Vec<Chord> = vec![start];
        let mut current = start;
        let target: usize = if self.return_to_start {
            self.length - 1
        } else {
            self.length
        };
        let steps: usize = if target >= 1 {
            target - 1
        } else {
            0
        };
        let n = self.transforms.len();
        let mut i: usize = 0;
        assert(progression@ =~= seq![start]);
        while i < steps
            invariant
                i <= steps,
                n == pattern.len(),
                n > 0,
                pattern == self.transforms@,
                mode == self.transformer.constraint(),
                progression@ == progression_walk(start, pattern, mode, i as nat),
                current == progression@.last(),
            decreases steps - i,
        {
            let transform = &self.transforms[i % n];
            let next = match self.transformer.transform(current, transform) {
                Some(c) => c,
                None => current,
            };
            progression.push(next);
            current = next;
            i = i + 1;
        }
        proof {
            lemma_progression_walk_len(start, pattern, mode, steps as nat);
        }
        if self.return_to_start && progression.len() < self.length {
            progression.push(start);
        }
        progression
    }

    /// Replace the pattern by the transformations drawn (0 for P, 1 for R,
    /// 2 for L), and ask for as many chords.
    pub fn with_drawn_pattern(self, draws: &[usize]) -> (r: Self)
        requires
            forall|i: int| 0 <= i < draws@.len() ==> #[trigger] draws@[i] < 3,
        ensures
            r.pattern_view() == draws@.map_values(|d: usize| drawn_transform(d as nat)),
            r.length_view() == draws@.len(),
            r.start_view() == self.start_view(),
            r.returns_view() == self.returns_view(),
            r.mode_view() == self.mode_view(),
    {
        let mut pattern: Vec<Transform> = Vec::new();
        let mut i: usize = 0;
        while i < draws.len()
            invariant
                i <= draws@.len(),
                forall|j: int| 0 <= j < draws@.len() ==> #[trigger] draws@[j] < 3,
                pattern@ == draws@.take(i as int).map_values(|d: usize| drawn_transform(d as nat)),
            decreases draws.len() - i,
        {
            let t = if draws[i] == 0 {
                Transform::P
            } else if draws[i] == 1 {
                Transform::R
            } else {
                Transform::L
            };
            pattern.push(t);
            i = i + 1;
            assert(pattern@ =~= draws@.take(i as int).map_values(|d: usize| drawn_transform(d as nat)));
        }
        assert(draws@.take(i as int) =~= draws@);
        proof {
            use_type_invariant(&self);
        }
        let length = draws.len();
        let mut b = self;
        b.transforms = pattern;
        b.length = length;
        b
    }

    /// Replace the pattern by `length` transformations drawn at random from
    /// P, R and L, and ask for `length` chords.
    pub fn random_walk(self, length: usize) -> (r: Self)
        ensures
            r.pattern_view().len() == length,
            forall|i: int|
                0 <= i < length ==> (#[trigger] r.pattern_view()[i] == Transform::P
                    || r.pattern_view()[i] == Transform::R || r.pattern_view()[i] == Transform::L),
            r.length_view() == length,
            r.start_view() == self.start_view(),
            r.returns_view() == self.returns_view(),
            r.mode_view() == self.mode_view(),
    {
        let mut draws: Vec<usize> = Vec::new();
        let mut i: usize = 0;
        while i < length
            invariant
                i <= length,
                draws@.len() == i,
                forall|j: int| 0 <= j < i ==> #[trigger] draws@[j] < 3,
            decreases length - i,
        {
            draws.push(random_index(3));
            i = i + 1;
        }
        let r = self.with_drawn_pattern(draws.as_slice());
        assert forall|j: int| 0 <= j < length implies (#[trigger] r.pattern_view()[j] == Transform::P
            || r.pattern_view()[j] == Transform::R || r.pattern_view()[j] == Transform::L) by {
            assert(r.pattern_view()[j] == drawn_transform(draws@[j] as nat));
        }
        r
    }
}

/// The transformation a draw from 0 to 2 stands for: P, R or L.
pub open spec fn drawn_transform(d: nat) -> Transform {
    if d == 0 {
        Transform::P
    } else if d == 1 {
        Transform::R
    } else {
        Transform::L
    }
}

impl Default for ProgressionBuilder {
    fn default() -> (r: Self)
        ensures
            r.start_view() is None,
            r.pattern_view().len() == 0,
            r.length_view() == 8,
            !r.returns_view(),
            r.mode_view() is None,
    {
        Self::new()
    }
}

/// Melody generation strategies.
#[derive(Debug, Clone, Copy, PartialEq, Eq)]
pub enum MelodyStrategy {
    /// Follow chord tones.
    ChordTones,
    /// Arpeggiate the chord.
    Arpeggio,
    /// Use common tones between chords.
    CommonTones,
    /// Stepwise motion within a scale.
    Stepwise,
    /// A mixture of the others.
    Mixed,
}

/// The order in which the generator's arpeggio visits the chord tones,
/// by the chord's place in the progression: up and back, down and back,
/// a skip, or leaning on the top.
pub open spec fn arpeggio_pattern(chord_idx: nat) -> Seq<nat> {
    let k = chord_idx % 4;
    if k == 0 {
        seq![0nat, 1, 2, 1]
    } else if k == 1 {
        seq![2nat, 1, 0, 1]
    } else if k == 2 {
        seq![0nat, 2, 1, 2]
    } else {
        seq![0nat, 1, 2, 2]
    }
}

/// How far above the root a stepwise line is at step `i`: it climbs two
/// semitones and comes back down, over and over.
pub open spec fn step_offset(i: nat) -> int {
    let k = i % 4;
    if k == 0 {
        0
    } else if k == 2 {
        2
    } else {
        1
    }
}

/// A stepwise line from `start` can be walked for `num_notes` steps: every
/// note it passes through has a MIDI number in eight signed bits, the step
/// after the last one included.
pub open spec fn stepwise_fits(start: Note, num_notes: nat) -> bool {
    &&& num_notes >= 1 ==> start.midi_computable() && start.midi_value() <= 126
    &&& num_notes >= 2 ==> -1 <= start.midi_value() <= 125
    &&& num_notes >= 5 ==> 0 <= start.midi_value()
}

/// Step `i` of a stepwise line from `start`.
pub open spec fn stepwise_note(start: Note, i: nat) -> Note {
    if i == 0 {
        start
    } else {
        Note::of_midi(start.midi_value() + step_offset(i))
    }
}

/// One step of a stepwise line: the note at step `i` can be moved by the
/// step's direction, and, when a further step is played, moving it gives
/// that step's note.
proof fn lemma_stepwise_step(start: Note, i: nat, num_notes: nat, direction: int)
    requires
        stepwise_fits(start, num_notes),
        i < num_notes,
        direction == (if i % 4 < 2 {
            1int
        } else {
            -1int
        }),
    ensures
        stepwise_note(start, i).midi_computable(),
        -128 <= stepwise_note(start, i).midi_value() + direction <= 127,
        i + 1 < num_notes ==> Note::of_midi(
            (stepwise_note(start, i).midi_value() + direction) % 256,
        ) == stepwise_note(start, i + 1),
{
    let m0 = start.midi_value();
    assert(step_offset(i + 1) == step_offset(i) + direction);
    if i >= 1 {
        lemma_of_midi_value(m0 + step_offset(i));
    }
    if i + 1 < num_notes {
        assert(0 <= m0 + step_offset(i + 1) <= 127);
        assert((m0 + step_offset(i + 1)) % 256 == m0 + step_offset(i + 1));
    }
}

/// One chord tone per drawn index: `picks` holds, for each note, which
/// tone of the chord (from `octave`) it takes.
pub fn chord_tones_melody(chord: Chord, octave: i8, picks: &[usize]) -> (r: Vec<Note>)
    requires
        octave < 127 || !chord.crosses_octave(),
        forall|i: int| 0 <= i < picks@.len() ==> picks@[i] < chord.quality.interval_seq().len(),
    ensures
        r@.len() == picks@.len(),
        forall|i: int| 0 <= i < picks@.len() ==> r@[i] == chord.note_seq(octave)[picks@[i] as int],
{
    let t = chord.notes(octave);
    let mut out: Vec<Note> = Vec::new();
    let mut i: usize = 0;
    while i < picks.len()
        invariant
            i <= picks@.len(),
            t@ == chord.note_seq(octave),
            forall|j: int| 0 <= j < picks@.len() ==> picks@[j] < chord.quality.interval_seq().len(),
            out@.len() == i,
            forall|j: int| 0 <= j < i ==> out@[j] == chord.note_seq(octave)[picks@[j] as int],
        decreases picks@.len() - i,
    {
        out.push(t[picks[i]]);
        i = i + 1;
    }
    out
}

/// The chord tones over `num_notes` steps, in the order that the chord's
/// place `chord_idx` sets (see `arpeggio_pattern`).
pub fn arpeggio_melody(chord: Chord, octave: i8, num_notes: usize, chord_idx: usize) -> (r: Vec<Note>)
    requires
        octave < 127 || !chord.crosses_octave(),
    ensures
        r@.len() == num_notes,
        forall|i: int|
            0 <= i < num_notes ==> r@[i] == chord.note_seq(octave)[(arpeggio_pattern(
                chord_idx as nat,
            )[i % 4] % chord.note_seq(octave).len()) as int],
{
    let t = chord.notes(octave);
    let pattern: [usize; 4] = match chord_idx % 4 {
        0 => [0, 1, 2, 1],
        1 => [2, 1, 0, 1],
        2 => [0, 2, 1, 2],
        _ => [0, 1, 2, 2],
    };
    assert(pattern@.map_values(|x: usize| x as nat) =~= arpeggio_pattern(chord_idx as nat));
    let mut out: Vec<Note> = Vec::new();
    let mut i: usize = 0;
    while i < num_notes
        invariant
            i <= num_notes,
            t@ == chord.note_seq(octave),
            t@.len() >= 3,
            pattern@.map_values(|x: usize| x as nat) == arpeggio_pattern(chord_idx as nat),
            pattern@.len() == 4,
            out@.len() == i,
            forall|j: int|
                0 <= j < i ==> out@[j] == chord.note_seq(octave)[(arpeggio_pattern(
                    chord_idx as nat,
                )[j % 4] % chord.note_seq(octave).len()) as int],
        decreases num_notes - i,
    {
        let k = pattern[i % 4] % t.len();
        assert(pattern@[(i % 4) as int] as nat == arpeggio_pattern(chord_idx as nat)[(i % 4) as int]);
        out.push(t[k]);
        i = i + 1;
    }
    out
}

/// A line that climbs from the chord's root by semitones and comes back
/// (see `step_offset`), `num_notes` long.
pub fn stepwise_melody(chord: Chord, octave: i8, num_notes: usize) -> (r: Vec<Note>)
    requires
        stepwise_fits(Note { pitch_class: chord.root, octave }, num_notes as nat),
    ensures
        r@.len() == num_notes,
        forall|i: int|
            0 <= i < num_notes ==> r@[i] == stepwise_note(
                Note { pitch_class: chord.root, octave },
                i as nat,
            ),
{
    let root = Note::new(chord.root, octave);
    let mut out: Vec<Note> = Vec::new();
    let mut current = root;
    let mut i: usize = 0;
    while i < num_notes
        invariant
            i <= num_notes,
            root == (Note { pitch_class: chord.root, octave }),
            stepwise_fits(root, num_notes as nat),
            i < num_notes ==> current == stepwise_note(root, i as nat),
            out@.len() == i,
            forall|j: int| 0 <= j < i ==> out@[j] == stepwise_note(root, j as nat),
        decreases num_notes - i,
    {
        out.push(current);
        let direction: i8 = if i % 4 < 2 {
            1
        } else {
            -1
        };
        proof {
            lemma_stepwise_step(root, i as nat, num_notes as nat, direction as int);
        }
        current = current.transpose(direction);
        i = i + 1;
    }
    out
}

/// The notes the generator gives one chord: chord tones for chord tones
/// and common tones (from the drawn `picks`), the arpeggio, the stepwise
/// line, or, mixed, the arpeggio, chord tones and the stepwise line in
/// turn by the chord's place.
pub fn generate_for_chord(
    strategy: MelodyStrategy,
    chord: Chord,
    octave: i8,
    num_notes: usize,
    chord_idx: usize,
    picks: &[usize],
) -> (r: Vec<Note>)
    requires
        picks@.len() == num_notes,
        octave < 127 || !chord.crosses_octave(),
        forall|i: int| 0 <= i < picks@.len() ==> picks@[i] < chord.quality.interval_seq().len(),
        strategy == MelodyStrategy::Stepwise || (strategy == MelodyStrategy::Mixed && chord_idx % 3 == 2)
            ==> stepwise_fits(Note { pitch_class: chord.root, octave }, num_notes as nat),
    ensures
        r@.len() == num_notes,
        forall|i: int|
            0 <= i < num_notes ==> r@[i] == ({
                let arp = chord.note_seq(octave)[(arpeggio_pattern(chord_idx as nat)[i % 4]
                    % chord.note_seq(octave).len()) as int];
                let tone = chord.note_seq(octave)[picks@[i] as int];
                let step = stepwise_note(Note { pitch_class: chord.root, octave }, i as nat);
                match strategy {
                    MelodyStrategy::ChordTones | MelodyStrategy::CommonTones => tone,
                    MelodyStrategy::Arpeggio => arp,
                    MelodyStrategy::Stepwise => step,
                    MelodyStrategy::Mixed => if chord_idx % 3 == 0 {
                        arp
                    } else if chord_idx % 3 == 1 {
                        tone
                    } else {
                        step
                    },
                }
            }),
{
    match strategy {
        MelodyStrategy::ChordTones | MelodyStrategy::CommonTones => chord_tones_melody(chord, octave, picks),
        MelodyStrategy::Arpeggio => arpeggio_melody(chord, octave, num_notes, chord_idx),
        MelodyStrategy::Stepwise => stepwise_melody(chord, octave, num_notes),
        MelodyStrategy::Mixed => if chord_idx % 3 == 0 {
            arpeggio_melody(chord, octave, num_notes, chord_idx)
        } else if chord_idx % 3 == 1 {
            chord_tones_melody(chord, octave, picks)
        } else {
            stepwise_melody(chord, octave, num_notes)
        },
    }
}

/// Types of hexatonic cycles.
#[derive(Debug, Clone, Copy, PartialEq, Eq)]
pub enum HexatonicCycle {
    /// The PL cycle.
    Northern,
    /// The PR cycle.
    Western,
    /// The LR cycle.
    Eastern,
    /// The PLP cycle.
    Augmented,
}

/// The pattern of transformations that walks a cycle type.
pub open spec fn cycle_pattern(cycle_type: HexatonicCycle) -> Seq<Transform> {
    match cycle_type {
        HexatonicCycle::Northern => seq![Transform::P, Transform::L],
        HexatonicCycle::Western => seq![Transform::P, Transform::R],
        HexatonicCycle::Eastern => seq![Transform::L, Transform::R],
        HexatonicCycle::Augmented => seq![Transform::P, Transform::L, Transform::P],
    }
}

/// Whether a cycle type is walked until it closes (Western and Eastern)
/// rather than taken as six steps.
pub open spec fn walks_to_close(cycle_type: HexatonicCycle) -> bool {
    cycle_type == HexatonicCycle::Western || cycle_type == HexatonicCycle::Eastern
}

/// Explorer of hexatonic cycles.
pub struct HexatonicExplorer {
    transformer: NeoRiemannian,
}

impl Default for HexatonicExplorer {
    fn default() -> (r: Self) {
        Self::new()
    }
}

impl HexatonicExplorer {
    /// The explorer's transformer holds the images of all 24 major and
    /// minor triads.
    pub closed spec fn covers_all_triads(self) -> bool {
        self.transformer.maps_all_triads()
    }

    /// An explorer over all major and minor triads.
    pub fn new() -> (r: Self)
        ensures
            r.covers_all_triads(),
    {
        HexatonicExplorer { transformer: NeoRiemannian::new() }
    }

    /// The cycle of a type from a starting chord. The Northern and augmented
    /// patterns give the hexatonic cycle, if the pattern comes back in six
    /// steps; the Western and Eastern patterns are walked until they come
    /// back to the start (eight and 24 chords), if they do within 24 steps.
    pub fn get_cycle(&self, cycle_type: HexatonicCycle, starting_chord: Chord) -> (r: Option<
        Vec<Chord>,
    >)
        ensures
            match pattern_cycle_spec(starting_chord, cycle_pattern(cycle_type), walks_to_close(cycle_type)) {
                Some(c) => r matches Some(v) && v@ == c,
                None => r is None,
            },
    {
        let pattern: Vec<Transform> = match cycle_type {
            HexatonicCycle::Northern => vec![Transform::P, Transform::L],
            HexatonicCycle::Western => vec![Transform::P, Transform::R],
            HexatonicCycle::Eastern => vec![Transform::L, Transform::R],
            HexatonicCycle::Augmented => vec![Transform::P, Transform::L, Transform::P],
        };
        assert(pattern@ =~= cycle_pattern(cycle_type));
        match cycle_type {
            HexatonicCycle::Western | HexatonicCycle::Eastern => self.transformer.closed_cycle(
                starting_chord,
                pattern.as_slice(),
            ),
            _ => self.transformer.hexatonic_cycle(starting_chord, pattern.as_slice()),
        }
    }

    /// All distinct cycles of a type, each from the first triad (in key
    /// order) not yet covered; none for the augmented type.
    pub fn find_all_cycles(&self, cycle_type: HexatonicCycle) -> (r: Vec<Vec<Chord>>)
        ensures
            cycle_type == HexatonicCycle::Augmented ==> r@.len() == 0,
            cycle_type != HexatonicCycle::Augmented ==> r@.map_values(|v: Vec<Chord>| v@)
                == cycle_group_spec(cycle_pattern(cycle_type), walks_to_close(cycle_type), 0, seq![]),
    {
        let index: usize = match cycle_type {
            HexatonicCycle::Northern => 0,
            HexatonicCycle::Western => 1,
            HexatonicCycle::Eastern => 2,
            HexatonicCycle::Augmented => {
                return Vec::new();
            },
        };
        let mut all = self.transformer.all_hexatonic_cycles();
        let (_, group) = all.remove(index);
        group
    }
}

} // verus!
