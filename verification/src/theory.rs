//! Neo-Riemannian transformations of triads and their mode-constrained form.

use std::collections::HashMap;

use vstd::prelude::*;

use crate::core_types::{Chord, ChordQuality, Mode, Note, PitchClass};
use crate::errors::LobachevskyError;
use crate::text::{ascii_lower_seq, chars_eq_str, chars_of, to_ascii_lower, trim, unicode_trimmed};

verus! {

broadcast use vstd::std_specs::hash::group_hash_axioms;

/// Neo-Riemannian transformations.
#[derive(Debug, PartialEq, Eq)]
pub enum Transform {
    /// Parallel: major and minor on the same root.
    P,
    /// Relative: a major triad and its relative minor.
    R,
    /// Leading-tone exchange.
    L,
    /// A sequence of transformations applied left to right.
    Compound(Vec<Transform>),
}

/// P on a triad: same root, other mode. Defined for major and minor only.
pub open spec fn parallel(c: Chord) -> Option<Chord> {
    match c.quality {
        ChordQuality::Major => Some(Chord { root: c.root, quality: ChordQuality::Minor }),
        ChordQuality::Minor => Some(Chord { root: c.root, quality: ChordQuality::Major }),
        _ => None,
    }
}

/// R on a triad: a major triad and the minor triad a minor third below.
pub open spec fn relative(c: Chord) -> Option<Chord> {
    match c.quality {
        ChordQuality::Major => Some(Chord { root: c.root.shifted(9), quality: ChordQuality::Minor }),
        ChordQuality::Minor => Some(Chord { root: c.root.shifted(3), quality: ChordQuality::Major }),
        _ => None,
    }
}

/// L on a triad: a major triad and the minor triad a major third above.
pub open spec fn leading(c: Chord) -> Option<Chord> {
    match c.quality {
        ChordQuality::Major => Some(Chord { root: c.root.shifted(4), quality: ChordQuality::Minor }),
        ChordQuality::Minor => Some(Chord { root: c.root.shifted(8), quality: ChordQuality::Major }),
        _ => None,
    }
}

/// The chord a transformation leads to, if it applies.
pub open spec fn nr_apply(c: Chord, t: Transform) -> Option<Chord>
    decreases t,
{
    match t {
        Transform::P => parallel(c),
        Transform::R => relative(c),
        Transform::L => leading(c),
        Transform::Compound(ts) => nr_apply_all(c, ts@),
    }
}

/// The chord a list of transformations leads to, if every step applies.
pub open spec fn nr_apply_all(c: Chord, ts: Seq<Transform>) -> Option<Chord>
    decreases ts,
{
    if ts.len() == 0 {
        Some(c)
    } else {
        match nr_apply(c, ts[0]) {
            Some(n) => nr_apply_all(n, ts.drop_first()),
            None => None,
        }
    }
}

/// The chords visited by applying transformations one after another; the
/// walk stops at the first transformation that does not apply.
pub open spec fn nr_sequence(c: Chord, ts: Seq<Transform>) -> Seq<Chord>
    decreases ts.len(),
{
    if ts.len() == 0 {
        seq![c]
    } else {
        match nr_apply(c, ts[0]) {
            Some(n) => seq![c] + nr_sequence(n, ts.drop_first()),
            None => seq![c],
        }
    }
}

/// A compound transformation made of exactly the two given steps.
pub open spec fn is_pair(t: Transform, a: Transform, b: Transform) -> bool {
    t matches Transform::Compound(v) && v@ == seq![a, b]
}

/// The basic transformation a letter stands for.
pub open spec fn letter_step(c: char) -> Option<Transform> {
    if c == 'p' {
        Some(Transform::P)
    } else if c == 'r' {
        Some(Transform::R)
    } else if c == 'l' {
        Some(Transform::L)
    } else {
        None
    }
}

/// A word of two or more of the letters p, r and l: the compound of those
/// steps in order.
pub open spec fn is_letter_word(s: Seq<char>) -> bool {
    s.len() >= 2 && forall|i: int| 0 <= i < s.len() ==> (#[trigger] letter_step(s[i])) is Some
}

/// The steps a letter word spells.
pub open spec fn letter_steps(s: Seq<char>) -> Seq<Transform> {
    s.map_values(|c: char| letter_step(c).unwrap())
}

/// The transformation names accepted, as read after trimming and ASCII
/// lower-casing.
pub open spec fn is_transform_name(s: Seq<char>) -> bool {
    s == "p"@ || s == "parallel"@ || s == "r"@ || s == "relative"@ || s == "l"@ || s
        == "leading-tone"@ || s == "leading"@ || s == "leadingtone"@ || s == "leading tone"@
        || is_letter_word(s)
}

/// `t` is the transformation that the (normalised) name `s` stands for.
pub open spec fn names_transform(s: Seq<char>, t: Transform) -> bool {
    if s == "p"@ || s == "parallel"@ {
        t == Transform::P
    } else if s == "r"@ || s == "relative"@ {
        t == Transform::R
    } else if s == "l"@ || s == "leading-tone"@ || s == "leading"@ || s == "leadingtone"@ || s
        == "leading tone"@ {
        t == Transform::L
    } else if is_letter_word(s) {
        t matches Transform::Compound(v) && v@ == letter_steps(s)
    } else {
        false
    }
}

/// The name a transformation is read under: trimmed as `str::trim` does,
/// then ASCII lower-cased.
pub open spec fn normalized_name(value: Seq<char>) -> Seq<char> {
    ascii_lower_seq(unicode_trimmed(value))
}

/// The parse result of a transformation name, as `Transform::try_from`
/// gives it.
pub open spec fn transform_parse_ok(value: Seq<char>, r: Result<Transform, LobachevskyError>) -> bool {
    if is_transform_name(normalized_name(value)) {
        r matches Ok(t) && names_transform(normalized_name(value), t)
    } else {
        r matches Err(LobachevskyError::InvalidTransformation { input }) && input@ == value
    }
}

/// Two transformations with the same structure, step by step.
pub open spec fn same_transform(a: Transform, b: Transform) -> bool
    decreases a,
{
    match a {
        Transform::P => b == Transform::P,
        Transform::R => b == Transform::R,
        Transform::L => b == Transform::L,
        Transform::Compound(x) => match b {
            Transform::Compound(y) => same_transforms(x@, y@),
            _ => false,
        },
    }
}

/// Two lists of transformations with the same structure, step by step.
pub open spec fn same_transforms(x: Seq<Transform>, y: Seq<Transform>) -> bool
    decreases x,
{
    if x.len() == 0 {
        y.len() == 0
    } else {
        y.len() > 0 && same_transform(x[0], y[0]) && same_transforms(x.drop_first(), y.drop_first())
    }
}

/// Structurally equal transformations act the same on every chord.
pub proof fn lemma_same_transform_apply(c: Chord, a: Transform, b: Transform)
    requires
        same_transform(a, b),
    ensures
        nr_apply(c, a) == nr_apply(c, b),
    decreases a,
{
    match a {
        Transform::Compound(x) => {
            match b {
                Transform::Compound(y) => {
                    assert(decreases_to!(a => x@));
                    lemma_same_transforms_apply(c, x@, y@);
                },
                _ => {},
            }
        },
        _ => {},
    }
}

/// Structurally equal lists of transformations act the same on every chord.
pub proof fn lemma_same_transforms_apply(c: Chord, x: Seq<Transform>, y: Seq<Transform>)
    requires
        same_transforms(x, y),
    ensures
        nr_apply_all(c, x) == nr_apply_all(c, y),
        nr_sequence(c, x) == nr_sequence(c, y),
    decreases x,
{
    if x.len() > 0 {
        lemma_same_transform_apply(c, x[0], y[0]);
        match nr_apply(c, x[0]) {
            Some(n) => lemma_same_transforms_apply(n, x.drop_first(), y.drop_first()),
            None => {},
        }
    }
}

/// Every transformation has the structure of itself.
pub proof fn lemma_same_transform_refl(a: Transform)
    ensures
        same_transform(a, a),
    decreases a,
{
    match a {
        Transform::Compound(x) => {
            assert(decreases_to!(a => x@));
            lemma_same_transforms_refl(x@);
        },
        _ => {},
    }
}

/// Every list of transformations has the structure of itself.
pub proof fn lemma_same_transforms_refl(x: Seq<Transform>)
    ensures
        same_transforms(x, x),
    decreases x,
{
    if x.len() > 0 {
        lemma_same_transform_refl(x[0]);
        lemma_same_transforms_refl(x.drop_first());
    }
}

/// The structure relation on lists, read position by position.
pub proof fn lemma_same_transforms_index(x: Seq<Transform>, y: Seq<Transform>)
    ensures
        same_transforms(x, y) <==> (x.len() == y.len() && forall|i: int|
            0 <= i < x.len() ==> #[trigger] same_transform(x[i], y[i])),
    decreases x,
{
    if x.len() > 0 && y.len() > 0 {
        let xs = x.drop_first();
        let ys = y.drop_first();
        lemma_same_transforms_index(xs, ys);
        if x.len() == y.len() && forall|i: int| 0 <= i < x.len() ==> #[trigger] same_transform(x[i], y[i]) {
            assert(same_transform(x[0], y[0]));
            assert forall|i: int| 0 <= i < xs.len() implies #[trigger] same_transform(xs[i], ys[i]) by {
                assert(xs[i] == x[i + 1]);
                assert(ys[i] == y[i + 1]);
                assert(same_transform(x[i + 1], y[i + 1]));
            }
            assert(same_transforms(xs, ys));
            assert(same_transforms(x, y));
        }
        if same_transforms(x, y) {
            assert(same_transforms(xs, ys));
            assert forall|i: int| 0 <= i < x.len() implies #[trigger] same_transform(x[i], y[i]) by {
                if i > 0 {
                    assert(xs[i - 1] == x[i]);
                    assert(ys[i - 1] == y[i]);
                    assert(same_transform(xs[i - 1], ys[i - 1]));
                }
            }
        }
    }
}

/// A copy of a transformation, step by step.
#[verifier::loop_isolation(false)]
fn copy_transform(t: &Transform) -> (r: Transform)
    ensures
        same_transform(r, *t),
    decreases t,
{
    match t {
        Transform::P => Transform::P,
        Transform::R => Transform::R,
        Transform::L => Transform::L,
        Transform::Compound(ts) => {
            let mut out: Vec<Transform> = Vec::new();
            let mut i: usize = 0;
            while i < ts.len()
                invariant
                    i <= ts@.len(),
                    out@.len() == i,
                    forall|j: int| 0 <= j < i ==> #[trigger] same_transform(out@[j], ts@[j]),
                decreases ts.len() - i,
            {
                assert(decreases_to!(*t => ts@));
                assert(decreases_to!(ts@ => ts@[i as int]));
                let c = copy_transform(&ts[i]);
                out.push(c);
                i = i + 1;
            }
            proof {
                lemma_same_transforms_index(out@, ts@);
            }
            Transform::Compound(out)
        },
    }
}

/// Copies of every transformation in a slice.
pub fn copy_transforms(ts: &[Transform]) -> (r: Vec<Transform>)
    ensures
        same_transforms(r@, ts@),
{
    let mut out: Vec<Transform> = Vec::new();
    let mut i: usize = 0;
    while i < ts.len()
        invariant
            i <= ts@.len(),
            out@.len() == i,
            forall|j: int| 0 <= j < i ==> #[trigger] same_transform(out@[j], ts@[j]),
        decreases ts.len() - i,
    {
        out.push(copy_transform(&ts[i]));
        i = i + 1;
    }
    proof {
        lemma_same_transforms_index(out@, ts@);
    }
    out
}

impl Clone for Transform {
    fn clone(&self) -> (r: Self)
        ensures
            same_transform(r, *self),
    {
        copy_transform(self)
    }
}

impl Transform {
    /// Relative, then parallel.
    pub fn rp() -> (r: Self)
        ensures
            r matches Transform::Compound(v) && v@ == seq![Transform::R, Transform::P],
    {
        Transform::Compound(vec![Transform::R, Transform::P])
    }

    /// Parallel, then relative.
    pub fn pr() -> (r: Self)
        ensures
            r matches Transform::Compound(v) && v@ == seq![Transform::P, Transform::R],
    {
        Transform::Compound(vec![Transform::P, Transform::R])
    }

    /// Parallel, then leading-tone.
    pub fn pl() -> (r: Self)
        ensures
            r matches Transform::Compound(v) && v@ == seq![Transform::P, Transform::L],
    {
        Transform::Compound(vec![Transform::P, Transform::L])
    }

    /// Leading-tone, then parallel.
    pub fn lp() -> (r: Self)
        ensures
            r matches Transform::Compound(v) && v@ == seq![Transform::L, Transform::P],
    {
        Transform::Compound(vec![Transform::L, Transform::P])
    }

    /// Relative, then leading-tone.
    pub fn rl() -> (r: Self)
        ensures
            r matches Transform::Compound(v) && v@ == seq![Transform::R, Transform::L],
    {
        Transform::Compound(vec![Transform::R, Transform::L])
    }

    /// Leading-tone, then relative.
    pub fn lr() -> (r: Self)
        ensures
            r matches Transform::Compound(v) && v@ == seq![Transform::L, Transform::R],
    {
        Transform::Compound(vec![Transform::L, Transform::R])
    }

    /// The compound spelled by a word of two or more of the letters p, r
    /// and l.
    fn from_letter_word(v: &[char]) -> (r: Option<Transform>)
        ensures
            is_letter_word(v@) ==> (r matches Some(Transform::Compound(steps)) && steps@
                == letter_steps(v@)),
            !is_letter_word(v@) ==> r is None,
    {
        if v.len() < 2 {
            return None;
        }
        let mut steps: Vec<Transform> = Vec::new();
        let mut i: usize = 0;
        while i < v.len()
            invariant
                i <= v@.len(),
                v@.len() >= 2,
                forall|j: int| 0 <= j < i ==> (#[trigger] letter_step(v@[j])) is Some,
                steps@ == letter_steps(v@.take(i as int)),
            decreases v.len() - i,
        {
            let step = if v[i] == 'p' {
                Transform::P
            } else if v[i] == 'r' {
                Transform::R
            } else if v[i] == 'l' {
                Transform::L
            } else {
                assert(!(letter_step(v@[i as int]) is Some));
                return None;
            };
            steps.push(step);
            i = i + 1;
            assert(steps@ =~= letter_steps(v@.take(i as int)));
        }
        assert(v@.take(i as int) =~= v@);
        Some(Transform::Compound(steps))
    }

    /// Looks a transformation up by its lower-case name.
    pub fn from_normalized_name(v: &[char]) -> (r: Option<Transform>)
        ensures
            is_transform_name(v@) ==> (r matches Some(t) && names_transform(v@, t)),
            !is_transform_name(v@) ==> r is None,
    {
        proof {
            reveal_strlit("p");
            reveal_strlit("r");
            reveal_strlit("l");
        }
        if chars_eq_str(v, "p") || chars_eq_str(v, "parallel") {
            Some(Transform::P)
        } else if chars_eq_str(v, "r") || chars_eq_str(v, "relative") {
            Some(Transform::R)
        } else if chars_eq_str(v, "l") || chars_eq_str(v, "leading-tone") || chars_eq_str(
            v,
            "leading",
        ) || chars_eq_str(v, "leadingtone") || chars_eq_str(v, "leading tone") {
            Some(Transform::L)
        } else {
            proof {
                reveal_strlit("parallel");
                reveal_strlit("relative");
                reveal_strlit("leading-tone");
                reveal_strlit("leading");
                reveal_strlit("leadingtone");
                reveal_strlit("leading tone");
            }
            Transform::from_letter_word(v)
        }
    }

    /// Parses a transformation name: surrounding white space is ignored and
    /// letter case does not matter. Unknown names are an
    /// `InvalidTransformation` error that carries the input.
    pub fn parse(value: &str) -> (r: Result<Transform, LobachevskyError>)
        ensures
            transform_parse_ok(value@, r),
    {
        let trimmed = trim(value);
        let chars = chars_of(trimmed);
        let lower = to_ascii_lower(chars.as_slice());
        match Transform::from_normalized_name(lower.as_slice()) {
            Some(t) => Ok(t),
            None => Err(LobachevskyError::InvalidTransformation { input: String::from_str(value) }),
        }
    }
}

/// Conversion from a name. Errors carry a fresh `String` equal to the input
/// by characters only, so `obeys_try_from_spec` is false and the impl states
/// its result in its own `ensures`.
impl<'a> vstd::std_specs::convert::TryFromSpecImpl<&'a str> for Transform {
    open spec fn obeys_try_from_spec() -> bool {
        false
    }

    open spec fn try_from_spec(v: &'a str) -> Result<Self, LobachevskyError> {
        if is_transform_name(normalized_name(v@)) {
            Ok(choose|t: Transform| names_transform(normalized_name(v@), t))
        } else {
            Err(LobachevskyError::InvalidTransformation { input: choose|s: String| s@ == v@ })
        }
    }
}

impl<'a> TryFrom<&'a str> for Transform {
    type Error = LobachevskyError;

    fn try_from(value: &'a str) -> (r: Result<Self, Self::Error>)
        ensures
            transform_parse_ok(value@, r),
    {
        Transform::parse(value)
    }
}

/// The images of one triad under P, R and L.
#[derive(Clone, Copy)]
struct TransformMap {
    p: Chord,
    r: Chord,
    l: Chord,
}

/// Table key of a major or minor triad: twice the root's semitone, plus
/// one for minor.
pub open spec fn triad_key(c: Chord) -> Option<u8> {
    match c.quality {
        ChordQuality::Major => Some((2 * c.root.semitone()) as u8),
        ChordQuality::Minor => Some((2 * c.root.semitone() + 1) as u8),
        _ => None,
    }
}

/// The triad stored under a table key.
pub open spec fn keyed_triad(k: u8) -> Chord {
    Chord {
        root: PitchClass::of((k / 2) as int),
        quality: if k % 2 == 0 {
            ChordQuality::Major
        } else {
            ChordQuality::Minor
        },
    }
}

/// Major and minor triads.
pub open spec fn is_major_or_minor(c: Chord) -> bool {
    c.quality == ChordQuality::Major || c.quality == ChordQuality::Minor
}

/// Keys and triads correspond one to one.
pub proof fn lemma_triad_key(c: Chord)
    requires
        is_major_or_minor(c),
    ensures
        triad_key(c) matches Some(k) && k < 24 && keyed_triad(k) == c,
{
    crate::core_types::lemma_transpose_octave(c.root);
}

/// The entry the table holds for a key.
spec fn table_entry(k: u8) -> TransformMap {
    let c = keyed_triad(k);
    TransformMap {
        p: parallel(c).unwrap(),
        r: relative(c).unwrap(),
        l: leading(c).unwrap(),
    }
}

/// Neo-Riemannian transformation engine: a table of the P, R and L images
/// of all 24 major and minor triads.
pub struct NeoRiemannian {
    transformations: HashMap<u8, TransformMap>,
}

/// The table holds exactly the 24 triad keys, each with the images given by
/// the P, R and L formulas.
spec fn complete_table(m: Map<u8, TransformMap>) -> bool {
    &&& forall|k: u8| #[trigger] m.contains_key(k) <==> k < 24
    &&& forall|k: u8| #[trigger] m.contains_key(k) ==> m[k] == table_entry(k)
}

/// Adds the images of one triad to a table under construction.
fn add_entry(m: &mut HashMap<u8, TransformMap>, c: Chord, p: Chord, r: Chord, l: Chord)
    requires
        is_major_or_minor(c),
        Some(p) == parallel(c),
        Some(r) == relative(c),
        Some(l) == leading(c),
        forall|k: u8| #[trigger] old(m)@.contains_key(k) ==> k < 24 && old(m)@[k] == table_entry(k),
    ensures
        final(m)@.dom() == old(m)@.dom().insert(triad_key(c).unwrap()),
        forall|k: u8| #[trigger] final(m)@.contains_key(k) ==> k < 24 && final(m)@[k] == table_entry(k),
{
    proof {
        lemma_triad_key(c);
    }
    let k = chord_key(&c);
    m.insert(k, TransformMap { p, r, l });
}

/// The table key of a major or minor triad.
fn chord_key(c: &Chord) -> (k: u8)
    requires
        is_major_or_minor(*c),
    ensures
        Some(k) == triad_key(*c),
        k < 24,
{
    let s = c.root.to_semitone();
    match c.quality {
        ChordQuality::Major => 2 * s,
        _ => 2 * s + 1,
    }
}

impl NeoRiemannian {
    #[verifier::type_invariant]
    spec fn well_formed(self) -> bool {
        complete_table(self.transformations@)
    }

    /// The transformer holds the P, R and L images of exactly the 24 major
    /// and minor triads, each as `parallel`, `relative` and `leading` give it.
    pub closed spec fn maps_all_triads(self) -> bool {
        complete_table(self.transformations@)
    }

    /// Create a transformer holding the mappings of all 24 major and minor
    /// triads.
    #[verifier::rlimit(100)]
    #[verifier::spinoff_prover]
    pub fn new() -> (r: Self)
        ensures
            r.maps_all_triads(),
    {
        proof {
            assert forall|p: PitchClass, n: int| #[trigger] p.shifted(n) == PitchClass::of(p.semitone() + n) by {
                crate::core_types::lemma_shifted_def(p, n);
            }
        }
        let mut transformations: HashMap<u8, TransformMap> = HashMap::new();

        // Major triads
        add_entry(&mut transformations, Chord::major(PitchClass::C), Chord::minor(PitchClass::C), Chord::minor(PitchClass::A), Chord::minor(PitchClass::E));
        add_entry(&mut transformations, Chord::major(PitchClass::Cs), Chord::minor(PitchClass::Cs), Chord::minor(PitchClass::As), Chord::minor(PitchClass::F));
        add_entry(&mut transformations, Chord::major(PitchClass::D), Chord::minor(PitchClass::D), Chord::minor(PitchClass::B), Chord::minor(PitchClass::Fs));
        add_entry(&mut transformations, Chord::major(PitchClass::Ds), Chord::minor(PitchClass::Ds), Chord::minor(PitchClass::C), Chord::minor(PitchClass::G));
        add_entry(&mut transformations, Chord::major(PitchClass::E), Chord::minor(PitchClass::E), Chord::minor(PitchClass::Cs), Chord::minor(PitchClass::Gs));
        add_entry(&mut transformations, Chord::major(PitchClass::F), Chord::minor(PitchClass::F), Chord::minor(PitchClass::D), Chord::minor(PitchClass::A));
        add_entry(&mut transformations, Chord::major(PitchClass::Fs), Chord::minor(PitchClass::Fs), Chord::minor(PitchClass::Ds), Chord::minor(PitchClass::As));
        add_entry(&mut transformations, Chord::major(PitchClass::G), Chord::minor(PitchClass::G), Chord::minor(PitchClass::E), Chord::minor(PitchClass::B));
        add_entry(&mut transformations, Chord::major(PitchClass::Gs), Chord::minor(PitchClass::Gs), Chord::minor(PitchClass::F), Chord::minor(PitchClass::C));
        add_entry(&mut transformations, Chord::major(PitchClass::A), Chord::minor(PitchClass::A), Chord::minor(PitchClass::Fs), Chord::minor(PitchClass::Cs));
        add_entry(&mut transformations, Chord::major(PitchClass::As), Chord::minor(PitchClass::As), Chord::minor(PitchClass::G), Chord::minor(PitchClass::D));
        add_entry(&mut transformations, Chord::major(PitchClass::B), Chord::minor(PitchClass::B), Chord::minor(PitchClass::Gs), Chord::minor(PitchClass::Ds));

        // Minor triads
        add_entry(&mut transformations, Chord::minor(PitchClass::C), Chord::major(PitchClass::C), Chord::major(PitchClass::Ds), Chord::major(PitchClass::Gs));
        add_entry(&mut transformations, Chord::minor(PitchClass::Cs), Chord::major(PitchClass::Cs), Chord::major(PitchClass::E), Chord::major(PitchClass::A));
        add_entry(&mut transformations, Chord::minor(PitchClass::D), Chord::major(PitchClass::D), Chord::major(PitchClass::F), Chord::major(PitchClass::As));
        add_entry(&mut transformations, Chord::minor(PitchClass::Ds), Chord::major(PitchClass::Ds), Chord::major(PitchClass::Fs), Chord::major(PitchClass::B));
        add_entry(&mut transformations, Chord::minor(PitchClass::E), Chord::major(PitchClass::E), Chord::major(PitchClass::G), Chord::major(PitchClass::C));
        add_entry(&mut transformations, Chord::minor(PitchClass::F), Chord::major(PitchClass::F), Chord::major(PitchClass::Gs), Chord::major(PitchClass::Cs));
        add_entry(&mut transformations, Chord::minor(PitchClass::Fs), Chord::major(PitchClass::Fs), Chord::major(PitchClass::A), Chord::major(PitchClass::D));
        add_entry(&mut transformations, Chord::minor(PitchClass::G), Chord::major(PitchClass::G), Chord::major(PitchClass::As), Chord::major(PitchClass::Ds));
        add_entry(&mut transformations, Chord::minor(PitchClass::Gs), Chord::major(PitchClass::Gs), Chord::major(PitchClass::B), Chord::major(PitchClass::E));
        add_entry(&mut transformations, Chord::minor(PitchClass::A), Chord::major(PitchClass::A), Chord::major(PitchClass::C), Chord::major(PitchClass::F));
        add_entry(&mut transformations, Chord::minor(PitchClass::As), Chord::major(PitchClass::As), Chord::major(PitchClass::Cs), Chord::major(PitchClass::Fs));
        add_entry(&mut transformations, Chord::minor(PitchClass::B), Chord::major(PitchClass::B), Chord::major(PitchClass::D), Chord::major(PitchClass::G));

        assert forall|k: u8| #[trigger] transformations@.contains_key(k) <==> k < 24 by {
            if k < 24 {
                assert(transformations@.dom().contains(k));
            }
        }
        NeoRiemannian { transformations }
    }

    /// The table entry of a chord, if it is a major or minor triad.
    fn entry(&self, chord: Chord) -> (r: Option<TransformMap>)
        ensures
            is_major_or_minor(chord) ==> r == Some(table_entry(triad_key(chord).unwrap())),
            !is_major_or_minor(chord) ==> r is None,
    {
        proof {
            use_type_invariant(self);
        }
        if chord.quality == ChordQuality::Major || chord.quality == ChordQuality::Minor {
            let k = chord_key(&chord);
            match self.transformations.get(&k) {
                Some(m) => Some(*m),
                None => None,
            }
        } else {
            None
        }
    }

    /// P, R or L on a chord, read from the table.
    fn apply_basic(&self, chord: Chord, which: &Transform) -> (r: Option<Chord>)
        requires
            !(*which is Compound),
        ensures
            r == nr_apply(chord, *which),
    {
        proof {
            if is_major_or_minor(chord) {
                lemma_triad_key(chord);
            }
        }
        match self.entry(chord) {
            Some(m) => match which {
                Transform::P => Some(m.p),
                Transform::R => Some(m.r),
                _ => Some(m.l),
            },
            None => None,
        }
    }

    /// Apply a transformation to a chord. Only major and minor triads
    /// transform; a compound applies its steps in order and fails if any
    /// step fails.
    pub fn transform(&self, chord: Chord, transform: &Transform) -> (r: Option<Chord>)
        ensures
            r == nr_apply(chord, *transform),
        decreases transform,
    {
        match transform {
            Transform::Compound(transforms) => {
                let mut current = chord;
                let mut i: usize = 0;
                assert(transforms@.skip(0) =~= transforms@);
                while i < transforms.len()
                    invariant
                        *transform == Transform::Compound(*transforms),
                        i <= transforms@.len(),
                        nr_apply_all(chord, transforms@) == nr_apply_all(
                            current,
                            transforms@.skip(i as int),
                        ),
                    decreases transforms.len() - i,
                {
                    assert(transforms@.skip(i as int).drop_first() =~= transforms@.skip(i + 1));
                    assert(decreases_to!(*transform => transforms@));
                    assert(decreases_to!(transforms@ => transforms@[i as int]));
                    match self.transform(current, &transforms[i]) {
                        Some(next) => current = next,
                        None => return None,
                    }
                    i = i + 1;
                }
                assert(transforms@.skip(i as int).len() == 0);
                Some(current)
            },
            _ => self.apply_basic(chord, transform),
        }
    }

    /// Apply transformations one after another, collecting every chord
    /// visited; the walk stops at the first transformation that fails.
    pub fn apply_sequence(&self, start: Chord, transforms: &[Transform]) -> (r: Vec<Chord>)
        ensures
            r@ == nr_sequence(start, transforms@),
    {
        let mut result: Vec<Chord> = vec![start];
        let mut current = start;
        let mut i: usize = 0;
        assert(transforms@.skip(0) =~= transforms@);
        assert(result@.drop_last() =~= Seq::<Chord>::empty());
        assert(Seq::<Chord>::empty() + nr_sequence(start, transforms@) =~= nr_sequence(start, transforms@));
        while i < transforms.len()
            invariant
                i <= transforms@.len(),
                result@.len() >= 1,
                result@.last() == current,
                nr_sequence(start, transforms@) == result@.drop_last() + nr_sequence(
                    current,
                    transforms@.skip(i as int),
                ),
            decreases transforms.len() - i,
        {
            let ghost before = result@;
            assert(transforms@.skip(i as int).drop_first() =~= transforms@.skip(i + 1));
            match self.transform(current, &transforms[i]) {
                Some(next) => {
                    result.push(next);
                    current = next;
                    assert(result@.drop_last() =~= before.drop_last() + seq![before.last()]);
                    assert(before.drop_last() + seq![before.last()] + nr_sequence(
                        next,
                        transforms@.skip(i + 1),
                    ) =~= before.drop_last() + (seq![before.last()] + nr_sequence(
                        next,
                        transforms@.skip(i + 1),
                    )));
                },
                None => {
                    assert(result@ =~= result@.drop_last() + seq![current]);
                    return result;
                },
            }
            i = i + 1;
        }
        assert(transforms@.skip(i as int).len() == 0);
        assert(result@ =~= result@.drop_last() + seq![current]);
        result
    }

    /// Walk six steps from a chord, applying the pattern cyclically; the
    /// walk is a hexatonic cycle when the sixth step returns to the start.
    /// Gives the six chords of the cycle.
    pub fn hexatonic_cycle(&self, start: Chord, pattern: &[Transform]) -> (r: Option<Vec<Chord>>)
        requires
            pattern@.len() > 0,
        ensures
            match hexatonic_spec(start, pattern@) {
                Some(c) => r matches Some(v) && v@ == c,
                None => r is None,
            },
    {
        let mut cycle: Vec<Chord> = vec![start];
        let mut current = start;
        let n = pattern.len();
        let mut i: usize = 0;
        while i < 5
            invariant
                n == pattern@.len(),
                n > 0,
                i <= 5,
                pattern_walk(start, pattern@, i as nat) == Some(cycle@),
                cycle@.len() == i + 1,
                current == cycle@.last(),
            decreases 5 - i,
        {
            let transform = &pattern[i % n];
            match self.transform(current, transform) {
                Some(next) => {
                    current = next;
                    cycle.push(next);
                },
                None => {
                    proof {
                        lemma_walk_fails_later(start, pattern@, (i + 1) as nat, 6);
                    }
                    return None;
                },
            }
            i = i + 1;
        }
        let final_transform = &pattern[5 % n];
        match self.transform(current, final_transform) {
            Some(should_be_start) => {
                assert(pattern_walk(start, pattern@, 6) == Some(cycle@.push(should_be_start)));
                if should_be_start == start {
                    assert(cycle@.push(should_be_start).subrange(0, 6) =~= cycle@);
                    Some(cycle)
                } else {
                    None
                }
            },
            None => None,
        }
    }

    /// The cycle a pattern walks from a start chord, until the walk first
    /// comes back to the start (within 24 steps); `None` when a step does
    /// not apply or the walk does not come back.
    pub fn closed_cycle(&self, start: Chord, pattern: &[Transform]) -> (r: Option<Vec<Chord>>)
        requires
            pattern@.len() > 0,
        ensures
            match closed_cycle_spec(start, pattern@) {
                Some(c) => r matches Some(v) && v@ == c,
                None => r is None,
            },
    {
        let mut cycle: Vec<Chord> = vec![start];
        let mut current = start;
        let n = pattern.len();
        let mut i: usize = 0;
        while i < 24
            invariant
                n == pattern@.len(),
                n > 0,
                i <= 24,
                pattern_walk(start, pattern@, i as nat) == Some(cycle@),
                cycle@.len() == i + 1,
                current == cycle@.last(),
                closed_cycle_spec(start, pattern@) == closing_from(start, pattern@, (i + 1) as nat),
            decreases 24 - i,
        {
            let transform = &pattern[i % n];
            match self.transform(current, transform) {
                Some(next) => {
                    assert(pattern_walk(start, pattern@, (i + 1) as nat) == Some(cycle@.push(next)));
                    if next == start {
                        assert(cycle@.push(next).subrange(0, (i + 1) as int) =~= cycle@);
                        return Some(cycle);
                    }
                    cycle.push(next);
                    current = next;
                },
                None => {
                    return None;
                },
            }
            i = i + 1;
        }
        None
    }

    /// The cycles of one pattern: triads are tried in table order, and a
    /// triad already inside a found cycle starts no new one. With `walk`
    /// each cycle is walked until it closes, else it is the six-step
    /// hexatonic cycle.
    fn cycle_group(&self, pattern: &[Transform], walk: bool) -> (r: Vec<Vec<Chord>>)
        requires
            pattern@.len() > 0,
        ensures
            r@.map_values(|v: Vec<Chord>| v@) == cycle_group_spec(pattern@, walk, 0, seq![]),
    {
        let mut group: Vec<Vec<Chord>> = Vec::new();
        let mut seen: Vec<Chord> = Vec::new();
        let mut k: u8 = 0;
        while k < 24
            invariant
                pattern@.len() > 0,
                k <= 24,
                cycle_group_spec(pattern@, walk, 0, seq![]) == group@.map_values(|v: Vec<Chord>| v@)
                    + cycle_group_spec(pattern@, walk, k as nat, seen@),
            decreases 24 - k,
        {
            let chord = keyed_chord(k);
            let ghost before = group@.map_values(|v: Vec<Chord>| v@);
            if !chord_in(&seen, chord) {
                let found = if walk {
                    self.closed_cycle(chord, pattern)
                } else {
                    self.hexatonic_cycle(chord, pattern)
                };
                match found {
                    Some(cycle) => {
                        let mut j: usize = 0;
                        let ghost seen0 = seen@;
                        while j < cycle.len()
                            invariant
                                j <= cycle@.len(),
                                seen@ == seen0 + cycle@.subrange(0, j as int),
                            decreases cycle.len() - j,
                        {
                            seen.push(cycle[j]);
                            assert(seen@ =~= seen0 + cycle@.subrange(0, j + 1));
                            j = j + 1;
                        }
                        assert(cycle@.subrange(0, cycle@.len() as int) =~= cycle@);
                        group.push(cycle);
                        assert(group@.map_values(|v: Vec<Chord>| v@) =~= before.push(
                            group@.last()@,
                        ));
                    },
                    None => {},
                }
            }
            k = k + 1;
        }
        assert(group@.map_values(|v: Vec<Chord>| v@) + seq![] =~= group@.map_values(
            |v: Vec<Chord>| v@,
        ));
        group
    }

    /// All hexatonic cycles of the Northern (PL), Western (PR) and Eastern
    /// (LR) patterns, each group under its name.
    pub fn all_hexatonic_cycles(&self) -> (r: Vec<(&'static str, Vec<Vec<Chord>>)>)
        ensures
            r@.len() == 3,
            r@[0].0 == "Northern (PL)",
            r@[1].0 == "Western (PR)",
            r@[2].0 == "Eastern (LR)",
            r@[0].1@.map_values(|v: Vec<Chord>| v@) == cycle_group_spec(
                seq![Transform::P, Transform::L],
                false,
                0,
                seq![],
            ),
            r@[1].1@.map_values(|v: Vec<Chord>| v@) == cycle_group_spec(
                seq![Transform::P, Transform::R],
                true,
                0,
                seq![],
            ),
            r@[2].1@.map_values(|v: Vec<Chord>| v@) == cycle_group_spec(
                seq![Transform::L, Transform::R],
                true,
                0,
                seq![],
            ),
    {
        let northern = vec![Transform::P, Transform::L];
        let western = vec![Transform::P, Transform::R];
        let eastern = vec![Transform::L, Transform::R];
        let mut cycles: Vec<(&'static str, Vec<Vec<Chord>>)> = Vec::new();
        cycles.push(("Northern (PL)", self.cycle_group(northern.as_slice(), false)));
        cycles.push(("Western (PR)", self.cycle_group(western.as_slice(), true)));
        cycles.push(("Eastern (LR)", self.cycle_group(eastern.as_slice(), true)));
        cycles
    }
}

impl Default for NeoRiemannian {
    fn default() -> (r: Self) {
        Self::new()
    }
}

/// The first `k + 1` chords of the walk from `start` that applies
/// `pattern[i % pattern.len()]` at step `i`, if every step applies.
pub open spec fn pattern_walk(start: Chord, pattern: Seq<Transform>, k: nat) -> Option<Seq<Chord>>
    decreases k,
{
    if k == 0 {
        Some(seq![start])
    } else {
        match pattern_walk(start, pattern, (k - 1) as nat) {
            Some(w) => match nr_apply(w.last(), pattern[(k - 1) % (pattern.len() as int)]) {
                Some(n) => Some(w.push(n)),
                None => None,
            },
            None => None,
        }
    }
}

/// The hexatonic cycle of a pattern from a start chord: six steps that
/// lead back to the start, given by the six chords visited.
pub open spec fn hexatonic_spec(start: Chord, pattern: Seq<Transform>) -> Option<Seq<Chord>> {
    match pattern_walk(start, pattern, 6) {
        Some(w) => if w[6] == start {
            Some(w.subrange(0, 6))
        } else {
            None
        },
        None => None,
    }
}

/// The walk of a pattern from step `k` on (at most 24 steps in all): the
/// chords before the first step that leads back to the start.
pub open spec fn closing_from(start: Chord, pattern: Seq<Transform>, k: nat) -> Option<Seq<Chord>>
    decreases 25 - k,
{
    if k > 24 {
        None
    } else {
        match pattern_walk(start, pattern, k) {
            None => None,
            Some(w) => if k >= 1 && w[k as int] == start {
                Some(w.subrange(0, k as int))
            } else {
                closing_from(start, pattern, k + 1)
            },
        }
    }
}

/// The cycle a pattern walks from a start chord: the chords visited until
/// the walk first comes back to the start, within 24 steps.
pub open spec fn closed_cycle_spec(start: Chord, pattern: Seq<Transform>) -> Option<Seq<Chord>> {
    closing_from(start, pattern, 1)
}

/// The cycle of a pattern from a start chord: walked until it closes, or
/// the six-step hexatonic cycle.
pub open spec fn pattern_cycle_spec(start: Chord, pattern: Seq<Transform>, walk: bool) -> Option<Seq<Chord>> {
    if walk {
        closed_cycle_spec(start, pattern)
    } else {
        hexatonic_spec(start, pattern)
    }
}

/// A walk that fails at some step fails at every later step too.
pub proof fn lemma_walk_fails_later(start: Chord, pattern: Seq<Transform>, k: nat, m: nat)
    requires
        k <= m,
        pattern_walk(start, pattern, k) is None,
    ensures
        pattern_walk(start, pattern, m) is None,
    decreases m - k,
{
    if k < m {
        lemma_walk_fails_later(start, pattern, k + 1, m);
    }
}

/// Walk lengths: a walk of `k` steps that succeeds holds `k + 1` chords.
pub proof fn lemma_walk_len(start: Chord, pattern: Seq<Transform>, k: nat)
    ensures
        pattern_walk(start, pattern, k) matches Some(w) ==> w.len() == k + 1 && w[0] == start,
    decreases k,
{
    if k > 0 {
        lemma_walk_len(start, pattern, (k - 1) as nat);
    }
}

/// P, R and L are involutions on major and minor triads.
pub proof fn lemma_prl_involutions(c: Chord)
    requires
        is_major_or_minor(c),
    ensures
        parallel(parallel(c).unwrap()) == Some(c),
        relative(relative(c).unwrap()) == Some(c),
        leading(leading(c).unwrap()) == Some(c),
        is_major_or_minor(parallel(c).unwrap()),
        is_major_or_minor(relative(c).unwrap()),
        is_major_or_minor(leading(c).unwrap()),
        parallel(c).unwrap().quality != c.quality,
        relative(c).unwrap().quality != c.quality,
        leading(c).unwrap().quality != c.quality,
{
    crate::core_types::lemma_transpose_compose(c.root, 9, 3);
    crate::core_types::lemma_transpose_compose(c.root, 3, 9);
    crate::core_types::lemma_transpose_compose(c.root, 4, 8);
    crate::core_types::lemma_transpose_compose(c.root, 8, 4);
    crate::core_types::lemma_transpose_octave(c.root);
}

/// The triad stored under a table key, computed.
fn keyed_chord(k: u8) -> (c: Chord)
    requires
        k < 24,
    ensures
        c == keyed_triad(k),
{
    let root = match PitchClass::from_semitone(k / 2) {
        Some(p) => p,
        None => PitchClass::C,
    };
    let quality = if k % 2 == 0 {
        ChordQuality::Major
    } else {
        ChordQuality::Minor
    };
    Chord::new(root, quality)
}

/// Whether a chord occurs in a list.
pub fn chord_in(v: &Vec<Chord>, c: Chord) -> (r: bool)
    ensures
        r == v@.contains(c),
{
    let mut i: usize = 0;
    while i < v.len()
        invariant
            i <= v@.len(),
            forall|j: int| 0 <= j < i ==> v@[j] != c,
        decreases v.len() - i,
    {
        if v[i] == c {
            return true;
        }
        i = i + 1;
    }
    false
}

/// The cycles a pattern gives when triads are tried in table order from key
/// `k` on, skipping triads in `seen` and adding each found cycle's chords to
/// `seen`.
pub open spec fn cycle_group_spec(pattern: Seq<Transform>, walk: bool, k: nat, seen: Seq<Chord>) -> Seq<Seq<Chord>>
    decreases 24 - k,
{
    if k >= 24 {
        seq![]
    } else {
        let c = keyed_triad(k as u8);
        if seen.contains(c) {
            cycle_group_spec(pattern, walk, k + 1, seen)
        } else {
            match pattern_cycle_spec(c, pattern, walk) {
                Some(cycle) => seq![cycle] + cycle_group_spec(pattern, walk, k + 1, seen + cycle),
                None => cycle_group_spec(pattern, walk, k + 1, seen),
            }
        }
    }
}

/// P3,0 transformations of seventh chords: three voices move by half step
/// and one stays as a common tone.
#[derive(Debug, Clone, PartialEq, Eq)]
pub enum P3Transform {
    /// Parallel motion up, with the given common tone.
    ParallelUp(CommonTone),
    /// Parallel motion down, with the given common tone.
    ParallelDown(CommonTone),
    /// Contrary motion, with the given common tone.
    Contrary(CommonTone),
}

/// The chord tone that stays common in a P3,0 transformation.
#[derive(Debug, Clone, Copy, PartialEq, Eq)]
pub enum CommonTone {
    Root,
    Third,
    Fifth,
    Seventh,
}

/// Chords that neo-Riemannian operations apply to.
pub trait Transformable: Sized + Copy {
    /// The result of a basic P, R, L or compound transformation.
    spec fn basic_image(self, transform: Transform) -> Option<Self>;

    /// The result of a P3,0 transformation.
    spec fn p3_image(self, transform: P3Transform) -> Option<Self>;

    /// The triad the item rests on, if any.
    spec fn triad_base(self) -> Option<Chord>;

    /// Whether P3,0 transformations apply.
    spec fn p3_capable(self) -> bool;

    /// Whether the notes can be listed from this octave.
    spec fn notes_listable(self, octave: i8) -> bool;

    /// The notes from an octave.
    spec fn note_list(self, octave: i8) -> Seq<Note>;

    /// Apply a basic neo-Riemannian transformation (P, R, L).
    fn transform_basic(&self, transform: &Transform) -> (r: Option<Self>)
        ensures
            r == self.basic_image(*transform),
    ;

    /// Apply a P3,0 transformation.
    fn transform_p3(&self, transform: &P3Transform) -> (r: Option<Self>)
        ensures
            r == self.p3_image(*transform),
    ;

    /// The notes at a specific octave.
    fn notes(&self, octave: i8) -> (r: Vec<Note>)
        requires
            self.notes_listable(octave),
        ensures
            r@ == self.note_list(octave),
    ;

    /// The underlying triad for basic transformations.
    fn underlying_triad(&self) -> (r: Option<Chord>)
        ensures
            r == self.triad_base(),
    ;

    /// Whether basic P/R/L operations apply: the item has an underlying
    /// triad.
    fn supports_basic_transforms(&self) -> (r: bool)
        ensures
            r == self.triad_base().is_some(),
    {
        self.underlying_triad().is_some()
    }

    /// Whether P3,0 transformations apply.
    fn supports_p3_transforms(&self) -> (r: bool)
        ensures
            r == self.p3_capable(),
    ;
}

/// The seventh or suspended quality kept when the underlying triad of a
/// chord of quality `q` is transformed into a triad of quality `tq`.
pub open spec fn extended_quality(q: ChordQuality, tq: ChordQuality) -> Option<ChordQuality> {
    match q {
        ChordQuality::MajorSeventh => match tq {
            ChordQuality::Major => Some(ChordQuality::MajorSeventh),
            ChordQuality::Minor => Some(ChordQuality::MinorMajorSeventh),
            ChordQuality::Diminished => Some(ChordQuality::HalfDiminished),
            ChordQuality::Augmented => Some(ChordQuality::AugmentedMajorSeventh),
            _ => None,
        },
        ChordQuality::MinorSeventh | ChordQuality::DominantSeventh | ChordQuality::HalfDiminished => match tq {
            ChordQuality::Major => Some(ChordQuality::DominantSeventh),
            ChordQuality::Minor => Some(ChordQuality::MinorSeventh),
            ChordQuality::Diminished => Some(ChordQuality::HalfDiminished),
            _ => None,
        },
        ChordQuality::FullyDiminished => match tq {
            ChordQuality::Diminished => Some(ChordQuality::FullyDiminished),
            _ => None,
        },
        ChordQuality::Sus2 => match tq {
            ChordQuality::Major | ChordQuality::Minor => Some(ChordQuality::Sus2),
            _ => None,
        },
        ChordQuality::Sus4 => match tq {
            ChordQuality::Major | ChordQuality::Minor => Some(ChordQuality::Sus4),
            _ => None,
        },
        ChordQuality::SevenSus2 => match tq {
            ChordQuality::Major => Some(ChordQuality::SevenSus2),
            _ => None,
        },
        ChordQuality::SevenSus4 => match tq {
            ChordQuality::Major => Some(ChordQuality::SevenSus4),
            _ => None,
        },
        _ => None,
    }
}

/// The triad a chord rests on, as a chord.
pub open spec fn base_triad(c: Chord) -> Chord {
    Chord { root: c.root, quality: c.quality.triad_basis() }
}

/// A seventh or suspended chord transforms through its underlying triad and
/// keeps its extension.
pub open spec fn extended_transform(c: Chord, t: Transform) -> Option<Chord> {
    match nr_apply(base_triad(c), t) {
        Some(tt) => match extended_quality(c.quality, tt.quality) {
            Some(q) => Some(Chord { root: tt.root, quality: q }),
            None => None,
        },
        None => None,
    }
}

/// A basic transformation of any chord: triads through the table, other
/// chords through their underlying triad.
pub open spec fn chord_transform(c: Chord, t: Transform) -> Option<Chord> {
    if !c.quality.triad() || c.quality.suspended() {
        extended_transform(c, t)
    } else {
        nr_apply(c, t)
    }
}

/// A seventh or suspended chord moves with its underlying triad: whatever
/// it becomes has the root of the transformed triad and keeps its kind (a
/// seventh stays a seventh, a suspended chord keeps its suspension); a
/// seventh chord rests on exactly the transformed triad and keeps the size
/// of its seventh, except that a major seventh over a diminished triad
/// becomes half-diminished.
pub proof fn lemma_extended_follows_triad(c: Chord, t: Transform)
    requires
        !c.quality.triad() || c.quality.suspended(),
    ensures
        chord_transform(c, t) matches Some(d) ==> {
            &&& nr_apply(base_triad(c), t) is Some
            &&& d.root == nr_apply(base_triad(c), t).unwrap().root
            &&& d.quality.seventh() == c.quality.seventh()
            &&& d.quality.suspended() == c.quality.suspended()
            &&& !c.quality.suspended() ==> base_triad(d) == nr_apply(base_triad(c), t).unwrap()
            &&& c.quality.suspended() ==> d.quality == c.quality
            &&& c.quality.seventh() && !c.quality.suspended() ==> (d.quality.interval_seq()[3]
                == c.quality.interval_seq()[3] || (c.quality == ChordQuality::MajorSeventh
                && d.quality == ChordQuality::HalfDiminished))
        },
{
}

/// The fallback P3,0 result: the P image of the underlying triad, keeping a
/// seventh of the fitting kind.
pub open spec fn p3_fallback(c: Chord) -> Option<Chord> {
    match parallel(base_triad(c)) {
        Some(tt) => match c.quality {
            ChordQuality::MajorSeventh => Some(Chord {
                root: tt.root,
                quality: if tt.quality == ChordQuality::Minor {
                    ChordQuality::MinorMajorSeventh
                } else {
                    ChordQuality::MajorSeventh
                },
            }),
            ChordQuality::MinorSeventh => Some(Chord {
                root: tt.root,
                quality: if tt.quality == ChordQuality::Major {
                    ChordQuality::DominantSeventh
                } else {
                    ChordQuality::MinorSeventh
                },
            }),
            ChordQuality::DominantSeventh => Some(Chord {
                root: tt.root,
                quality: if tt.quality == ChordQuality::Minor {
                    ChordQuality::MinorSeventh
                } else {
                    ChordQuality::DominantSeventh
                },
            }),
            _ => None,
        },
        None => None,
    }
}

/// P3,0 transformation of a seventh chord: the voice-leading table entries
/// on C, and the fallback elsewhere.
pub open spec fn p3_seventh(c: Chord, t: P3Transform) -> Option<Chord> {
    if c.root == PitchClass::C && c.quality == ChordQuality::MajorSeventh && t
        == P3Transform::ParallelUp(CommonTone::Root) {
        Some(Chord { root: PitchClass::C, quality: ChordQuality::MinorSeventh })
    } else if c.root == PitchClass::C && c.quality == ChordQuality::MajorSeventh && t
        == P3Transform::ParallelUp(CommonTone::Third) {
        Some(Chord { root: PitchClass::Cs, quality: ChordQuality::MinorSeventh })
    } else if c.root == PitchClass::C && c.quality == ChordQuality::MajorSeventh && t
        == P3Transform::ParallelUp(CommonTone::Fifth) {
        Some(Chord { root: PitchClass::Ds, quality: ChordQuality::MinorSeventh })
    } else if c.root == PitchClass::C && c.quality == ChordQuality::MajorSeventh && t
        == P3Transform::ParallelUp(CommonTone::Seventh) {
        Some(Chord { root: PitchClass::F, quality: ChordQuality::MinorSeventh })
    } else if c.root == PitchClass::C && c.quality == ChordQuality::MinorSeventh && t
        == P3Transform::ParallelUp(CommonTone::Root) {
        Some(Chord { root: PitchClass::C, quality: ChordQuality::MajorSeventh })
    } else if c.root == PitchClass::C && c.quality == ChordQuality::MinorSeventh && t
        == P3Transform::ParallelDown(CommonTone::Root) {
        Some(Chord { root: PitchClass::C, quality: ChordQuality::DominantSeventh })
    } else if c.root == PitchClass::C && c.quality == ChordQuality::DominantSeventh && t
        == P3Transform::ParallelUp(CommonTone::Root) {
        Some(Chord { root: PitchClass::C, quality: ChordQuality::MinorMajorSeventh })
    } else if c.root == PitchClass::C && c.quality == ChordQuality::DominantSeventh && t
        == P3Transform::ParallelDown(CommonTone::Seventh) {
        Some(Chord { root: PitchClass::Fs, quality: ChordQuality::HalfDiminished })
    } else {
        p3_fallback(c)
    }
}

/// A P3,0 transformation applies to seventh chords only.
pub open spec fn chord_p3(c: Chord, t: P3Transform) -> Option<Chord> {
    if !c.quality.seventh() {
        None
    } else {
        p3_seventh(c, t)
    }
}

impl Chord {
    /// Transform a seventh or suspended chord through its underlying triad,
    /// keeping the extension.
    fn transform_extended(&self, transform: &Transform) -> (r: Option<Self>)
        ensures
            r == extended_transform(*self, *transform),
    {
        let underlying = Chord::new(self.root, self.quality.underlying_triad());
        let engine = NeoRiemannian::new();
        let transformed_triad = match engine.transform(underlying, transform) {
            Some(t) => t,
            None => return None,
        };
        let new_quality = match self.quality {
            ChordQuality::MajorSeventh => match transformed_triad.quality {
                ChordQuality::Major => ChordQuality::MajorSeventh,
                ChordQuality::Minor => ChordQuality::MinorMajorSeventh,
                ChordQuality::Diminished => ChordQuality::HalfDiminished,
                ChordQuality::Augmented => ChordQuality::AugmentedMajorSeventh,
                _ => return None,
            },
            ChordQuality::MinorSeventh => match transformed_triad.quality {
                ChordQuality::Major => ChordQuality::DominantSeventh,
                ChordQuality::Minor => ChordQuality::MinorSeventh,
                ChordQuality::Diminished => ChordQuality::HalfDiminished,
                _ => return None,
            },
            ChordQuality::DominantSeventh => match transformed_triad.quality {
                ChordQuality::Major => ChordQuality::DominantSeventh,
                ChordQuality::Minor => ChordQuality::MinorSeventh,
                ChordQuality::Diminished => ChordQuality::HalfDiminished,
                _ => return None,
            },
            ChordQuality::HalfDiminished => match transformed_triad.quality {
                ChordQuality::Major => ChordQuality::DominantSeventh,
                ChordQuality::Minor => ChordQuality::MinorSeventh,
                ChordQuality::Diminished => ChordQuality::HalfDiminished,
                _ => return None,
            },
            ChordQuality::FullyDiminished => match transformed_triad.quality {
                ChordQuality::Diminished => ChordQuality::FullyDiminished,
                _ => return None,
            },
            ChordQuality::Sus2 => match transformed_triad.quality {
                ChordQuality::Major => ChordQuality::Sus2,
                ChordQuality::Minor => ChordQuality::Sus2,
                _ => return None,
            },
            ChordQuality::Sus4 => match transformed_triad.quality {
                ChordQuality::Major => ChordQuality::Sus4,
                ChordQuality::Minor => ChordQuality::Sus4,
                _ => return None,
            },
            ChordQuality::SevenSus2 => match transformed_triad.quality {
                ChordQuality::Major => ChordQuality::SevenSus2,
                _ => return None,
            },
            ChordQuality::SevenSus4 => match transformed_triad.quality {
                ChordQuality::Major => ChordQuality::SevenSus4,
                _ => return None,
            },
            _ => return None,
        };
        Some(Chord::new(transformed_triad.root, new_quality))
    }

    /// P3,0 transformations of seventh chords.
    fn transform_p3_seventh(&self, transform: &P3Transform) -> (r: Option<Self>)
        ensures
            r == p3_seventh(*self, *transform),
    {
        match (self.root, &self.quality, transform) {
            (PitchClass::C, ChordQuality::MajorSeventh, P3Transform::ParallelUp(CommonTone::Root)) => {
                Some(Chord::new(PitchClass::C, ChordQuality::MinorSeventh))
            },
            (PitchClass::C, ChordQuality::MajorSeventh, P3Transform::ParallelUp(CommonTone::Third)) => {
                Some(Chord::new(PitchClass::Cs, ChordQuality::MinorSeventh))
            },
            (PitchClass::C, ChordQuality::MajorSeventh, P3Transform::ParallelUp(CommonTone::Fifth)) => {
                Some(Chord::new(PitchClass::Ds, ChordQuality::MinorSeventh))
            },
            (PitchClass::C, ChordQuality::MajorSeventh, P3Transform::ParallelUp(CommonTone::Seventh)) => {
                Some(Chord::new(PitchClass::F, ChordQuality::MinorSeventh))
            },
            (PitchClass::C, ChordQuality::MinorSeventh, P3Transform::ParallelUp(CommonTone::Root)) => {
                Some(Chord::new(PitchClass::C, ChordQuality::MajorSeventh))
            },
            (PitchClass::C, ChordQuality::MinorSeventh, P3Transform::ParallelDown(CommonTone::Root)) => {
                Some(Chord::new(PitchClass::C, ChordQuality::DominantSeventh))
            },
            (PitchClass::C, ChordQuality::DominantSeventh, P3Transform::ParallelUp(CommonTone::Root)) => {
                Some(Chord::new(PitchClass::C, ChordQuality::MinorMajorSeventh))
            },
            (PitchClass::C, ChordQuality::DominantSeventh, P3Transform::ParallelDown(CommonTone::Seventh)) => {
                Some(Chord::new(PitchClass::Fs, ChordQuality::HalfDiminished))
            },
            _ => {
                let underlying = Chord::new(self.root, self.quality.underlying_triad());
                let engine = NeoRiemannian::new();
                let transformed_triad = match engine.transform(underlying, &Transform::P) {
                    Some(t) => t,
                    None => return None,
                };
                let new_quality = match self.quality {
                    ChordQuality::MajorSeventh => match transformed_triad.quality {
                        ChordQuality::Minor => ChordQuality::MinorMajorSeventh,
                        _ => ChordQuality::MajorSeventh,
                    },
                    ChordQuality::MinorSeventh => match transformed_triad.quality {
                        ChordQuality::Major => ChordQuality::DominantSeventh,
                        _ => ChordQuality::MinorSeventh,
                    },
                    ChordQuality::DominantSeventh => match transformed_triad.quality {
                        ChordQuality::Minor => ChordQuality::MinorSeventh,
                        _ => ChordQuality::DominantSeventh,
                    },
                    _ => return None,
                };
                Some(Chord::new(transformed_triad.root, new_quality))
            },
        }
    }
}

impl Transformable for Chord {
    open spec fn basic_image(self, transform: Transform) -> Option<Self> {
        chord_transform(self, transform)
    }

    open spec fn p3_image(self, transform: P3Transform) -> Option<Self> {
        chord_p3(self, transform)
    }

    open spec fn triad_base(self) -> Option<Chord> {
        Some(base_triad(self))
    }

    open spec fn p3_capable(self) -> bool {
        self.quality.seventh()
    }

    open spec fn notes_listable(self, octave: i8) -> bool {
        octave < 127 || !self.crosses_octave()
    }

    open spec fn note_list(self, octave: i8) -> Seq<Note> {
        self.note_seq(octave)
    }

    fn transform_basic(&self, transform: &Transform) -> (r: Option<Self>) {
        if !self.quality.is_triad() || self.quality.is_suspended() {
            return self.transform_extended(transform);
        }
        let engine = NeoRiemannian::new();
        engine.transform(*self, transform)
    }

    fn transform_p3(&self, transform: &P3Transform) -> (r: Option<Self>) {
        if !self.quality.is_seventh() {
            return None;
        }
        self.transform_p3_seventh(transform)
    }

    fn notes(&self, octave: i8) -> (r: Vec<Note>) {
        Chord::notes(self, octave)
    }

    fn underlying_triad(&self) -> (r: Option<Chord>) {
        Some(Chord::new(self.root, self.quality.underlying_triad()))
    }

    fn supports_p3_transforms(&self) -> (r: bool) {
        self.quality.is_seventh()
    }
}

/// The items visited by applying basic transformations one after another;
/// the walk stops at the first transformation that does not apply.
pub open spec fn any_sequence<T: Transformable>(c: T, ts: Seq<Transform>) -> Seq<T>
    decreases ts.len(),
{
    if ts.len() == 0 {
        seq![c]
    } else {
        match c.basic_image(ts[0]) {
            Some(n) => seq![c] + any_sequence(n, ts.drop_first()),
            None => seq![c],
        }
    }
}

impl NeoRiemannian {
    /// Transform any transformable item with a basic operation.
    pub fn transform_any<T: Transformable>(&self, item: T, transform: &Transform) -> (r: Option<T>)
        ensures
            r == item.basic_image(*transform),
    {
        item.transform_basic(transform)
    }

    /// Apply a P3,0 transformation to any transformable item.
    pub fn transform_p3_any<T: Transformable>(&self, item: T, transform: &P3Transform) -> (r: Option<T>)
        ensures
            r == item.p3_image(*transform),
    {
        item.transform_p3(transform)
    }

    /// Apply basic transformations one after another to any transformable
    /// item; the walk stops at the first transformation that fails.
    pub fn apply_sequence_any<T: Transformable>(&self, start: T, transforms: &[Transform]) -> (r: Vec<T>)
        ensures
            r@ == any_sequence(start, transforms@),
    {
        let mut result: Vec<T> = vec![start];
        let mut current = start;
        let mut i: usize = 0;
        assert(transforms@.skip(0) =~= transforms@);
        assert(result@.drop_last() + any_sequence(start, transforms@) =~= any_sequence(start, transforms@));
        while i < transforms.len()
            invariant
                i <= transforms@.len(),
                result@.len() >= 1,
                result@.last() == current,
                any_sequence(start, transforms@) == result@.drop_last() + any_sequence(
                    current,
                    transforms@.skip(i as int),
                ),
            decreases transforms.len() - i,
        {
            let ghost before = result@;
            assert(transforms@.skip(i as int).drop_first() =~= transforms@.skip(i + 1));
            match self.transform_any(current, &transforms[i]) {
                Some(next) => {
                    result.push(next);
                    current = next;
                    assert(result@.drop_last() =~= before.drop_last() + seq![before.last()]);
                    assert(before.drop_last() + seq![before.last()] + any_sequence(
                        next,
                        transforms@.skip(i + 1),
                    ) =~= before.drop_last() + (seq![before.last()] + any_sequence(
                        next,
                        transforms@.skip(i + 1),
                    )));
                },
                None => {
                    assert(result@ =~= result@.drop_last() + seq![current]);
                    return result;
                },
            }
            i = i + 1;
        }
        assert(transforms@.skip(i as int).len() == 0);
        assert(result@ =~= result@.drop_last() + seq![current]);
        result
    }
}

/// The MIDI number of a note as `Note::to_midi` gives it (eight bits).
pub open spec fn midi_byte(n: Note) -> int {
    n.midi_value() % 256
}

/// Sum of the semitone moves of the first `k` voices.
pub open spec fn voice_sum(from: Seq<Note>, to: Seq<Note>, k: nat) -> int
    decreases k,
{
    if k == 0 {
        0
    } else {
        let d = midi_byte(to[k - 1]) - midi_byte(from[k - 1]);
        voice_sum(from, to, (k - 1) as nat) + if d < 0 {
            -d
        } else {
            d
        }
    }
}

/// Voice-leading distance: the total semitone movement, voice by voice; the
/// largest `i32` when the chords have different sizes.
pub open spec fn voice_distance(from: Seq<Note>, to: Seq<Note>) -> int {
    if from.len() != to.len() {
        i32::MAX as int
    } else {
        voice_sum(from, to, from.len())
    }
}

/// The voice sums both ways round are equal, never negative, and zero
/// from a chord to itself.
proof fn lemma_voice_sum_symmetric(from: Seq<Note>, to: Seq<Note>, k: nat)
    ensures
        voice_sum(from, to, k) == voice_sum(to, from, k),
        voice_sum(from, to, k) >= 0,
        voice_sum(from, from, k) == 0,
    decreases k,
{
    if k > 0 {
        lemma_voice_sum_symmetric(from, to, (k - 1) as nat);
    }
}

/// Voice-leading distance is symmetric, never negative, and zero from a
/// chord to itself.
pub proof fn lemma_voice_distance_symmetric(from: Seq<Note>, to: Seq<Note>)
    ensures
        voice_distance(from, to) == voice_distance(to, from),
        voice_distance(from, to) >= 0,
        voice_distance(from, from) == 0,
{
    lemma_voice_sum_symmetric(from, to, from.len());
}

/// Every note's MIDI number can be computed.
pub open spec fn all_computable(notes: Seq<Note>) -> bool {
    forall|i: int| 0 <= i < notes.len() ==> #[trigger] notes[i].midi_computable()
}

/// Each voice moves at most 255 semitones.
pub proof fn lemma_voice_sum_bounds(from: Seq<Note>, to: Seq<Note>, k: nat)
    ensures
        0 <= voice_sum(from, to, k) <= 255 * k,
    decreases k,
{
    if k > 0 {
        lemma_voice_sum_bounds(from, to, (k - 1) as nat);
    }
}

/// Inversion `k` of a chord from an octave: its tones from the `k`-th on,
/// then its first `k` tones an octave higher.
pub open spec fn inversion(chord: Chord, octave: int, k: nat) -> Seq<Note> {
    chord.note_seq(octave as i8).skip(k as int) + chord.note_seq((octave + 1) as i8).take(k as int)
}

/// Candidate `j` of voice-leading optimisation: every inversion from the
/// octave below, then from the given octave, then from the one above.
pub open spec fn voicing_candidate(chord: Chord, octave: i8, j: nat) -> Seq<Note> {
    let n = chord.quality.interval_seq().len();
    inversion(chord, octave - 1 + j / n, j % n)
}

/// The closest of the first `j` candidates, starting from the chord in
/// root position at the given octave; a later candidate replaces the one
/// kept only when it is strictly closer.
pub open spec fn best_voicing(from: Seq<Note>, chord: Chord, octave: i8, j: nat) -> Seq<Note>
    decreases j,
{
    if j == 0 {
        chord.note_seq(octave)
    } else {
        let kept = best_voicing(from, chord, octave, (j - 1) as nat);
        let c = voicing_candidate(chord, octave, (j - 1) as nat);
        if voice_distance(from, c) < voice_distance(from, kept) {
            c
        } else {
            kept
        }
    }
}

/// The notes chosen by voice-leading optimisation: of all inversions of the
/// chord, from an octave below to an octave above the given one, the one
/// with the least voice-leading distance (the earliest on a tie, root
/// position at the given octave first). When `from` has another number of
/// voices, the chord in root position at the given octave.
pub open spec fn optimized_voicing(from: Seq<Note>, chord: Chord, octave: i8) -> Seq<Note> {
    let n = chord.quality.interval_seq().len();
    if from.len() != n {
        chord.note_seq(octave)
    } else {
        best_voicing(from, chord, octave, 3 * n)
    }
}

/// Voice-leading optimisation picks a voicing at least as close to `from`
/// as the chord in root position at the given octave and as every
/// inversion of the chord from an octave below to an octave above it.
pub proof fn lemma_optimized_voicing_least(from: Seq<Note>, chord: Chord, octave: i8, o: int, k: nat)
    requires
        from.len() == chord.quality.interval_seq().len(),
        octave - 1 <= o <= octave + 1,
        k < chord.quality.interval_seq().len(),
    ensures
        voice_distance(from, optimized_voicing(from, chord, octave)) <= voice_distance(from, chord.note_seq(octave)),
        voice_distance(from, optimized_voicing(from, chord, octave)) <= voice_distance(
            from,
            inversion(chord, o, k),
        ),
{
    let n = chord.quality.interval_seq().len() as int;
    assert(n >= 3);
    let j = (o - octave + 1) * n + k;
    assert(0 <= j < 3 * n) by (nonlinear_arith)
        requires
            0 <= o - octave + 1 <= 2,
            0 <= k < n,
            j == (o - octave + 1) * n + k,
    ;
    vstd::arithmetic::div_mod::lemma_fundamental_div_mod_converse(j, n, o - octave + 1, k as int);
    lemma_best_voicing_least(from, chord, octave, (3 * n) as nat);
    assert(voicing_candidate(chord, octave, j as nat) == inversion(chord, o, k));
}

/// The kept voicing is at least as close as every candidate seen, and as
/// the chord in root position at the given octave.
pub proof fn lemma_best_voicing_least(from: Seq<Note>, chord: Chord, octave: i8, j: nat)
    ensures
        voice_distance(from, best_voicing(from, chord, octave, j)) <= voice_distance(from, chord.note_seq(octave)),
        forall|i: nat| i < j ==> voice_distance(from, best_voicing(from, chord, octave, j))
            <= voice_distance(from, #[trigger] voicing_candidate(chord, octave, i)),
    decreases j,
{
    if j > 0 {
        lemma_best_voicing_least(from, chord, octave, (j - 1) as nat);
    }
}

/// Voice-leading helpers for smooth transitions.
pub struct VoiceLeading;

impl VoiceLeading {
    /// The voice-leading distance between two chords: the sum over voices
    /// of the semitone movement; `i32::MAX` when the sizes differ.
    pub fn distance(from: &[Note], to: &[Note]) -> (r: i32)
        requires
            from@.len() == to@.len() ==> all_computable(from@) && all_computable(to@),
            from@.len() == to@.len() ==> voice_sum(from@, to@, from@.len()) <= i32::MAX,
        ensures
            r == voice_distance(from@, to@),
    {
        if from.len() != to.len() {
            return i32::MAX;
        }
        let mut total: i32 = 0;
        let mut i: usize = 0;
        while i < from.len()
            invariant
                from@.len() == to@.len(),
                all_computable(from@),
                all_computable(to@),
                voice_sum(from@, to@, from@.len()) <= i32::MAX,
                i <= from@.len(),
                total == voice_sum(from@, to@, i as nat),
            decreases from.len() - i,
        {
            let a = from[i].to_midi() as i32;
            let b = to[i].to_midi() as i32;
            let diff = b - a;
            let step = if diff < 0 {
                -diff
            } else {
                diff
            };
            proof {
                lemma_voice_sum_monotone(from@, to@, (i + 1) as nat, from@.len());
            }
            total = total + step;
            i = i + 1;
        }
        total
    }

    /// The inversion of the target chord, from an octave below to an octave
    /// above the given one, with the least voice-leading distance from
    /// `from` (see `optimized_voicing`).
    pub fn optimize(from: &[Note], to_chord: Chord, octave: i8) -> (r: Vec<Note>)
        requires
            octave < 127 || !to_chord.crosses_octave(),
            from@.len() == to_chord.quality.interval_seq().len() ==> {
                &&& -127 <= octave <= 125
                &&& octave <= 124 || !to_chord.crosses_octave()
                &&& all_computable(from@)
                &&& forall|o: int| octave - 1 <= o <= octave + 2 ==> all_computable(#[trigger] to_chord.note_seq(o as i8))
            },
        ensures
            r@ == optimized_voicing(from@, to_chord, octave),
            from@.len() == to_chord.quality.interval_seq().len() ==> forall|o: int, k: nat|
                octave - 1 <= o <= octave + 1 && k < to_chord.quality.interval_seq().len() ==> voice_distance(
                    from@,
                    r@,
                ) <= voice_distance(from@, #[trigger] inversion(to_chord, o, k)),
            from@.len() == to_chord.quality.interval_seq().len() ==> {
                &&& voice_distance(from@, r@) <= voice_distance(from@, to_chord.note_seq(octave))
                &&& forall|j: nat| j < 3 * to_chord.quality.interval_seq().len() ==> voice_distance(from@, r@)
                    <= voice_distance(from@, #[trigger] voicing_candidate(to_chord, octave, j))
            },
    {
        let base_notes = to_chord.notes(octave);
        let n = base_notes.len();
        if from.len() != n {
            return base_notes;
        }
        proof {
            assert(n <= 4 && n >= 3);
            lemma_best_voicing_least(from@, to_chord, octave, (3 * n) as nat);
            assert forall|o: int, k: nat|
                octave - 1 <= o <= octave + 1 && k < n implies voice_distance(
                    from@,
                    optimized_voicing(from@, to_chord, octave),
                ) <= voice_distance(from@, #[trigger] inversion(to_chord, o, k)) by {
                lemma_optimized_voicing_least(from@, to_chord, octave, o, k);
            }
        }
        let mut best = base_notes;
        proof {
            assert(all_computable(to_chord.note_seq((octave as int) as i8)));
            lemma_computable_distance(from@, best@);
        }
        let mut best_distance = Self::distance(from, best.as_slice());
        let mut j: usize = 0;
        while j < 3 * n
            invariant
                n == to_chord.quality.interval_seq().len(),
                3 <= n <= 4,
                from@.len() == n,
                -127 <= octave <= 125,
                octave <= 124 || !to_chord.crosses_octave(),
                all_computable(from@),
                forall|o: int| octave - 1 <= o <= octave + 2 ==> all_computable(#[trigger] to_chord.note_seq(o as i8)),
                j <= 3 * n,
                best@ == best_voicing(from@, to_chord, octave, j as nat),
                best_distance == voice_distance(from@, best@),
            decreases 3 * n - j,
        {
            assert(j / n <= 2) by (nonlinear_arith)
                requires
                    j < 3 * n,
                    n >= 3,
            ;
            let o: i8 = octave - 1 + (j / n) as i8;
            let k: usize = j % n;
            let candidate = inversion_notes(to_chord, o, k);
            proof {
                lemma_inversion_computable(to_chord, octave, o as int, k as nat);
                lemma_computable_distance(from@, candidate@);
            }
            let distance = Self::distance(from, candidate.as_slice());
            if distance < best_distance {
                best = candidate;
                best_distance = distance;
            }
            j = j + 1;
        }
        best
    }
}

/// The notes of an inversion.
fn inversion_notes(chord: Chord, octave: i8, k: usize) -> (r: Vec<Note>)
    requires
        octave < 127,
        octave < 126 || !chord.crosses_octave(),
        k <= chord.quality.interval_seq().len(),
    ensures
        r@ == inversion(chord, octave as int, k as nat),
{
    let low = chord.notes(octave);
    let high = chord.notes(octave + 1);
    let mut out: Vec<Note> = Vec::new();
    let mut i: usize = k;
    while i < low.len()
        invariant
            low@ == chord.note_seq(octave),
            k <= i <= low@.len(),
            out@ == low@.subrange(k as int, i as int),
        decreases low.len() - i,
    {
        out.push(low[i]);
        i = i + 1;
        assert(out@ =~= low@.subrange(k as int, i as int));
    }
    let mut m: usize = 0;
    while m < k
        invariant
            low@ == chord.note_seq(octave),
            high@ == chord.note_seq((octave + 1) as i8),
            k <= low@.len(),
            high@.len() == low@.len(),
            m <= k,
            out@ == low@.skip(k as int) + high@.take(m as int),
        decreases k - m,
    {
        out.push(high[m]);
        m = m + 1;
        assert(out@ =~= low@.skip(k as int) + high@.take(m as int));
    }
    assert(((octave as int) + 1) as i8 == (octave + 1) as i8);
    out
}

/// An inversion from an octave within reach has every note computable.
proof fn lemma_inversion_computable(chord: Chord, octave: i8, o: int, k: nat)
    requires
        octave - 1 <= o <= octave + 1,
        k <= chord.quality.interval_seq().len(),
        forall|p: int| octave - 1 <= p <= octave + 2 ==> all_computable(#[trigger] chord.note_seq(p as i8)),
    ensures
        all_computable(inversion(chord, o, k)),
{
    let lo = chord.note_seq(o as i8);
    let hi = chord.note_seq((o + 1) as i8);
    assert(all_computable(lo));
    assert(all_computable(chord.note_seq((o + 1) as i8)));
    let inv = inversion(chord, o, k);
    assert forall|i: int| 0 <= i < inv.len() implies #[trigger] inv[i].midi_computable() by {
        if i < lo.len() - k {
            assert(inv[i] == lo[i + k]);
        } else {
            assert(inv[i] == hi[i - (lo.len() - k)]);
        }
    }
}

/// Computable voices of equal number are at most a bounded distance apart.
proof fn lemma_computable_distance(from: Seq<Note>, to: Seq<Note>)
    requires
        from.len() <= 4,
    ensures
        voice_sum(from, to, from.len()) <= i32::MAX,
{
    lemma_voice_sum_bounds(from, to, from.len());
}

/// Partial voice sums grow with the number of voices.
pub proof fn lemma_voice_sum_monotone(from: Seq<Note>, to: Seq<Note>, k: nat, m: nat)
    requires
        k <= m,
    ensures
        voice_sum(from, to, k) <= voice_sum(from, to, m),
    decreases m - k,
{
    if k < m {
        lemma_voice_sum_monotone(from, to, k, (m - 1) as nat);
    }
}

/// The first chord in `v` with the given root.
pub open spec fn first_with_root(v: Seq<Chord>, root: PitchClass) -> Option<Chord>
    decreases v.len(),
{
    if v.len() == 0 {
        None
    } else if v[0].root == root {
        Some(v[0])
    } else {
        first_with_root(v.drop_first(), root)
    }
}

/// The first chord in `v` with the given quality.
pub open spec fn first_with_quality(v: Seq<Chord>, quality: ChordQuality) -> Option<Chord>
    decreases v.len(),
{
    if v.len() == 0 {
        None
    } else if v[0].quality == quality {
        Some(v[0])
    } else {
        first_with_quality(v.drop_first(), quality)
    }
}

/// The chord a modal transformation lands on when its target `target` is
/// not in the mode: a chord of the mode on the same root, else one of the
/// same quality, else the chord it started from.
pub open spec fn substitute(valid: Seq<Chord>, target: Chord, fallback: Chord) -> Chord {
    if valid.contains(target) {
        target
    } else {
        match first_with_root(valid, target.root) {
            Some(c) => c,
            None => match first_with_quality(valid, target.quality) {
                Some(c) => c,
                None => fallback,
            },
        }
    }
}

/// A basic image kept inside the mode.
pub open spec fn modal_image(valid: Seq<Chord>, c: Chord, image: Option<Chord>) -> Option<Chord> {
    match image {
        Some(x) => Some(substitute(valid, x, c)),
        None => None,
    }
}

/// A transformation inside a mode whose triads are `valid`: chords outside
/// the mode do not transform, and targets outside the mode are replaced.
pub open spec fn modal_apply(valid: Seq<Chord>, c: Chord, t: Transform) -> Option<Chord>
    decreases t,
{
    if !valid.contains(c) {
        None
    } else {
        match t {
            Transform::P => modal_image(valid, c, parallel(c)),
            Transform::R => modal_image(valid, c, relative(c)),
            Transform::L => modal_image(valid, c, leading(c)),
            Transform::Compound(ts) => modal_apply_all(valid, c, ts@),
        }
    }
}

/// A list of modal transformations applied in order.
pub open spec fn modal_apply_all(valid: Seq<Chord>, c: Chord, ts: Seq<Transform>) -> Option<Chord>
    decreases ts,
{
    if ts.len() == 0 {
        Some(c)
    } else {
        match modal_apply(valid, c, ts[0]) {
            Some(n) => modal_apply_all(valid, n, ts.drop_first()),
            None => None,
        }
    }
}

proof fn lemma_first_with_root_member(v: Seq<Chord>, root: PitchClass)
    ensures
        first_with_root(v, root) matches Some(c) ==> v.contains(c) && c.root == root,
    decreases v.len(),
{
    if v.len() > 0 && v[0].root != root {
        lemma_first_with_root_member(v.drop_first(), root);
        if let Some(c) = first_with_root(v.drop_first(), root) {
            let i = choose|i: int| 0 <= i < v.drop_first().len() && v.drop_first()[i] == c;
            assert(v[i + 1] == c);
        }
    } else if v.len() > 0 {
        assert(v[0] == v[0]);
    }
}

proof fn lemma_first_with_quality_member(v: Seq<Chord>, quality: ChordQuality)
    ensures
        first_with_quality(v, quality) matches Some(c) ==> v.contains(c) && c.quality == quality,
    decreases v.len(),
{
    if v.len() > 0 && v[0].quality != quality {
        lemma_first_with_quality_member(v.drop_first(), quality);
        if let Some(c) = first_with_quality(v.drop_first(), quality) {
            let i = choose|i: int| 0 <= i < v.drop_first().len() && v.drop_first()[i] == c;
            assert(v[i + 1] == c);
        }
    } else if v.len() > 0 {
        assert(v[0] == v[0]);
    }
}

/// A transformation inside a mode never leaves it: whatever chord it lands
/// on is one of the mode's triads.
pub proof fn lemma_modal_stays_in_mode(valid: Seq<Chord>, c: Chord, t: Transform)
    ensures
        modal_apply(valid, c, t) matches Some(d) ==> valid.contains(d),
    decreases t,
{
    if valid.contains(c) {
        match t {
            Transform::Compound(ts) => {
                lemma_modal_all_stays_in_mode(valid, c, ts@);
            },
            _ => {
                let image = match t {
                    Transform::P => parallel(c),
                    Transform::R => relative(c),
                    _ => leading(c),
                };
                if let Some(x) = image {
                    lemma_first_with_root_member(valid, x.root);
                    lemma_first_with_quality_member(valid, x.quality);
                }
            },
        }
    }
}

/// P, R or L inside a mode: a chord outside the mode does not move; a
/// diminished or other non-major, non-minor chord does not move; a major or
/// minor chord of the mode goes to its image when the image is in the mode,
/// else to a chord of the mode on the image's root, else to one of the
/// image's quality, else it stays; and whatever it lands on is in the mode.
pub proof fn lemma_modal_basic_step(valid: Seq<Chord>, c: Chord, t: Transform)
    requires
        t == Transform::P || t == Transform::R || t == Transform::L,
    ensures
        !valid.contains(c) ==> modal_apply(valid, c, t) is None,
        valid.contains(c) && !is_major_or_minor(c) ==> modal_apply(valid, c, t) is None,
        valid.contains(c) && is_major_or_minor(c) ==> ({
            let image = nr_apply(c, t).unwrap();
            &&& nr_apply(c, t) is Some
            &&& valid.contains(image) ==> modal_apply(valid, c, t) == Some(image)
            &&& !valid.contains(image) && (exists|i: int| 0 <= i < valid.len() && valid[i].root == image.root)
                ==> (modal_apply(valid, c, t) matches Some(r) && valid.contains(r) && r.root == image.root)
            &&& !valid.contains(image) && !(exists|i: int| 0 <= i < valid.len() && valid[i].root == image.root)
                && (exists|i: int| 0 <= i < valid.len() && valid[i].quality == image.quality)
                ==> (modal_apply(valid, c, t) matches Some(r) && valid.contains(r) && r.quality
                == image.quality)
            &&& !valid.contains(image) && !(exists|i: int| 0 <= i < valid.len() && valid[i].root == image.root)
                && !(exists|i: int| 0 <= i < valid.len() && valid[i].quality == image.quality)
                ==> modal_apply(valid, c, t) == Some(c)
        }),
        modal_apply(valid, c, t) matches Some(r) ==> valid.contains(r),
{
    lemma_modal_stays_in_mode(valid, c, t);
    if valid.contains(c) && is_major_or_minor(c) {
        let image = nr_apply(c, t).unwrap();
        lemma_first_with_root_member(valid, image.root);
        lemma_first_with_quality_member(valid, image.quality);
        lemma_first_with_root_found(valid, image.root);
        lemma_first_with_quality_found(valid, image.quality);
    }
}

proof fn lemma_first_with_root_found(v: Seq<Chord>, root: PitchClass)
    ensures
        (exists|i: int| 0 <= i < v.len() && v[i].root == root) ==> first_with_root(v, root) is Some,
    decreases v.len(),
{
    if v.len() > 0 && v[0].root != root {
        lemma_first_with_root_found(v.drop_first(), root);
        if exists|i: int| 0 <= i < v.len() && v[i].root == root {
            let i = choose|i: int| 0 <= i < v.len() && v[i].root == root;
            assert(v.drop_first()[i - 1].root == root);
        }
    }
}

proof fn lemma_first_with_quality_found(v: Seq<Chord>, quality: ChordQuality)
    ensures
        (exists|i: int| 0 <= i < v.len() && v[i].quality == quality) ==> first_with_quality(v, quality) is Some,
    decreases v.len(),
{
    if v.len() > 0 && v[0].quality != quality {
        lemma_first_with_quality_found(v.drop_first(), quality);
        if exists|i: int| 0 <= i < v.len() && v[i].quality == quality {
            let i = choose|i: int| 0 <= i < v.len() && v[i].quality == quality;
            assert(v.drop_first()[i - 1].quality == quality);
        }
    }
}

/// A list of transformations inside a mode, from a chord of the mode, ends
/// on a chord of the mode.
pub proof fn lemma_modal_all_stays_in_mode(valid: Seq<Chord>, c: Chord, ts: Seq<Transform>)
    requires
        valid.contains(c),
    ensures
        modal_apply_all(valid, c, ts) matches Some(d) ==> valid.contains(d),
    decreases ts,
{
    if ts.len() > 0 {
        assert(decreases_to!(ts => ts[0]));
        lemma_modal_stays_in_mode(valid, c, ts[0]);
        if let Some(n) = modal_apply(valid, c, ts[0]) {
            lemma_modal_all_stays_in_mode(valid, n, ts.drop_first());
        }
    }
}

/// Structurally equal transformations act the same inside a mode.
pub proof fn lemma_same_transform_modal(valid: Seq<Chord>, c: Chord, a: Transform, b: Transform)
    requires
        same_transform(a, b),
    ensures
        modal_apply(valid, c, a) == modal_apply(valid, c, b),
    decreases a,
{
    match a {
        Transform::Compound(x) => {
            match b {
                Transform::Compound(y) => {
                    assert(decreases_to!(a => x@));
                    lemma_same_transforms_modal(valid, c, x@, y@);
                },
                _ => {},
            }
        },
        _ => {},
    }
}

/// Structurally equal lists act the same inside a mode.
pub proof fn lemma_same_transforms_modal(valid: Seq<Chord>, c: Chord, x: Seq<Transform>, y: Seq<Transform>)
    requires
        same_transforms(x, y),
    ensures
        modal_apply_all(valid, c, x) == modal_apply_all(valid, c, y),
    decreases x,
{
    if x.len() > 0 {
        lemma_same_transform_modal(valid, c, x[0], y[0]);
        match modal_apply(valid, c, x[0]) {
            Some(n) => lemma_same_transforms_modal(valid, n, x.drop_first(), y.drop_first()),
            None => {},
        }
    }
}

/// The chords visited by modal transformations applied one after another;
/// the walk stops at the first one that does not apply.
pub open spec fn modal_sequence(valid: Seq<Chord>, c: Chord, ts: Seq<Transform>) -> Seq<Chord>
    decreases ts.len(),
{
    if ts.len() == 0 {
        seq![c]
    } else {
        match modal_apply(valid, c, ts[0]) {
            Some(n) => seq![c] + modal_sequence(valid, n, ts.drop_first()),
            None => seq![c],
        }
    }
}

/// The continuation of a modal cycle from step `i`: the pattern applies
/// cyclically, a repeated chord is added and ends the walk, and at most
/// `max_length - i` further chords come.
pub open spec fn modal_cycle_from(
    valid: Seq<Chord>,
    pattern: Seq<Transform>,
    current: Chord,
    i: nat,
    max_length: nat,
    seen: Seq<Chord>,
) -> Seq<Chord>
    decreases max_length - i,
{
    if i >= max_length {
        seq![]
    } else {
        match modal_apply(valid, current, pattern[(i as int) % (pattern.len() as int)]) {
            Some(n) => if seen.contains(n) {
                seq![n]
            } else {
                seq![n] + modal_cycle_from(valid, pattern, n, i + 1, max_length, seen.push(n))
            },
            None => seq![],
        }
    }
}

/// The image of an item under a basic transformation inside a mode: items
/// whose triad is outside the mode do not transform; a result whose triad
/// leaves the mode is replaced by the item itself.
pub open spec fn modal_any<T: Transformable>(valid: Seq<Chord>, item: T, t: Transform) -> Option<T> {
    match item.triad_base() {
        None => item.basic_image(t),
        Some(u) => if !valid.contains(u) {
            None
        } else {
            match item.basic_image(t) {
                None => None,
                Some(result) => match result.triad_base() {
                    None => Some(result),
                    Some(rt) => if valid.contains(rt) || substitute(valid, rt, u) == rt {
                        Some(result)
                    } else {
                        Some(item)
                    },
                },
            }
        },
    }
}

/// The items visited by modal basic transformations applied one after
/// another; the walk stops at the first one that does not apply.
pub open spec fn modal_any_sequence<T: Transformable>(valid: Seq<Chord>, c: T, ts: Seq<Transform>) -> Seq<T>
    decreases ts.len(),
{
    if ts.len() == 0 {
        seq![c]
    } else {
        match modal_any(valid, c, ts[0]) {
            Some(n) => seq![c] + modal_any_sequence(valid, n, ts.drop_first()),
            None => seq![c],
        }
    }
}

/// The modal table entry of a triad of the mode.
spec fn modal_entry(valid: Seq<Chord>, k: u8) -> TransformMap {
    let c = keyed_triad(k);
    TransformMap {
        p: substitute(valid, parallel(c).unwrap(), c),
        r: substitute(valid, relative(c).unwrap(), c),
        l: substitute(valid, leading(c).unwrap(), c),
    }
}

/// Analysis of a mode's harmonic structure.
#[derive(Debug, Clone)]
pub struct ModalAnalysis {
    pub mode: Mode,
    pub tonic: PitchClass,
    pub chords: Vec<Chord>,
    /// I, IV and V.
    pub primary_chords: Vec<Chord>,
    /// ii, iii and vi.
    pub secondary_chords: Vec<Chord>,
    /// vii, then the degree that sets the mode apart, where there is one.
    pub characteristic_chords: Vec<Chord>,
}

/// The mode-defining chords: the seventh degree, then the fourth degree for
/// Lydian and Dorian or the seventh degree again for Mixolydian.
pub open spec fn characteristic_of(mode: Mode, chords: Seq<Chord>) -> Seq<Chord> {
    match mode {
        Mode::Lydian | Mode::Dorian => seq![chords[6], chords[3]],
        Mode::Mixolydian => seq![chords[6], chords[6]],
        _ => seq![chords[6]],
    }
}

/// Mode-constrained neo-Riemannian transformation engine: transformations
/// stay among the triads of a mode on a tonic.
pub struct ModalNeoRiemannian {
    mode: Mode,
    tonic: PitchClass,
    valid_chords: Vec<Chord>,
    base_transformer: NeoRiemannian,
    constrained_transformations: HashMap<u8, TransformMap>,
}

impl View for ModalNeoRiemannian {
    type V = (Mode, PitchClass);

    closed spec fn view(&self) -> (Mode, PitchClass) {
        (self.mode, self.tonic)
    }
}

/// The triads of a mode on a tonic.
pub open spec fn scale_triads(m: (Mode, PitchClass)) -> Seq<Chord> {
    m.0.triad_seq(m.1)
}

impl ModalNeoRiemannian {
    #[verifier::type_invariant]
    spec fn well_formed(self) -> bool {
        &&& self.valid_chords@ == self.mode.triad_seq(self.tonic)
        &&& forall|k: u8| #[trigger] self.constrained_transformations@.contains_key(k) <==> (k < 24
            && self.valid_chords@.contains(keyed_triad(k)))
        &&& forall|k: u8| #[trigger] self.constrained_transformations@.contains_key(k)
            ==> self.constrained_transformations@[k] == modal_entry(self.valid_chords@, k)
    }

    /// Create a transformer restricted to the triads of a mode on a tonic.
    pub fn new(mode: Mode, tonic: PitchClass) -> (r: Self)
        ensures
            r@ == (mode, tonic),
    {
        let valid_chords = mode.triads(tonic);
        let base_transformer = NeoRiemannian::new();
        let mut constrained_transformations: HashMap<u8, TransformMap> = HashMap::new();
        let mut i: usize = 0;
        while i < valid_chords.len()
            invariant
                valid_chords@ == mode.triad_seq(tonic),
                i <= valid_chords@.len(),
                forall|k: u8| #[trigger] constrained_transformations@.contains_key(k) <==> (k < 24
                    && valid_chords@.subrange(0, i as int).contains(keyed_triad(k))),
                forall|k: u8| #[trigger] constrained_transformations@.contains_key(k)
                    ==> constrained_transformations@[k] == modal_entry(valid_chords@, k),
            decreases valid_chords.len() - i,
        {
            let chord = valid_chords[i];
            let ghost before = constrained_transformations@;
            match base_transformer.entry(chord) {
                Some(base_transforms) => {
                    proof {
                        lemma_triad_key(chord);
                    }
                    let constrained_map = TransformMap {
                        p: Self::find_best_substitute(&valid_chords, base_transforms.p, chord),
                        r: Self::find_best_substitute(&valid_chords, base_transforms.r, chord),
                        l: Self::find_best_substitute(&valid_chords, base_transforms.l, chord),
                    };
                    let k = chord_key(&chord);
                    constrained_transformations.insert(k, constrained_map);
                    assert forall|k2: u8| #[trigger] constrained_transformations@.contains_key(k2) <==> (k2
                        < 24 && valid_chords@.subrange(0, i + 1).contains(keyed_triad(k2))) by {
                        if k2 < 24 && valid_chords@.subrange(0, i + 1).contains(keyed_triad(k2)) {
                            let j = choose|j: int| 0 <= j < i + 1 && #[trigger] valid_chords@.subrange(0, i + 1)[j]
                                == keyed_triad(k2);
                            if j < i {
                                assert(valid_chords@.subrange(0, i as int)[j] == keyed_triad(k2));
                            } else {
                                lemma_triad_key(keyed_triad(k2));
                                lemma_keyed_triad_injective(k2, k);
                            }
                        }
                        if before.contains_key(k2) {
                            let j = choose|j: int| 0 <= j < i && #[trigger] valid_chords@.subrange(0, i as int)[j]
                                == keyed_triad(k2);
                            assert(valid_chords@.subrange(0, i + 1)[j] == keyed_triad(k2));
                        }
                        if k2 == k {
                            assert(valid_chords@.subrange(0, i + 1)[i as int] == chord);
                        }
                    }
                },
                None => {
                    assert forall|k2: u8| #[trigger] constrained_transformations@.contains_key(k2) <==> (k2
                        < 24 && valid_chords@.subrange(0, i + 1).contains(keyed_triad(k2))) by {
                        if k2 < 24 && valid_chords@.subrange(0, i + 1).contains(keyed_triad(k2)) {
                            let j = choose|j: int| 0 <= j < i + 1 && #[trigger] valid_chords@.subrange(0, i + 1)[j]
                                == keyed_triad(k2);
                            if j < i {
                                assert(valid_chords@.subrange(0, i as int)[j] == keyed_triad(k2));
                            } else {
                                assert(is_major_or_minor(keyed_triad(k2)));
                            }
                        }
                        if before.contains_key(k2) {
                            let j = choose|j: int| 0 <= j < i && #[trigger] valid_chords@.subrange(0, i as int)[j]
                                == keyed_triad(k2);
                            assert(valid_chords@.subrange(0, i + 1)[j] == keyed_triad(k2));
                        }
                    }
                },
            }
            i = i + 1;
        }
        assert(valid_chords@.subrange(0, valid_chords@.len() as int) =~= valid_chords@);
        ModalNeoRiemannian { mode, tonic, valid_chords, base_transformer, constrained_transformations }
    }

    /// The chord used in place of a target outside the mode: the target if
    /// it is in the mode, else the first mode chord on the same root, else
    /// the first of the same quality, else the fallback.
    fn find_best_substitute(valid_chords: &Vec<Chord>, target: Chord, fallback: Chord) -> (r: Chord)
        ensures
            r == substitute(valid_chords@, target, fallback),
    {
        if chord_in(valid_chords, target) {
            return target;
        }
        let mut i: usize = 0;
        assert(valid_chords@.skip(0) =~= valid_chords@);
        while i < valid_chords.len()
            invariant
                i <= valid_chords@.len(),
                !valid_chords@.contains(target),
                first_with_root(valid_chords@, target.root) == first_with_root(
                    valid_chords@.skip(i as int),
                    target.root,
                ),
            decreases valid_chords.len() - i,
        {
            assert(valid_chords@.skip(i as int).drop_first() =~= valid_chords@.skip(i + 1));
            if valid_chords[i].root == target.root {
                assert(valid_chords@.skip(i as int)[0] == valid_chords@[i as int]);
                return valid_chords[i];
            }
            i = i + 1;
        }
        assert(valid_chords@.skip(i as int).len() == 0);
        let mut j: usize = 0;
        while j < valid_chords.len()
            invariant
                j <= valid_chords@.len(),
                !valid_chords@.contains(target),
                first_with_root(valid_chords@, target.root) is None,
                first_with_quality(valid_chords@, target.quality) == first_with_quality(
                    valid_chords@.skip(j as int),
                    target.quality,
                ),
            decreases valid_chords.len() - j,
        {
            assert(valid_chords@.skip(j as int).drop_first() =~= valid_chords@.skip(j + 1));
            if valid_chords[j].quality == target.quality {
                assert(valid_chords@.skip(j as int)[0] == valid_chords@[j as int]);
                return valid_chords[j];
            }
            j = j + 1;
        }
        assert(valid_chords@.skip(j as int).len() == 0);
        fallback
    }

    /// Apply a transformation inside the mode. Chords outside the mode do
    /// not transform; a target outside the mode is replaced by a substitute.
    pub fn transform(&self, chord: Chord, transform: &Transform) -> (r: Option<Chord>)
        ensures
            r == modal_apply(scale_triads(self@), chord, *transform),
        decreases transform,
    {
        proof {
            use_type_invariant(self);
        }
        if !chord_in(&self.valid_chords, chord) {
            return None;
        }
        match transform {
            Transform::Compound(transforms) => {
                let mut current = chord;
                let mut i: usize = 0;
                assert(transforms@.skip(0) =~= transforms@);
                while i < transforms.len()
                    invariant
                        *transform == Transform::Compound(*transforms),
                        i <= transforms@.len(),
                        modal_apply_all(scale_triads(self@), chord, transforms@) == modal_apply_all(
                            scale_triads(self@),
                            current,
                            transforms@.skip(i as int),
                        ),
                    decreases transforms.len() - i,
                {
                    assert(transforms@.skip(i as int).drop_first() =~= transforms@.skip(i + 1));
                    assert(decreases_to!(*transform => transforms@));
                    assert(decreases_to!(transforms@ => transforms@[i as int]));
                    match self.transform(current, &transforms[i]) {
                        Some(next) => current = next,
                        None => return None,
                    }
                    i = i + 1;
                }
                assert(transforms@.skip(i as int).len() == 0);
                Some(current)
            },
            _ => {
                if chord.quality == ChordQuality::Major || chord.quality == ChordQuality::Minor {
                    proof {
                        lemma_triad_key(chord);
                    }
                    let k = chord_key(&chord);
                    match self.constrained_transformations.get(&k) {
                        Some(t) => match transform {
                            Transform::P => Some(t.p),
                            Transform::R => Some(t.r),
                            _ => Some(t.l),
                        },
                        None => None,
                    }
                } else {
                    None
                }
            },
        }
    }

    /// Apply transformations one after another inside the mode, collecting
    /// every chord visited; the walk stops at the first one that fails.
    pub fn apply_sequence(&self, start: Chord, transforms: &[Transform]) -> (r: Vec<Chord>)
        ensures
            r@ == modal_sequence(scale_triads(self@), start, transforms@),
    {
        let ghost valid = scale_triads(self@);
        let mut result: Vec<Chord> = vec![start];
        let mut current = start;
        let mut i: usize = 0;
        assert(transforms@.skip(0) =~= transforms@);
        assert(result@.drop_last() + modal_sequence(valid, start, transforms@) =~= modal_sequence(
            valid,
            start,
            transforms@,
        ));
        while i < transforms.len()
            invariant
                valid == scale_triads(self@),
                i <= transforms@.len(),
                result@.len() >= 1,
                result@.last() == current,
                modal_sequence(valid, start, transforms@) == result@.drop_last() + modal_sequence(
                    valid,
                    current,
                    transforms@.skip(i as int),
                ),
            decreases transforms.len() - i,
        {
            let ghost before = result@;
            assert(transforms@.skip(i as int).drop_first() =~= transforms@.skip(i + 1));
            match self.transform(current, &transforms[i]) {
                Some(next) => {
                    result.push(next);
                    current = next;
                    assert(result@.drop_last() =~= before.drop_last() + seq![before.last()]);
                    assert(before.drop_last() + seq![before.last()] + modal_sequence(
                        valid,
                        next,
                        transforms@.skip(i + 1),
                    ) =~= before.drop_last() + (seq![before.last()] + modal_sequence(
                        valid,
                        next,
                        transforms@.skip(i + 1),
                    )));
                },
                None => {
                    assert(result@ =~= result@.drop_last() + seq![current]);
                    return result;
                },
            }
            i = i + 1;
        }
        assert(transforms@.skip(i as int).len() == 0);
        assert(result@ =~= result@.drop_last() + seq![current]);
        result
    }

    /// The chords of the mode (its seven triads, in degree order).
    pub fn valid_chords(&self) -> (r: &Vec<Chord>)
        ensures
            r@ == scale_triads(self@),
    {
        proof {
            use_type_invariant(self);
        }
        &self.valid_chords
    }

    /// The mode and tonic.
    pub fn mode_info(&self) -> (r: (Mode, PitchClass))
        ensures
            r == self@,
    {
        (self.mode, self.tonic)
    }

    /// Walk the pattern cyclically inside the mode for at most `max_length`
    /// steps; the first repeated chord is added and ends the walk, and so
    /// does a transformation that fails. The walk need not close.
    pub fn modal_cycle(&self, start: Chord, pattern: &[Transform], max_length: usize) -> (r: Vec<Chord>)
        requires
            max_length == 0 || pattern@.len() > 0,
        ensures
            r@ == seq![start] + modal_cycle_from(
                scale_triads(self@),
                pattern@,
                start,
                0,
                max_length as nat,
                seq![start],
            ),
    {
        let ghost valid = scale_triads(self@);
        let mut cycle: Vec<Chord> = vec![start];
        let mut current = start;
        let mut seen: Vec<Chord> = vec![start];
        let mut i: usize = 0;
        assert(cycle@ =~= seq![start]);
        assert(seen@ =~= seq![start]);
        while i < max_length
            invariant
                valid == scale_triads(self@),
                max_length == 0 || pattern@.len() > 0,
                i <= max_length,
                seq![start] + modal_cycle_from(valid, pattern@, start, 0, max_length as nat, seq![start])
                    == cycle@ + modal_cycle_from(valid, pattern@, current, i as nat, max_length as nat, seen@),
            decreases max_length - i,
        {
            let transform = &pattern[i % pattern.len()];
            match self.transform(current, transform) {
                Some(next) => {
                    if chord_in(&seen, next) {
                        cycle.push(next);
                        assert(cycle@ =~= cycle@.drop_last() + seq![next]);
                        return cycle;
                    }
                    let ghost before = cycle@;
                    let ghost before_seen = seen@;
                    cycle.push(next);
                    seen.push(next);
                    current = next;
                    assert(before + (seq![next] + modal_cycle_from(
                        valid,
                        pattern@,
                        next,
                        (i + 1) as nat,
                        max_length as nat,
                        before_seen.push(next),
                    )) =~= cycle@ + modal_cycle_from(
                        valid,
                        pattern@,
                        next,
                        (i + 1) as nat,
                        max_length as nat,
                        seen@,
                    ));
                },
                None => {
                    assert(cycle@ + seq![] =~= cycle@);
                    return cycle;
                },
            }
            i = i + 1;
        }
        assert(cycle@ + seq![] =~= cycle@);
        cycle
    }

    /// The mode's chords grouped by harmonic function.
    pub fn analyze_mode(&self) -> (r: ModalAnalysis)
        ensures
            r.mode == self@.0,
            r.tonic == self@.1,
            r.chords@ == scale_triads(self@),
            r.primary_chords@ == seq![scale_triads(self@)[0], scale_triads(self@)[3], scale_triads(self@)[4]],
            r.secondary_chords@ == seq![scale_triads(self@)[1], scale_triads(self@)[2], scale_triads(self@)[5]],
            r.characteristic_chords@ == characteristic_of(self@.0, scale_triads(self@)),
    {
        let chords = self.mode.triads(self.tonic);
        let mut primary_chords: Vec<Chord> = Vec::new();
        let mut secondary_chords: Vec<Chord> = Vec::new();
        let mut characteristic_chords: Vec<Chord> = Vec::new();
        primary_chords.push(chords[0]);
        secondary_chords.push(chords[1]);
        secondary_chords.push(chords[2]);
        primary_chords.push(chords[3]);
        primary_chords.push(chords[4]);
        secondary_chords.push(chords[5]);
        characteristic_chords.push(chords[6]);
        match self.mode {
            Mode::Lydian => characteristic_chords.push(chords[3]),
            Mode::Mixolydian => characteristic_chords.push(chords[6]),
            Mode::Dorian => characteristic_chords.push(chords[3]),
            _ => {},
        }
        assert(primary_chords@ =~= seq![chords@[0], chords@[3], chords@[4]]);
        assert(secondary_chords@ =~= seq![chords@[1], chords@[2], chords@[5]]);
        assert(characteristic_chords@ =~= characteristic_of(self.mode, chords@));
        ModalAnalysis {
            mode: self.mode,
            tonic: self.tonic,
            chords,
            primary_chords,
            secondary_chords,
            characteristic_chords,
        }
    }

    /// Transform any transformable item inside the mode: its triad must be
    /// in the mode; when the result's triad leaves the mode, the item stays.
    pub fn transform_any<T: Transformable>(&self, item: T, transform: &Transform) -> (r: Option<T>)
        ensures
            r == modal_any(scale_triads(self@), item, *transform),
    {
        proof {
            use_type_invariant(self);
        }
        let original_underlying = match item.underlying_triad() {
            Some(underlying) => {
                if !chord_in(&self.valid_chords, underlying) {
                    return None;
                }
                underlying
            },
            None => return item.transform_basic(transform),
        };
        let result = match item.transform_basic(transform) {
            Some(r) => r,
            None => return None,
        };
        match result.underlying_triad() {
            Some(result_triad) => {
                if chord_in(&self.valid_chords, result_triad) {
                    Some(result)
                } else {
                    let substitute = Self::find_best_substitute(
                        &self.valid_chords,
                        result_triad,
                        original_underlying,
                    );
                    if substitute == result_triad {
                        Some(result)
                    } else {
                        Some(item)
                    }
                }
            },
            None => Some(result),
        }
    }

    /// Apply basic transformations one after another to any transformable
    /// item inside the mode; the walk stops at the first one that fails.
    pub fn apply_sequence_any<T: Transformable>(&self, start: T, transforms: &[Transform]) -> (r: Vec<T>)
        ensures
            r@ == modal_any_sequence(scale_triads(self@), start, transforms@),
    {
        let ghost valid = scale_triads(self@);
        let mut result: Vec<T> = vec![start];
        let mut current = start;
        let mut i: usize = 0;
        assert(transforms@.skip(0) =~= transforms@);
        assert(result@.drop_last() + modal_any_sequence(valid, start, transforms@) =~= modal_any_sequence(
            valid,
            start,
            transforms@,
        ));
        while i < transforms.len()
            invariant
                valid == scale_triads(self@),
                i <= transforms@.len(),
                result@.len() >= 1,
                result@.last() == current,
                modal_any_sequence(valid, start, transforms@) == result@.drop_last()
                    + modal_any_sequence(valid, current, transforms@.skip(i as int)),
            decreases transforms.len() - i,
        {
            let ghost before = result@;
            assert(transforms@.skip(i as int).drop_first() =~= transforms@.skip(i + 1));
            match self.transform_any(current, &transforms[i]) {
                Some(next) => {
                    result.push(next);
                    current = next;
                    assert(result@.drop_last() =~= before.drop_last() + seq![before.last()]);
                    assert(before.drop_last() + seq![before.last()] + modal_any_sequence(
                        valid,
                        next,
                        transforms@.skip(i + 1),
                    ) =~= before.drop_last() + (seq![before.last()] + modal_any_sequence(
                        valid,
                        next,
                        transforms@.skip(i + 1),
                    )));
                },
                None => {
                    assert(result@ =~= result@.drop_last() + seq![current]);
                    return result;
                },
            }
            i = i + 1;
        }
        assert(transforms@.skip(i as int).len() == 0);
        assert(result@ =~= result@.drop_last() + seq![current]);
        result
    }
}

/// Distinct keys name distinct triads.
pub proof fn lemma_keyed_triad_injective(a: u8, b: u8)
    requires
        a < 24,
        b < 24,
        keyed_triad(a) == keyed_triad(b),
    ensures
        a == b,
{
    crate::core_types::lemma_semitone_of((a / 2) as int);
    crate::core_types::lemma_semitone_of((b / 2) as int);
}

/// The other of major and minor.
pub open spec fn other_mode(q: ChordQuality) -> ChordQuality {
    if q == ChordQuality::Major {
        ChordQuality::Minor
    } else {
        ChordQuality::Major
    }
}

/// The chord at step `k` of a walk that alternates two moves from `c`: the
/// first moves the root by `e` and switches the mode, the second moves it by
/// `d - e` and switches back.
pub open spec fn alternating_chord(c: Chord, e: int, d: int, k: int) -> Chord {
    if k % 2 == 0 {
        Chord { root: c.root.shifted((k / 2) * d), quality: c.quality }
    } else {
        Chord { root: c.root.shifted((k / 2) * d + e), quality: other_mode(c.quality) }
    }
}

/// A walk with a pattern of two moves that each act uniformly on the roots
/// visits exactly the chords of `alternating_chord`.
proof fn lemma_alternating_walk(c: Chord, a: Transform, b: Transform, e: int, d: int, k: nat)
    requires
        forall|x: PitchClass|
            nr_apply(Chord { root: x, quality: c.quality }, a) == Some(
                Chord { root: x.shifted(e), quality: other_mode(c.quality) },
            ),
        forall|x: PitchClass|
            nr_apply(Chord { root: x, quality: other_mode(c.quality) }, b) == Some(
                Chord { root: x.shifted(d - e), quality: c.quality },
            ),
        c.root.shifted(0) == c.root,
    ensures
        pattern_walk(c, seq![a, b], k) == Some(
            Seq::new(k + 1, |i: int| alternating_chord(c, e, d, i)),
        ),
    decreases k,
{
    let p = seq![a, b];
    if k == 0 {
        assert((0int / 2) * d == 0) by (nonlinear_arith);
        assert(alternating_chord(c, e, d, 0) == c);
        assert(Seq::new(1, |i: int| alternating_chord(c, e, d, i)) =~= seq![c]);
    } else {
        lemma_alternating_walk(c, a, b, e, d, (k - 1) as nat);
        let prev = Seq::new(k as nat, |i: int| alternating_chord(c, e, d, i));
        let last = alternating_chord(c, e, d, k - 1);
        assert(prev.last() == last);
        let h = (k - 1) / 2;
        if (k - 1) % 2 == 0 {
            assert(p[(k - 1) % 2] == a);
            crate::core_types::lemma_transpose_compose(c.root, h * d, e);
            assert(k / 2 == h);
        } else {
            assert(p[(k - 1) % 2] == b);
            crate::core_types::lemma_transpose_compose(c.root, h * d + e, d - e);
            assert(k / 2 == h + 1);
            assert((h + 1) * d == h * d + d) by (nonlinear_arith);
        }
        assert(prev.push(alternating_chord(c, e, d, k as int)) =~= Seq::new(
            k + 1,
            |i: int| alternating_chord(c, e, d, i),
        ));
    }
}

/// The chords of an alternating walk at even steps `2i` and `2j` below six
/// are different when `i != j` and `d` moves the root off itself in one
/// and two steps.
#[verifier::spinoff_prover]
#[verifier::rlimit(40)]
proof fn lemma_alternating_distinct(c: Chord, e: int, d: int)
    requires
        d % 12 != 0,
        (2 * d) % 12 != 0,
    ensures
        forall|i: int, j: int|
            0 <= i < j < 6 ==> alternating_chord(c, e, d, i) != alternating_chord(c, e, d, j),
{
    assert forall|i: int, j: int| 0 <= i < j < 6 implies alternating_chord(c, e, d, i)
        != alternating_chord(c, e, d, j) by {
        if i % 2 == j % 2 {
            let off = if i % 2 == 0 { 0 } else { e };
            crate::core_types::lemma_shift_same(c.root, (i / 2) * d + off, (j / 2) * d + off);
            assert(j / 2 - i / 2 == 1 || j / 2 - i / 2 == 2);
            if j / 2 - i / 2 == 1 {
                assert((j / 2) * d - (i / 2) * d == d) by (nonlinear_arith)
                    requires j / 2 - i / 2 == 1;
            } else {
                assert((j / 2) * d - (i / 2) * d == 2 * d) by (nonlinear_arith)
                    requires j / 2 - i / 2 == 2;
            }
        } else {
            assert(other_mode(c.quality) != c.quality);
        }
    }
}

/// The Northern (PL) hexatonic cycle: from every major or minor triad, six
/// alternating P and L moves visit six different triads and come back.
pub proof fn lemma_northern_cycle_closes(c: Chord)
    requires
        is_major_or_minor(c),
    ensures
        hexatonic_spec(c, seq![Transform::P, Transform::L]) matches Some(cycle) && cycle.len() == 6
            && cycle[0] == c && (forall|i: int, j: int|
            0 <= i < j < 6 ==> cycle[i] != cycle[j]),
{
    let d: int = if c.quality == ChordQuality::Major { 8 } else { 4 };
    assert forall|x: PitchClass|
        nr_apply(Chord { root: x, quality: c.quality }, Transform::P) == Some(
            Chord { root: x.shifted(0), quality: other_mode(c.quality) },
        ) by {
        crate::core_types::lemma_transpose_octave(x);
    }
    crate::core_types::lemma_transpose_octave(c.root);
    lemma_alternating_walk(c, Transform::P, Transform::L, 0, d, 6);
    let w = Seq::new(7, |i: int| alternating_chord(c, 0, d, i));
    crate::core_types::lemma_shift_same(c.root, 3 * d, 0);
    assert(w[6] == c);
    lemma_alternating_distinct(c, 0, d);
    let cycle = w.subrange(0, 6);
    assert forall|i: int, j: int| 0 <= i < j < 6 implies cycle[i] != cycle[j] by {
        assert(cycle[i] == alternating_chord(c, 0, d, i));
        assert(cycle[j] == alternating_chord(c, 0, d, j));
    }
}

/// The Western (PR) and Eastern (LR) patterns never return to their start
/// after six moves, so they give no six-chord hexatonic cycle; their own
/// cycles are longer (see `lemma_western_eastern_cycles`).
pub proof fn lemma_western_eastern_do_not_close(c: Chord)
    requires
        is_major_or_minor(c),
    ensures
        hexatonic_spec(c, seq![Transform::P, Transform::R]) is None,
        hexatonic_spec(c, seq![Transform::L, Transform::R]) is None,
{
    let major = c.quality == ChordQuality::Major;
    crate::core_types::lemma_transpose_octave(c.root);
    assert forall|x: PitchClass|
        nr_apply(Chord { root: x, quality: c.quality }, Transform::P) == Some(
            Chord { root: x.shifted(0), quality: other_mode(c.quality) },
        ) by {
        crate::core_types::lemma_transpose_octave(x);
    }
    let dw: int = if major { 3 } else { 9 };
    lemma_alternating_walk(c, Transform::P, Transform::R, 0, dw, 6);
    crate::core_types::lemma_shift_same(c.root, 3 * dw, 0);
    let el: int = if major { 4 } else { 8 };
    let de: int = if major { 7 } else { 17 };
    lemma_alternating_walk(c, Transform::L, Transform::R, el, de, 6);
    crate::core_types::lemma_shift_same(c.root, 3 * de, 0);
}

/// A walk by two uniformly acting moves that first comes back to its start
/// at step `m` closes there, with the `m` chords it visited.
proof fn lemma_alternating_closes(c: Chord, a: Transform, b: Transform, e: int, d: int, m: nat, k: nat)
    requires
        forall|x: PitchClass|
            nr_apply(Chord { root: x, quality: c.quality }, a) == Some(
                Chord { root: x.shifted(e), quality: other_mode(c.quality) },
            ),
        forall|x: PitchClass|
            nr_apply(Chord { root: x, quality: other_mode(c.quality) }, b) == Some(
                Chord { root: x.shifted(d - e), quality: c.quality },
            ),
        c.root.shifted(0) == c.root,
        1 <= k <= m <= 24,
        forall|i: int| 1 <= i < m ==> #[trigger] alternating_chord(c, e, d, i) != c,
        alternating_chord(c, e, d, m as int) == c,
    ensures
        closing_from(c, seq![a, b], k) == Some(Seq::new(m, |i: int| alternating_chord(c, e, d, i))),
    decreases m - k,
{
    lemma_alternating_walk(c, a, b, e, d, k);
    let w = Seq::new(k + 1, |i: int| alternating_chord(c, e, d, i));
    assert(w[k as int] == alternating_chord(c, e, d, k as int));
    if k < m {
        lemma_alternating_closes(c, a, b, e, d, m, k + 1);
    } else {
        assert(w.subrange(0, m as int) =~= Seq::new(m, |i: int| alternating_chord(c, e, d, i)));
    }
}

/// The Western (PR) pattern, walked from any major or minor triad, comes
/// back after eight chords, all different; the Eastern (LR) pattern comes
/// back after all 24 triads, all different.
pub proof fn lemma_western_eastern_cycles(c: Chord)
    requires
        is_major_or_minor(c),
    ensures
        closed_cycle_spec(c, seq![Transform::P, Transform::R]) matches Some(w) && w.len() == 8 && w[0] == c
            && (forall|i: int, j: int| 0 <= i < j < 8 ==> w[i] != w[j]),
        closed_cycle_spec(c, seq![Transform::L, Transform::R]) matches Some(w) && w.len() == 24 && w[0] == c
            && (forall|i: int, j: int| 0 <= i < j < 24 ==> w[i] != w[j]),
{
    let major = c.quality == ChordQuality::Major;
    crate::core_types::lemma_transpose_octave(c.root);
    assert forall|x: PitchClass|
        nr_apply(Chord { root: x, quality: c.quality }, Transform::P) == Some(
            Chord { root: x.shifted(0), quality: other_mode(c.quality) },
        ) by {
        crate::core_types::lemma_transpose_octave(x);
    }
    assert(other_mode(c.quality) != c.quality);
    let dw: int = if major { 3 } else { 9 };
    assert forall|i: int, j: int| 0 <= i < j <= 8 && !(i == 0 && j == 8) implies
        #[trigger] alternating_chord(c, 0, dw, i) != #[trigger] alternating_chord(c, 0, dw, j) by {
        if i % 2 == j % 2 {
            crate::core_types::lemma_shift_same(c.root, (i / 2) * dw, (j / 2) * dw);
            assert(1 <= j / 2 - i / 2 <= 3);
            if major {
                assert((j / 2) * 3 - (i / 2) * 3 == (j / 2 - i / 2) * 3);
            } else {
                assert((j / 2) * 9 - (i / 2) * 9 == (j / 2 - i / 2) * 9);
            }
        }
    }
    crate::core_types::lemma_shift_same(c.root, 4 * dw, 0);
    assert forall|i: int| 1 <= i < 8 implies #[trigger] alternating_chord(c, 0, dw, i) != c by {
        assert(alternating_chord(c, 0, dw, 0) == c);
    }
    lemma_alternating_closes(c, Transform::P, Transform::R, 0, dw, 8, 1);
    let de: int = if major { 7 } else { 17 };
    let el: int = if major { 4 } else { 8 };
    assert forall|i: int, j: int| 0 <= i < j <= 24 && !(i == 0 && j == 24) implies
        #[trigger] alternating_chord(c, el, de, i) != #[trigger] alternating_chord(c, el, de, j) by {
        if i % 2 == j % 2 {
            let off = if i % 2 == 0 { 0 } else { el };
            crate::core_types::lemma_shift_same(c.root, (i / 2) * de + off, (j / 2) * de + off);
            let t = j / 2 - i / 2;
            assert(1 <= t <= 11);
            if major {
                assert((j / 2) * 7 - (i / 2) * 7 == t * 7);
                assert(t == 1 || t == 2 || t == 3 || t == 4 || t == 5 || t == 6 || t == 7 || t == 8 || t == 9
                    || t == 10 || t == 11);
            } else {
                assert((j / 2) * 17 - (i / 2) * 17 == t * 17);
                assert(t == 1 || t == 2 || t == 3 || t == 4 || t == 5 || t == 6 || t == 7 || t == 8 || t == 9
                    || t == 10 || t == 11);
            }
        }
    }
    crate::core_types::lemma_shift_same(c.root, 12 * de, 0);
    assert forall|i: int| 1 <= i < 24 implies #[trigger] alternating_chord(c, el, de, i) != c by {
        assert(alternating_chord(c, el, de, 0) == c);
    }
    lemma_alternating_closes(c, Transform::L, Transform::R, el, de, 24, 1);
}

/// A compound transformation of two steps is its steps applied in order.
pub proof fn lemma_compound_is_sequential(c: Chord, a: Transform, b: Transform, v: Vec<Transform>)
    requires
        v@ == seq![a, b],
    ensures
        nr_apply(c, Transform::Compound(v)) == match nr_apply(c, a) {
            Some(x) => nr_apply(x, b),
            None => None,
        },
{
    let s = v@;
    assert(nr_apply(c, Transform::Compound(v)) == nr_apply_all(c, s));
    assert(s[0] == a);
    assert(s.drop_first() =~= seq![b]);
    assert(seq![b].drop_first() =~= Seq::<Transform>::empty());
    match nr_apply(c, a) {
        Some(x) => {
            assert(nr_apply_all(c, s) == nr_apply_all(x, seq![b]));
            match nr_apply(x, b) {
                Some(y) => {
                    assert(nr_apply_all(x, seq![b]) == nr_apply_all(y, Seq::<Transform>::empty()));
                },
                None => {},
            }
        },
        None => {},
    }
}

} // verus!
