//! Planning an algorithmic composition: how many bars it takes and which
//! chord sounds in each.

use vstd::prelude::*;

use crate::core_types::{Chord, Mode, PitchClass};
use crate::generation::{lemma_progression_same, progression_spec, ProgressionBuilder};
use crate::harmony::TypedHarmonicPattern;
use crate::theory::Transform;

verus! {

/// Bars rounded up for musical structure: at least 16, then 32, then the
/// next multiple of 16.
pub open spec fn aligned_bars(bars: nat) -> nat {
    if bars <= 16 {
        16
    } else if bars <= 32 {
        32
    } else {
        (((bars + 15) / 16) * 16) as nat
    }
}

/// Round a bar count up to 16 bars at least, 32 for medium lengths, or the
/// next multiple of 16 for longer pieces.
pub fn calculate_aligned_bars(bars: usize) -> (r: usize)
    requires
        bars <= usize::MAX - 15,
    ensures
        r == aligned_bars(bars as nat),
        r % 16 == 0,
        r >= bars,
        r >= 16,
        r == 16 || r < bars + 16,
{
    if bars <= 16 {
        16
    } else if bars <= 32 {
        32
    } else {
        let q = (bars + 15) / 16;
        proof {
            vstd::arithmetic::div_mod::lemma_fundamental_div_mod((bars + 15) as int, 16);
            vstd::arithmetic::div_mod::lemma_mod_pos_bound((bars + 15) as int, 16);
            vstd::arithmetic::div_mod::lemma_mod_multiples_basic(q as int, 16);
            vstd::arithmetic::mul::lemma_mul_is_commutative(q as int, 16);
        }
        q * 16
    }
}

/// The mode and tonic of a pattern when it has both.
pub open spec fn pattern_mode(mode: Option<Mode>, tonic: Option<PitchClass>) -> Option<(Mode, PitchClass)> {
    match (mode, tonic) {
        (Some(m), Some(t)) => Some((m, t)),
        _ => None,
    }
}

/// The chords of a composition of `bars` bars, one a bar: the pattern's
/// progression is built for whole repetitions of the pattern (its
/// transformations plus the start chord) covering the aligned bars,
/// returning to the start when asked or when the repetitions do not fill
/// the bars exactly, and cut to the aligned bars.
pub open spec fn composition_chords(
    start: Chord,
    pattern: Seq<Transform>,
    mode: Option<Mode>,
    tonic: Option<PitchClass>,
    return_to_start: bool,
    bars: nat,
) -> Seq<Chord> {
    let aligned = aligned_bars(bars);
    let per_pattern = pattern.len() + 1;
    let repetitions = (aligned + per_pattern - 1) / (per_pattern as int);
    progression_spec(
        start,
        pattern,
        (per_pattern * repetitions) as nat,
        return_to_start || (aligned as int) % (per_pattern as int) != 0,
        pattern_mode(mode, tonic),
    ).take(aligned as int)
}

/// The chord progression of a composition, one chord a bar.
pub fn plan_progression(harmony: &TypedHarmonicPattern, bars: usize) -> (r: Vec<Chord>)
    requires
        bars <= usize::MAX - 15,
        aligned_bars(bars as nat) + harmony.transformations@.len() + 1 <= usize::MAX,
    ensures
        r@.len() == aligned_bars(bars as nat),
        r@ == composition_chords(
            harmony.start_chord,
            harmony.transformations@,
            harmony.mode,
            harmony.tonic,
            harmony.return_to_start,
            bars as nat,
        ),
{
    let aligned = calculate_aligned_bars(bars);
    let per_pattern = harmony.transformations.len() + 1;
    let repetitions = (aligned + per_pattern - 1) / per_pattern;
    proof {
        let a = aligned as int;
        let c = per_pattern as int;
        vstd::arithmetic::div_mod::lemma_fundamental_div_mod(a + c - 1, c);
        vstd::arithmetic::div_mod::lemma_mod_pos_bound(a + c - 1, c);
        vstd::arithmetic::mul::lemma_mul_is_commutative(c, (a + c - 1) / c);
    }
    let length = per_pattern * repetitions;
    let mut builder = ProgressionBuilder::new().start(harmony.start_chord).pattern(
        harmony.transformations.as_slice(),
    ).length(length);
    if let (Some(mode), Some(tonic)) = (harmony.mode, harmony.tonic) {
        builder = builder.with_mode(mode, tonic);
    }
    if harmony.return_to_start || aligned % per_pattern != 0 {
        builder = builder.with_return();
    }
    let progression = builder.build();
    proof {
        lemma_progression_same(
            harmony.start_chord,
            builder.pattern_view(),
            harmony.transformations@,
            length as nat,
            builder.returns_view(),
            builder.mode_view(),
        );
    }
    let mut out: Vec<Chord> = Vec::new();
    let mut i: usize = 0;
    while i < aligned
        invariant
            i <= aligned,
            aligned <= progression@.len(),
            out@ == progression@.take(i as int),
        decreases aligned - i,
    {
        out.push(progression[i]);
        i = i + 1;
        assert(out@ =~= progression@.take(i as int));
    }
    out
}

/// The tempo of a generated piece: the one asked for, else the rhythm
/// pattern's hint, else the harmony's hint, else 120.
pub fn resolve_tempo_with_hints(tempo: Option<u16>, rhythm_hint: Option<u16>, harmony_hint: Option<u16>) -> (r: u16)
    ensures
        r == match tempo {
            Some(t) => t,
            None => match rhythm_hint {
                Some(t) => t,
                None => match harmony_hint {
                    Some(t) => t,
                    None => 120,
                },
            },
        },
{
    match tempo {
        Some(t) => t,
        None => match rhythm_hint {
            Some(t) => t,
            None => match harmony_hint {
                Some(t) => t,
                None => 120,
            },
        },
    }
}

} // verus!
