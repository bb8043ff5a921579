//! Blending two transformation sequences. How far the blend has gone is a
//! fraction, and the draw against it is random; both stay with the
//! program. Given the outcome of the draw, which transformation comes next
//! is decided here.

use vstd::prelude::*;

use crate::theory::{same_transform, Transform};

verus! {

/// How two harmonic patterns are blended.
#[derive(Debug, Clone, Copy, PartialEq, Eq)]
pub enum HarmonyInterpolationMethod {
    /// Each step comes from one pattern or the other, by chance.
    Probabilistic,
    /// Each step prefers the first pattern, by chance, while it has steps.
    Sequential,
    /// Steps chosen for smooth voice leading; for now as `Sequential`.
    HarmonicallySmooth,
}

/// The step of a repeating sequence at a position, if it has any steps.
pub open spec fn cyclic_step(ts: Seq<Transform>, position: int) -> Option<Transform> {
    if ts.len() == 0 {
        None
    } else {
        Some(ts[position % (ts.len() as int)])
    }
}

/// Same result, up to the structure of a transformation.
pub open spec fn same_pick(r: Option<Transform>, expected: Option<Transform>) -> bool {
    match expected {
        None => r is None,
        Some(t) => r matches Some(x) && same_transform(x, t),
    }
}

/// The step of a sequential blend: the first pattern when preferred and
/// not empty, else the second when not empty, else the first.
pub open spec fn sequential_step(
    a: Seq<Transform>,
    b: Seq<Transform>,
    position: int,
    prefer_a: bool,
) -> Option<Transform> {
    if prefer_a && a.len() > 0 {
        cyclic_step(a, position)
    } else if b.len() > 0 {
        cyclic_step(b, position)
    } else {
        cyclic_step(a, position)
    }
}

/// The step of a repeating sequence at a position, copied.
fn cyclic_pick(ts: &Vec<Transform>, position: usize) -> (r: Option<Transform>)
    ensures
        same_pick(r, cyclic_step(ts@, position as int)),
{
    if ts.len() == 0 {
        None
    } else {
        Some(ts[position % ts.len()].clone())
    }
}

/// A probabilistic blend: the step at the position of the second pattern
/// when the draw chose it, of the first otherwise.
pub fn probabilistic_pick(
    a: &Vec<Transform>,
    b: &Vec<Transform>,
    position: usize,
    use_b: bool,
) -> (r: Option<Transform>)
    ensures
        same_pick(r, cyclic_step(if use_b { b@ } else { a@ }, position as int)),
{
    if use_b {
        cyclic_pick(b, position)
    } else {
        cyclic_pick(a, position)
    }
}

/// A sequential blend: the first pattern's step when the draw preferred
/// it and it has steps, else the second's, else the first's; nothing when
/// both are empty.
pub fn sequential_pick(
    a: &Vec<Transform>,
    b: &Vec<Transform>,
    position: usize,
    prefer_a: bool,
) -> (r: Option<Transform>)
    ensures
        same_pick(r, sequential_step(a@, b@, position as int, prefer_a)),
{
    if prefer_a && a.len() > 0 {
        cyclic_pick(a, position)
    } else if b.len() > 0 {
        cyclic_pick(b, position)
    } else {
        cyclic_pick(a, position)
    }
}

/// The next step of a blend by the given method. `coin` is the outcome of
/// the draw: for `Probabilistic` that the second pattern was drawn, for
/// the others that the first pattern was preferred.
pub fn blend_pick(
    method: HarmonyInterpolationMethod,
    a: &Vec<Transform>,
    b: &Vec<Transform>,
    position: usize,
    coin: bool,
) -> (r: Option<Transform>)
    ensures
        method == HarmonyInterpolationMethod::Probabilistic ==> same_pick(
            r,
            cyclic_step(if coin { b@ } else { a@ }, position as int),
        ),
        method != HarmonyInterpolationMethod::Probabilistic ==> same_pick(
            r,
            sequential_step(a@, b@, position as int, coin),
        ),
{
    match method {
        HarmonyInterpolationMethod::Probabilistic => probabilistic_pick(a, b, position, coin),
        HarmonyInterpolationMethod::Sequential => sequential_pick(a, b, position, coin),
        HarmonyInterpolationMethod::HarmonicallySmooth => sequential_pick(a, b, position, coin),
    }
}

} // verus!
