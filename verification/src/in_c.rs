//! Decisions of an "In C" ensemble: where the players stand together, and
//! when the piece is over. The players' own choices are drawn at random
//! and in fractions, and belong to the program.

use vstd::prelude::*;
use vstd::relations::{sorted_by, total_ordering};

verus! {

broadcast use vstd::seq_lib::group_to_multiset_ensures;

/// The last pattern of the piece.
pub const LAST_PATTERN: usize = 53;

/// Ascending order of pattern numbers.
pub open spec fn ascending() -> spec_fn(usize, usize) -> bool {
    |a: usize, b: usize| a <= b
}

/// The patterns of the players who are playing (not listening), in
/// order; each player is its pattern and whether it listens.
pub open spec fn playing_patterns(p: Seq<(usize, bool)>) -> Seq<usize>
    decreases p.len(),
{
    if p.len() == 0 {
        seq![]
    } else if p.last().1 {
        playing_patterns(p.drop_last())
    } else {
        playing_patterns(p.drop_last()).push(p.last().0)
    }
}

/// The median pattern of the players who play: the one at the middle
/// position (the upper of two) once sorted; 1 when nobody plays.
pub open spec fn median_spec(p: Seq<(usize, bool)>) -> usize {
    let playing = playing_patterns(p);
    if playing.len() == 0 {
        1
    } else {
        playing.sort_by(ascending())[(playing.len() / 2) as int]
    }
}

/// Ascending order is a total order.
pub proof fn lemma_ascending_total()
    ensures
        total_ordering(ascending()),
{
    let f = ascending();
    assert(vstd::relations::reflexive(f));
    assert(vstd::relations::antisymmetric(f));
    assert(vstd::relations::transitive(f));
    assert(vstd::relations::strongly_connected(f));
}

/// The same numbers in ascending order.
fn sorted_copy(v: &Vec<usize>) -> (r: Vec<usize>)
    ensures
        r@.to_multiset() == v@.to_multiset(),
        sorted_by(r@, ascending()),
{
    let mut out: Vec<usize> = Vec::new();
    let mut i: usize = 0;
    while i < v.len()
        invariant
            i <= v@.len(),
            out@.to_multiset() == v@.take(i as int).to_multiset(),
            forall|a: int, b: int| 0 <= a < b < out@.len() ==> out@[a] <= out@[b],
        decreases v.len() - i,
    {
        let x = v[i];
        let mut k: usize = 0;
        while k < out.len() && out[k] <= x
            invariant
                k <= out@.len(),
                forall|a: int| 0 <= a < k ==> out@[a] <= x,
            decreases out.len() - k,
        {
            k = k + 1;
        }
        let ghost before = out@;
        out.insert(k, x);
        assert(out@ == before.insert(k as int, x));
        assert(v@.take(i + 1) =~= v@.take(i as int).push(x));
        assert forall|a: int, b: int| 0 <= a < b < out@.len() implies out@[a] <= out@[b] by {
            if b < k {
            } else if a < k && b == k {
            } else if a < k && b > k {
                assert(out@[b] == before[b - 1]);
            } else if a == k {
                assert(out@[b] == before[b - 1]);
                assert(k < before.len());
                assert(before[k as int] > x);
                assert(before[k as int] <= before[b - 1] || k == b - 1);
            } else {
                assert(out@[a] == before[a - 1]);
                assert(out@[b] == before[b - 1]);
            }
        }
        i = i + 1;
    }
    assert(v@.take(i as int) =~= v@);
    assert forall|a: int, b: int| 0 <= a < b < out@.len() implies #[trigger] (ascending())(
        out@[a],
        out@[b],
    ) by {}
    out
}

/// The patterns of the players who play, in order.
fn playing_of(performers: &[(usize, bool)]) -> (r: Vec<usize>)
    ensures
        r@ == playing_patterns(performers@),
{
    let mut out: Vec<usize> = Vec::new();
    let mut i: usize = 0;
    while i < performers.len()
        invariant
            i <= performers@.len(),
            out@ == playing_patterns(performers@.take(i as int)),
        decreases performers.len() - i,
    {
        assert(performers@.take(i + 1).drop_last() =~= performers@.take(i as int));
        let (pattern, listening) = performers[i];
        if !listening {
            out.push(pattern);
        }
        i = i + 1;
    }
    assert(performers@.take(i as int) =~= performers@);
    out
}

/// The median pattern of the ensemble, among the players who play (each
/// player given as its pattern and whether it listens); 1 when nobody
/// plays.
pub fn ensemble_median(performers: &[(usize, bool)]) -> (r: usize)
    ensures
        r == median_spec(performers@),
{
    let playing = playing_of(performers);
    if playing.len() == 0 {
        return 1;
    }
    let sorted = sorted_copy(&playing);
    proof {
        lemma_ascending_total();
        playing@.lemma_sort_by_ensures(ascending());
        vstd::seq_lib::lemma_sorted_unique(sorted@, playing@.sort_by(ascending()), ascending());
    }
    assert(sorted@.len() == playing@.len()) by {
        assert(sorted@.to_multiset().len() == playing@.to_multiset().len());
    }
    sorted[playing.len() / 2]
}

/// Whether every player has reached the last pattern.
pub fn all_at_last_pattern(patterns: &[usize]) -> (r: bool)
    ensures
        r == (forall|i: int| 0 <= i < patterns@.len() ==> #[trigger] patterns@[i] == LAST_PATTERN),
{
    let mut i: usize = 0;
    while i < patterns.len()
        invariant
            i <= patterns@.len(),
            forall|j: int| 0 <= j < i ==> #[trigger] patterns@[j] == LAST_PATTERN,
        decreases patterns.len() - i,
    {
        if patterns[i] != LAST_PATTERN {
            return false;
        }
        i = i + 1;
    }
    true
}

} // verus!
