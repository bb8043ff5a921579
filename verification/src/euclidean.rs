//! Euclidean rhythms: a number of pulses spread as evenly as possible over
//! a number of steps, by two different algorithms.

use vstd::prelude::*;

use crate::errors::LobachevskyError;

verus! {

/// Number of pulses (true steps) in a pattern.
pub open spec fn pulse_count(s: Seq<bool>) -> nat
    decreases s.len(),
{
    if s.len() == 0 {
        0
    } else {
        pulse_count(s.drop_last()) + if s.last() {
            1nat
        } else {
            0nat
        }
    }
}

/// Index of the first pulse of a pattern; its length if it has none.
pub open spec fn first_pulse(s: Seq<bool>) -> nat
    decreases s.len(),
{
    if s.len() == 0 {
        0
    } else if s[0] {
        0
    } else {
        1 + first_pulse(s.drop_first())
    }
}

/// A pattern rotated left by `k` steps.
pub open spec fn rotated(s: Seq<bool>, k: int) -> Seq<bool> {
    s.subrange(k, s.len() as int) + s.subrange(0, k)
}

/// A pattern rotated so that it begins on its first pulse (unchanged when
/// it has none).
pub open spec fn from_first_pulse(s: Seq<bool>) -> Seq<bool> {
    rotated(s, first_pulse(s) as int)
}

/// A pattern of `n` equal steps.
pub open spec fn uniform(n: nat, b: bool) -> Seq<bool> {
    Seq::new(n, |i: int| b)
}

/// Pulses of a concatenation add up.
pub proof fn lemma_pulse_count_concat(a: Seq<bool>, b: Seq<bool>)
    ensures
        pulse_count(a + b) == pulse_count(a) + pulse_count(b),
    decreases b.len(),
{
    if b.len() == 0 {
        assert(a + b =~= a);
    } else {
        lemma_pulse_count_concat(a, b.drop_last());
        assert((a + b).drop_last() =~= a + b.drop_last());
    }
}

/// A uniform pattern has all or none of its steps as pulses.
pub proof fn lemma_pulse_count_uniform(n: nat, b: bool)
    ensures
        pulse_count(uniform(n, b)) == if b {
            n
        } else {
            0
        },
    decreases n,
{
    if n > 0 {
        lemma_pulse_count_uniform((n - 1) as nat, b);
        assert(uniform(n, b).drop_last() =~= uniform((n - 1) as nat, b));
    }
}

/// The first pulse is where the pattern first holds a pulse.
pub proof fn lemma_first_pulse_at(s: Seq<bool>, k: nat)
    requires
        k <= s.len(),
        forall|j: int| 0 <= j < k ==> !s[j],
        k == s.len() || s[k as int],
    ensures
        first_pulse(s) == k,
    decreases s.len(),
{
    if s.len() > 0 && k > 0 {
        assert(!s[0]);
        assert forall|j: int| 0 <= j < k - 1 implies !s.drop_first()[j] by {
            assert(s.drop_first()[j] == s[j + 1]);
        }
        if k < s.len() {
            assert(s.drop_first()[k - 1] == s[k as int]);
        }
        lemma_first_pulse_at(s.drop_first(), (k - 1) as nat);
    }
}

/// A pattern without a pulse before index `k` and with one somewhere has its
/// first pulse at or after `k`; with a pulse anywhere, the first pulse is one.
pub proof fn lemma_first_pulse_is_pulse(s: Seq<bool>)
    ensures
        first_pulse(s) <= s.len(),
        pulse_count(s) > 0 ==> first_pulse(s) < s.len() && s[first_pulse(s) as int],
        forall|j: int| 0 <= j < first_pulse(s) ==> !s[j],
    decreases s.len(),
{
    if s.len() > 0 {
        if !s[0] {
            lemma_first_pulse_is_pulse(s.drop_first());
            assert(s =~= seq![s[0]] + s.drop_first());
            lemma_pulse_count_concat(seq![s[0]], s.drop_first());
            assert(seq![s[0]].drop_last() =~= Seq::<bool>::empty());
            let one = seq![s[0]];
            assert(one.drop_last() =~= Seq::<bool>::empty());
            assert(pulse_count(one.drop_last()) == 0);
            assert(one.last() == s[0]);
            assert(pulse_count(one) == 0);
            if pulse_count(s) > 0 {
                let k = first_pulse(s.drop_first());
                assert(s[k + 1int] == s.drop_first()[k as int]);
            }
            assert forall|j: int| 0 <= j < first_pulse(s) implies !s[j] by {
                if j > 0 {
                    assert(s[j] == s.drop_first()[j - 1]);
                }
            }
        }
    }
}

/// Rotating keeps the length and the number of pulses; rotating to the
/// first pulse makes a pattern with pulses start on one.
pub proof fn lemma_from_first_pulse(s: Seq<bool>)
    ensures
        from_first_pulse(s).len() == s.len(),
        pulse_count(from_first_pulse(s)) == pulse_count(s),
        pulse_count(s) > 0 ==> from_first_pulse(s)[0],
{
    lemma_first_pulse_is_pulse(s);
    let k = first_pulse(s) as int;
    lemma_pulse_count_concat(s.subrange(k, s.len() as int), s.subrange(0, k));
    lemma_pulse_count_concat(s.subrange(0, k), s.subrange(k, s.len() as int));
    assert(s.subrange(0, k) + s.subrange(k, s.len() as int) =~= s);
}

/// The first pulse of a pattern, computed.
fn find_first_pulse(v: &Vec<bool>) -> (k: usize)
    ensures
        k == first_pulse(v@),
{
    let mut k: usize = 0;
    while k < v.len() && !v[k]
        invariant
            k <= v.len(),
            forall|j: int| 0 <= j < k ==> !v@[j],
        decreases v.len() - k,
    {
        k = k + 1;
    }
    proof {
        lemma_first_pulse_at(v@, k as nat);
    }
    k
}

/// A pattern rotated left by `k` steps, computed.
pub fn rotate_pattern(v: &Vec<bool>, k: usize) -> (r: Vec<bool>)
    requires
        k <= v.len(),
    ensures
        r@ == rotated(v@, k as int),
{
    let mut r: Vec<bool> = Vec::new();
    let mut i: usize = k;
    while i < v.len()
        invariant
            k <= i <= v.len(),
            r@ == v@.subrange(k as int, i as int),
        decreases v.len() - i,
    {
        r.push(v[i]);
        i = i + 1;
        assert(r@ =~= v@.subrange(k as int, i as int));
    }
    let mut j: usize = 0;
    while j < k
        invariant
            j <= k <= v.len(),
            r@ == v@.subrange(k as int, v.len() as int) + v@.subrange(0, j as int),
        decreases k - j,
    {
        r.push(v[j]);
        j = j + 1;
        assert(r@ =~= v@.subrange(k as int, v.len() as int) + v@.subrange(0, j as int));
    }
    r
}

/// A pattern of `n` equal steps, computed.
fn uniform_pattern(n: usize, b: bool) -> (r: Vec<bool>)
    ensures
        r@ == uniform(n as nat, b),
{
    let mut r: Vec<bool> = Vec::new();
    let mut i: usize = 0;
    while i < n
        invariant
            i <= n,
            r@ == uniform(i as nat, b),
        decreases n - i,
    {
        r.push(b);
        i = i + 1;
        assert(r@ =~= uniform(i as nat, b));
    }
    r
}

/// A pattern drawn as text: `X` for a pulse, `.` for a rest.
pub open spec fn visual_of(p: Seq<bool>) -> Seq<char> {
    Seq::new(p.len(), |i: int| if p[i] { 'X' } else { '.' })
}

/// The steps that hold a pulse, in order.
pub open spec fn pulse_indices(p: Seq<bool>) -> Seq<int>
    decreases p.len(),
{
    if p.len() == 0 {
        seq![]
    } else if p.last() {
        pulse_indices(p.drop_last()).push(p.len() - 1)
    } else {
        pulse_indices(p.drop_last())
    }
}

/// Draws a pattern as text, `X` for each pulse and `.` for each rest.
pub fn pattern_visual(pattern: &[bool]) -> (r: String)
    ensures
        r@ == visual_of(pattern@),
{
    let mut text = String::new();
    let mut i: usize = 0;
    while i < pattern.len()
        invariant
            i <= pattern@.len(),
            text@ == visual_of(pattern@.take(i as int)),
        decreases pattern.len() - i,
    {
        let c = if pattern[i] {
            'X'
        } else {
            '.'
        };
        crate::text::push_char(&mut text, c);
        i = i + 1;
        assert(text@ =~= visual_of(pattern@.take(i as int)));
    }
    assert(pattern@.take(i as int) =~= pattern@);
    text
}

/// The positions of the pulses of a pattern, in increasing order.
pub fn pulse_positions(pattern: &[bool]) -> (r: Vec<usize>)
    ensures
        r@.map_values(|x: usize| x as int) == pulse_indices(pattern@),
{
    let mut positions: Vec<usize> = Vec::new();
    let mut i: usize = 0;
    while i < pattern.len()
        invariant
            i <= pattern@.len(),
            positions@.map_values(|x: usize| x as int) == pulse_indices(pattern@.take(i as int)),
        decreases pattern.len() - i,
    {
        assert(pattern@.take(i + 1).drop_last() =~= pattern@.take(i as int));
        if pattern[i] {
            positions.push(i);
        }
        i = i + 1;
        assert(positions@.map_values(|x: usize| x as int) =~= pulse_indices(pattern@.take(i as int)));
    }
    assert(pattern@.take(i as int) =~= pattern@);
    positions
}

/// Spreading `pulses` pulses over `steps` steps.
pub trait EuclideanRhythm {
    /// Evenly distribute the pulses among the steps; pulses are `true`. The
    /// pattern starts on a pulse whenever it has one. More pulses than
    /// steps is an error.
    fn generate(steps: usize, pulses: usize) -> (r: Result<Vec<bool>, LobachevskyError>)
        ensures
            r is Err <==> pulses > steps,
            r matches Err(e) ==> e == (LobachevskyError::EuclideanInputs { steps, pulses }),
            r matches Ok(v) ==> v@.len() == steps && pulse_count(v@) == pulses && (pulses > 0
                ==> v@[0]),
    ;
}

/// Step `i` of the line-drawing pattern: a pulse wherever the running total
/// `i * pulses / steps` goes up.
pub open spec fn bresenham_step(steps: nat, pulses: nat, i: int) -> bool {
    ((i + 1) * pulses) / (steps as int) > (i * pulses) / (steps as int)
}

/// The line-drawing pattern before its rotation.
pub open spec fn bresenham_raw(steps: nat, pulses: nat) -> Seq<bool> {
    Seq::new(steps, |i: int| bresenham_step(steps, pulses, i))
}

/// The line-drawing Euclidean pattern, started on its first pulse.
pub open spec fn bresenham_pattern(steps: nat, pulses: nat) -> Seq<bool> {
    from_first_pulse(bresenham_raw(steps, pulses))
}

/// The running total of a line-drawing pattern moves by at most one a step.
proof fn lemma_bresenham_increment(steps: int, pulses: int, i: int)
    requires
        0 < steps,
        0 <= pulses <= steps,
        0 <= i,
    ensures
        ((i + 1) * pulses) / steps <= (i * pulses) / steps + 1,
        (i * pulses) / steps <= ((i + 1) * pulses) / steps,
{
    let a = i * pulses;
    let b = (i + 1) * pulses;
    assert(b == a + pulses) by (nonlinear_arith)
        requires a == i * pulses, b == (i + 1) * pulses;
    assert(0 <= a) by (nonlinear_arith)
        requires 0 <= i, 0 <= pulses, a == i * pulses;
    vstd::arithmetic::div_mod::lemma_div_is_ordered(a, b, steps);
    vstd::arithmetic::div_mod::lemma_div_is_ordered(b, a + steps, steps);
    vstd::arithmetic::div_mod::lemma_div_plus_one(a, steps);
}

/// The pulses of the first `k` steps of a line-drawing pattern number
/// `k * pulses / steps`.
proof fn lemma_bresenham_prefix_count(steps: nat, pulses: nat, k: int)
    requires
        0 < steps,
        pulses <= steps,
        0 <= k <= steps,
    ensures
        pulse_count(bresenham_raw(steps, pulses).take(k)) == (k * pulses) / (steps as int),
    decreases k,
{
    let raw = bresenham_raw(steps, pulses);
    if k == 0 {
        assert(raw.take(0) =~= Seq::<bool>::empty());
        assert((0 * pulses) == 0) by (nonlinear_arith);
    } else {
        lemma_bresenham_prefix_count(steps, pulses, k - 1);
        lemma_bresenham_increment(steps as int, pulses as int, k - 1);
        assert(raw.take(k).drop_last() =~= raw.take(k - 1));
        assert(raw.take(k).last() == bresenham_step(steps, pulses, k - 1));
        assert((k - 1 + 1) * pulses == k * pulses);
    }
}

/// The quotient of a sum: the two quotients, plus one when the two
/// remainders reach the divisor.
proof fn lemma_floor_sum(x: int, y: int, s: int)
    requires
        0 < s,
    ensures
        (x + y) / s == x / s + y / s + if x % s + y % s >= s { 1int } else { 0int },
        (x + y) % s == if x % s + y % s >= s { x % s + y % s - s } else { x % s + y % s },
{
    let q1 = x / s;
    let r1 = x % s;
    let q2 = y / s;
    let r2 = y % s;
    vstd::arithmetic::div_mod::lemma_fundamental_div_mod(x, s);
    vstd::arithmetic::div_mod::lemma_fundamental_div_mod(y, s);
    assert(x + y == (q1 + q2) * s + (r1 + r2)) by (nonlinear_arith)
        requires
            x == s * q1 + r1,
            y == s * q2 + r2,
    ;
    if r1 + r2 < s {
        vstd::arithmetic::div_mod::lemma_fundamental_div_mod_converse(x + y, s, q1 + q2, r1 + r2);
    } else {
        assert(x + y == (q1 + q2 + 1) * s + (r1 + r2 - s)) by (nonlinear_arith)
            requires
                x + y == (q1 + q2) * s + (r1 + r2),
        ;
        vstd::arithmetic::div_mod::lemma_fundamental_div_mod_converse(x + y, s, q1 + q2 + 1, r1 + r2 - s);
    }
}

/// The line-drawing pattern spreads its pulses evenly: any `len`
/// consecutive steps hold ⌊len · pulses / steps⌋ pulses, or one more.
pub proof fn lemma_bresenham_even(steps: nat, pulses: nat, a: int, len: int)
    requires
        0 < steps,
        pulses <= steps,
        0 <= a,
        0 <= len,
        a + len <= steps,
    ensures
        ({
            let c = pulse_count(bresenham_raw(steps, pulses).subrange(a, a + len));
            let f = (len * pulses) / (steps as int);
            c == f || c == f + 1
        }),
{
    let raw = bresenham_raw(steps, pulses);
    lemma_bresenham_prefix_count(steps, pulses, a);
    lemma_bresenham_prefix_count(steps, pulses, a + len);
    assert(raw.take(a + len) =~= raw.take(a) + raw.subrange(a, a + len));
    lemma_pulse_count_concat(raw.take(a), raw.subrange(a, a + len));
    assert((a + len) * pulses == a * pulses + len * pulses) by (nonlinear_arith);
    lemma_floor_sum(a * pulses, len * pulses, steps as int);
}

/// The `len` steps of a pattern from step `a` on, going round past the end.
pub open spec fn cyclic_window(s: Seq<bool>, a: int, len: nat) -> Seq<bool> {
    Seq::new(len, |i: int| s[(a + i) % (s.len() as int)])
}

/// Going round the line-drawing pattern too, any `len` consecutive steps
/// hold ⌊len · pulses / steps⌋ pulses, or one more.
proof fn lemma_bresenham_even_round(steps: nat, pulses: nat, b: int, len: int)
    requires
        0 < steps,
        pulses <= steps,
        0 <= b < steps,
        0 <= len <= steps,
    ensures
        ({
            let c = pulse_count(cyclic_window(bresenham_raw(steps, pulses), b, len as nat));
            let f = (len * pulses) / (steps as int);
            c == f || c == f + 1
        }),
{
    let raw = bresenham_raw(steps, pulses);
    let n = steps as int;
    let w = cyclic_window(raw, b, len as nat);
    if b + len <= n {
        assert forall|i: int| 0 <= i < len implies #[trigger] w[i] == raw[b + i] by {
            vstd::arithmetic::div_mod::lemma_small_mod((b + i) as nat, steps);
        }
        assert(w =~= raw.subrange(b, b + len));
        lemma_bresenham_even(steps, pulses, b, len);
    } else {
        let c = b + len - n;
        assert forall|i: int| 0 <= i < len implies #[trigger] w[i] == (if i < n - b { raw[b + i] } else { raw[i - (n - b)] }) by {
            if i < n - b {
                vstd::arithmetic::div_mod::lemma_small_mod((b + i) as nat, steps);
            } else {
                vstd::arithmetic::div_mod::lemma_mod_sub_multiples_vanish(b + i, n);
                vstd::arithmetic::div_mod::lemma_small_mod((b + i - n) as nat, steps);
            }
        }
        assert(w =~= raw.subrange(b, n) + raw.take(c));
        lemma_pulse_count_concat(raw.subrange(b, n), raw.take(c));
        lemma_bresenham_prefix_count(steps, pulses, b);
        lemma_bresenham_prefix_count(steps, pulses, n);
        lemma_bresenham_prefix_count(steps, pulses, c);
        assert(raw.take(n) =~= raw.take(b) + raw.subrange(b, n));
        lemma_pulse_count_concat(raw.take(b), raw.subrange(b, n));
        assert((n * pulses) / n == pulses) by {
            vstd::arithmetic::div_mod::lemma_div_multiples_vanish(pulses as int, n);
            vstd::arithmetic::mul::lemma_mul_is_commutative(pulses as int, n);
        }
        let x = (n - len) * pulses;
        let y = len * pulses;
        assert(x + y == n * pulses) by (nonlinear_arith)
            requires
                x == (n - len) * pulses,
                y == len * pulses,
        ;
        assert(b * pulses == c * pulses + x) by (nonlinear_arith)
            requires
                b == c + n - len,
                x == (n - len) * pulses,
        ;
        lemma_floor_sum(x, y, n);
        lemma_floor_sum(c * pulses, x, n);
        assert((n * pulses) % n == 0) by {
            vstd::arithmetic::div_mod::lemma_mod_multiples_basic(pulses as int, n);
            vstd::arithmetic::mul::lemma_mul_is_commutative(pulses as int, n);
        }
    }
}

/// Rotating a pattern moves its windows round with it.
proof fn lemma_rotated_window(s: Seq<bool>, k: int, a: int, len: nat)
    requires
        0 < s.len(),
        0 <= k <= s.len(),
        0 <= a,
    ensures
        cyclic_window(rotated(s, k), a, len) == cyclic_window(s, (a + k) % (s.len() as int), len),
{
    let n = s.len() as int;
    let r = rotated(s, k);
    assert forall|j: int| 0 <= j < n implies #[trigger] r[j] == s[(j + k) % n] by {
        if j < n - k {
            vstd::arithmetic::div_mod::lemma_small_mod((j + k) as nat, n as nat);
        } else {
            vstd::arithmetic::div_mod::lemma_mod_sub_multiples_vanish(j + k, n);
            vstd::arithmetic::div_mod::lemma_small_mod((j + k - n) as nat, n as nat);
        }
    }
    let w1 = cyclic_window(r, a, len);
    let w2 = cyclic_window(s, (a + k) % n, len);
    assert forall|i: int| 0 <= i < len implies w1[i] == w2[i] by {
        let j = (a + i) % n;
        vstd::arithmetic::div_mod::lemma_mod_bound(a + i, n);
        assert(r[j] == s[(j + k) % n]);
        vstd::arithmetic::div_mod::lemma_add_mod_noop_right(k, a + i, n);
        vstd::arithmetic::div_mod::lemma_add_mod_noop_right(i, a + k, n);
        assert(w1[i] == r[j]);
        assert(w2[i] == s[((a + k) % n + i) % n]);
    }
    assert(w1 =~= w2);
}

/// The Euclidean pattern drawn by the line-drawing algorithm is evenly
/// spread: going round it, any `len` consecutive steps hold
/// ⌊len · pulses / steps⌋ pulses, or one more.
pub proof fn lemma_bresenham_pattern_even(steps: nat, pulses: nat, a: int, len: int)
    requires
        0 < steps,
        pulses <= steps,
        0 <= a < steps,
        0 <= len <= steps,
    ensures
        ({
            let c = pulse_count(cyclic_window(bresenham_pattern(steps, pulses), a, len as nat));
            let f = (len * pulses) / (steps as int);
            c == f || c == f + 1
        }),
{
    let raw = bresenham_raw(steps, pulses);
    let k = first_pulse(raw) as int;
    lemma_first_pulse_is_pulse(raw);
    lemma_rotated_window(raw, k, a, len as nat);
    vstd::arithmetic::div_mod::lemma_mod_bound(a + k, steps as int);
    lemma_bresenham_even_round(steps, pulses, (a + k) % (steps as int), len);
}

/// The line-drawing pattern has exactly `pulses` pulses.
proof fn lemma_bresenham_count(steps: nat, pulses: nat)
    requires
        0 < steps,
        pulses <= steps,
    ensures
        pulse_count(bresenham_raw(steps, pulses)) == pulses,
{
    lemma_bresenham_prefix_count(steps, pulses, steps as int);
    assert(bresenham_raw(steps, pulses).take(steps as int) =~= bresenham_raw(steps, pulses));
    assert(((steps as int) * (pulses as int)) / (steps as int) == pulses) by {
        vstd::arithmetic::div_mod::lemma_div_multiples_vanish(pulses as int, steps as int);
        vstd::arithmetic::mul::lemma_mul_is_commutative(pulses as int, steps as int);
    }
}

/// The running remainder of the line-drawing algorithm after one more step.
proof fn lemma_bresenham_error(steps: int, pulses: int, i: int, e: int)
    requires
        0 < pulses < steps,
        0 <= i,
        e == (i * pulses) % steps,
    ensures
        bresenham_step(steps as nat, pulses as nat, i) == (e + pulses >= steps),
        e + pulses >= steps ==> ((i + 1) * pulses) % steps == e + pulses - steps,
        e + pulses < steps ==> ((i + 1) * pulses) % steps == e + pulses,
        0 <= e < steps,
{
    let a = i * pulses;
    let b = (i + 1) * pulses;
    assert(b == a + pulses) by (nonlinear_arith)
        requires a == i * pulses, b == (i + 1) * pulses;
    vstd::arithmetic::div_mod::lemma_fundamental_div_mod(a, steps);
    vstd::arithmetic::div_mod::lemma_mod_pos_bound(a, steps);
    let q = a / steps;
    assert(a == q * steps + e) by {
        vstd::arithmetic::mul::lemma_mul_is_commutative(q, steps);
    }
    if e + pulses >= steps {
        assert(b == (q + 1) * steps + (e + pulses - steps)) by (nonlinear_arith)
            requires b == a + pulses, a == q * steps + e;
        vstd::arithmetic::div_mod::lemma_fundamental_div_mod_converse(b, steps, q + 1, e + pulses - steps);
    } else {
        assert(b == q * steps + (e + pulses)) by (nonlinear_arith)
            requires b == a + pulses, a == q * steps + e;
        vstd::arithmetic::div_mod::lemma_fundamental_div_mod_converse(b, steps, q, e + pulses);
    }
}

/// The line-drawing (Bresenham) algorithm for Euclidean rhythms.
pub struct Breshenham {}

impl EuclideanRhythm for Breshenham {
    fn generate(steps: usize, pulses: usize) -> (r: Result<Vec<bool>, LobachevskyError>)
        ensures
            r matches Ok(v) ==> v@ == bresenham_pattern(steps as nat, pulses as nat),
    {
        if pulses > steps {
            return Err(LobachevskyError::EuclideanInputs { steps, pulses });
        }
        if pulses == 0 || pulses == steps {
            let v = uniform_pattern(steps, pulses > 0);
            proof {
                lemma_pulse_count_uniform(steps as nat, pulses > 0);
                let raw = bresenham_raw(steps as nat, pulses as nat);
                assert forall|i: int| 0 <= i < steps implies raw[i] == (pulses > 0) by {
                    if pulses == 0 {
                        assert((i + 1) * 0 == 0 && i * 0 == 0) by (nonlinear_arith);
                    } else {
                        assert((i + 1) * pulses == i * pulses + steps) by (nonlinear_arith)
                            requires pulses == steps;
                        vstd::arithmetic::div_mod::lemma_div_plus_one(i * pulses, steps as int);
                    }
                }
                assert(raw =~= v@);
                if pulses > 0 {
                    lemma_first_pulse_at(v@, 0);
                    assert(rotated(v@, 0) =~= v@);
                } else {
                    lemma_first_pulse_at(v@, steps as nat);
                    assert(rotated(v@, steps as int) =~= v@);
                }
            }
            return Ok(v);
        }
        let mut pattern: Vec<bool> = Vec::new();
        let mut error: usize = 0;
        let gap: usize = steps - pulses;
        let mut i: usize = 0;
        assert(i * pulses == 0) by (nonlinear_arith)
            requires i == 0;
        while i < steps
            invariant
                0 < pulses < steps,
                gap == steps - pulses,
                i <= steps,
                error == (i * pulses) % (steps as int),
                pattern@ == bresenham_raw(steps as nat, pulses as nat).take(i as int),
            decreases steps - i,
        {
            proof {
                lemma_bresenham_error(steps as int, pulses as int, i as int, error as int);
            }
            if error >= gap {
                pattern.push(true);
                error = error - gap;
            } else {
                pattern.push(false);
                error = error + pulses;
            }
            i = i + 1;
            assert(pattern@ =~= bresenham_raw(steps as nat, pulses as nat).take(i as int));
        }
        assert(pattern@ =~= bresenham_raw(steps as nat, pulses as nat));
        let k = find_first_pulse(&pattern);
        proof {
            lemma_bresenham_count(steps as nat, pulses as nat);
            lemma_first_pulse_is_pulse(pattern@);
            lemma_from_first_pulse(pattern@);
        }
        Ok(rotate_pattern(&pattern, k))
    }
}


/// Euclid's sequence for a rhythm: term 0 counts the rests, term 1 the
/// pulses, and each later term is the remainder of the two before it.
pub open spec fn euclid_term(steps: nat, pulses: nat, k: nat) -> nat
    decreases k,
{
    if k == 0 {
        (steps - pulses) as nat
    } else if k == 1 {
        pulses
    } else {
        let y = euclid_term(steps, pulses, (k - 1) as nat);
        if y == 0 {
            0
        } else {
            euclid_term(steps, pulses, (k - 2) as nat) % y
        }
    }
}

/// `depth` is where Bjorklund's algorithm stops dividing: the first level
/// from 1 on whose remainder is at most one.
pub open spec fn is_bjorklund_depth(steps: nat, pulses: nat, depth: nat) -> bool {
    &&& 1 <= depth
    &&& euclid_term(steps, pulses, depth + 1) <= 1
    &&& forall|k: nat| 1 <= k < depth ==> #[trigger] euclid_term(steps, pulses, k + 1) > 1
}

/// The level at which Bjorklund's algorithm stops dividing.
pub open spec fn bjorklund_depth(steps: nat, pulses: nat) -> nat {
    choose|d: nat| is_bjorklund_depth(steps, pulses, d)
}

/// How many copies of the level below make up level `l`.
pub open spec fn bjorklund_group(steps: nat, pulses: nat, depth: nat, l: nat) -> nat {
    if l == depth {
        euclid_term(steps, pulses, l)
    } else {
        euclid_term(steps, pulses, l) / euclid_term(steps, pulses, l + 1)
    }
}

/// `n` copies of a pattern, one after another.
pub open spec fn repeat_pattern(x: Seq<bool>, n: nat) -> Seq<bool>
    decreases n,
{
    if n == 0 {
        Seq::empty()
    } else {
        repeat_pattern(x, (n - 1) as nat) + x
    }
}

/// Level `l` of Bjorklund's construction: level -1 is a rest, level -2 a
/// pulse, and level `l` is its group of copies of level `l - 1`, followed by
/// level `l - 2` when the remainder at `l` is not zero.
pub open spec fn bjorklund_level(steps: nat, pulses: nat, depth: nat, l: int) -> Seq<bool>
    decreases l + 2,
{
    if l < -1 {
        seq![true]
    } else if l == -1 {
        seq![false]
    } else {
        repeat_pattern(
            bjorklund_level(steps, pulses, depth, l - 1),
            bjorklund_group(steps, pulses, depth, l as nat),
        ) + if euclid_term(steps, pulses, (l + 1) as nat) != 0 {
            bjorklund_level(steps, pulses, depth, l - 2)
        } else {
            Seq::empty()
        }
    }
}

/// Bjorklund's Euclidean pattern, started on its first pulse.
pub open spec fn bjorklund_pattern(steps: nat, pulses: nat) -> Seq<bool> {
    if pulses == 0 || pulses == steps {
        uniform(steps, pulses > 0)
    } else {
        let d = bjorklund_depth(steps, pulses);
        from_first_pulse(bjorklund_level(steps, pulses, d, d as int))
    }
}

/// Only one level can be the stopping level.
proof fn lemma_depth_unique(steps: nat, pulses: nat, d1: nat, d2: nat)
    requires
        is_bjorklund_depth(steps, pulses, d1),
        is_bjorklund_depth(steps, pulses, d2),
    ensures
        d1 == d2,
{
    if d1 < d2 {
        assert(euclid_term(steps, pulses, d1 + 1) > 1);
    } else if d2 < d1 {
        assert(euclid_term(steps, pulses, d2 + 1) > 1);
    }
}

/// Copies of a pattern multiply its length and its pulses.
proof fn lemma_repeat_pattern(x: Seq<bool>, n: nat)
    ensures
        repeat_pattern(x, n).len() == n * x.len(),
        pulse_count(repeat_pattern(x, n)) == n * pulse_count(x),
    decreases n,
{
    if n > 0 {
        lemma_repeat_pattern(x, (n - 1) as nat);
        lemma_pulse_count_concat(repeat_pattern(x, (n - 1) as nat), x);
        assert(n * x.len() == (n - 1) * x.len() + x.len()) by (nonlinear_arith)
            requires n > 0;
        assert(n * pulse_count(x) == (n - 1) * pulse_count(x) + pulse_count(x)) by (nonlinear_arith)
            requires n > 0;
    } else {
        assert(n * x.len() == 0 && n * pulse_count(x) == 0) by (nonlinear_arith)
            requires n == 0;
    }
}

/// Below the stopping level the divisor is positive, and the quotient and
/// remainder give back the dividend.
proof fn lemma_euclid_below_depth(steps: nat, pulses: nat, d: nat, l: nat)
    requires
        0 < pulses < steps,
        is_bjorklund_depth(steps, pulses, d),
        l < d,
    ensures
        euclid_term(steps, pulses, l + 1) > 0,
        euclid_term(steps, pulses, l) == bjorklund_group(steps, pulses, d, l) * euclid_term(
            steps,
            pulses,
            l + 1,
        ) + euclid_term(steps, pulses, l + 2),
{
    if l >= 1 {
        assert(euclid_term(steps, pulses, l + 1) > 1);
    }
    let x = euclid_term(steps, pulses, l) as int;
    let y = euclid_term(steps, pulses, l + 1) as int;
    vstd::arithmetic::div_mod::lemma_fundamental_div_mod(x, y);
    vstd::arithmetic::mul::lemma_mul_is_commutative(y, x / y);
    assert(euclid_term(steps, pulses, l + 2) == x % y);
}

/// Lengths and pulse counts through Bjorklund's levels: with `a` Euclid's
/// sequence, `a(l) * |level l-1| + a(l+1) * |level l-2|` is the number of
/// steps, and the same sum over pulses is the number of pulses.
proof fn lemma_bjorklund_sizes(steps: nat, pulses: nat, d: nat, l: nat)
    requires
        0 < pulses < steps,
        is_bjorklund_depth(steps, pulses, d),
        l <= d,
    ensures
        euclid_term(steps, pulses, l) * bjorklund_level(steps, pulses, d, l - 1).len()
            + euclid_term(steps, pulses, l + 1) * bjorklund_level(steps, pulses, d, l - 2).len()
            == steps,
        euclid_term(steps, pulses, l) * pulse_count(bjorklund_level(steps, pulses, d, l - 1))
            + euclid_term(steps, pulses, l + 1) * pulse_count(
            bjorklund_level(steps, pulses, d, l - 2),
        ) == pulses,
    decreases l,
{
    let rest = seq![false];
    let beat = seq![true];
    assert(rest.drop_last() =~= Seq::<bool>::empty());
    assert(beat.drop_last() =~= Seq::<bool>::empty());
    assert(pulse_count(rest.drop_last()) == 0 && rest.last() == false);
    assert(pulse_count(beat.drop_last()) == 0 && beat.last() == true);
    assert(pulse_count(rest) == 0);
    assert(pulse_count(beat) == 1);
    if l == 0 {
        assert(bjorklund_level(steps, pulses, d, -1) == rest);
        assert(bjorklund_level(steps, pulses, d, -2) == beat);
    } else {
        let m = (l - 1) as nat;
        lemma_bjorklund_sizes(steps, pulses, d, m);
        lemma_euclid_below_depth(steps, pulses, d, m);
        let c = bjorklund_group(steps, pulses, d, m);
        let lower = bjorklund_level(steps, pulses, d, m - 1);
        let lowest = bjorklund_level(steps, pulses, d, m - 2);
        if m == 0 {
            assert(lower == rest);
            assert(lowest == beat);
        }
        assert(bjorklund_level(steps, pulses, d, m as int) == repeat_pattern(lower, c) + lowest);
        lemma_repeat_pattern(lower, c);
        lemma_pulse_count_concat(repeat_pattern(lower, c), lowest);
        let a0 = euclid_term(steps, pulses, m) as int;
        let a1 = euclid_term(steps, pulses, l) as int;
        let a2 = euclid_term(steps, pulses, l + 1) as int;
        assert(m + 2 == l + 1);
        let x1 = lower.len() as int;
        let x2 = lowest.len() as int;
        let y1 = pulse_count(lower) as int;
        let y2 = pulse_count(lowest) as int;
        let ci = c as int;
        assert(a1 * (ci * x1 + x2) + a2 * x1 == steps) by (nonlinear_arith)
            requires
                a0 * x1 + a1 * x2 == steps,
                a0 == ci * a1 + a2;
        assert(a1 * (ci * y1 + y2) + a2 * y1 == pulses) by (nonlinear_arith)
            requires
                a0 * y1 + a1 * y2 == pulses,
                a0 == ci * a1 + a2;
        assert(l - 1 == m as int);
        assert(l - 2 == m - 1);
    }
}

/// The top level of Bjorklund's construction holds every step and every
/// pulse.
proof fn lemma_bjorklund_total(steps: nat, pulses: nat, d: nat)
    requires
        0 < pulses < steps,
        is_bjorklund_depth(steps, pulses, d),
    ensures
        bjorklund_level(steps, pulses, d, d as int).len() == steps,
        pulse_count(bjorklund_level(steps, pulses, d, d as int)) == pulses,
{
    lemma_bjorklund_sizes(steps, pulses, d, d);
    let lower = bjorklund_level(steps, pulses, d, d - 1);
    let lowest = bjorklund_level(steps, pulses, d, d - 2);
    let c = bjorklund_group(steps, pulses, d, d);
    let r = euclid_term(steps, pulses, d + 1);
    lemma_repeat_pattern(lower, c);
    if r != 0 {
        assert(r == 1);
        assert(bjorklund_level(steps, pulses, d, d as int) == repeat_pattern(lower, c) + lowest);
        lemma_pulse_count_concat(repeat_pattern(lower, c), lowest);
        assert(1 * lowest.len() == lowest.len());
        assert(1 * pulse_count(lowest) == pulse_count(lowest));
    } else {
        assert(bjorklund_level(steps, pulses, d, d as int) =~= repeat_pattern(lower, c));
        assert(0 * lowest.len() == 0);
        assert(0 * pulse_count(lowest) == 0);
    }
}

/// Appends level `level` of Bjorklund's construction to the pattern.
fn build_level(
    pattern: &mut Vec<bool>,
    counts: &Vec<usize>,
    remainders: &Vec<usize>,
    level: usize,
    Ghost(steps): Ghost<nat>,
    Ghost(pulses): Ghost<nat>,
    Ghost(depth): Ghost<nat>,
)
    requires
        level <= depth,
        counts@.len() == depth + 1,
        remainders@.len() == depth + 1,
        forall|k: int|
            0 <= k <= depth ==> counts@[k] == bjorklund_group(steps, pulses, depth, k as nat),
        forall|k: int|
            0 <= k <= depth ==> remainders@[k] == euclid_term(steps, pulses, (k + 1) as nat),
    ensures
        final(pattern)@ == old(pattern)@ + bjorklund_level(steps, pulses, depth, level as int),
    decreases level,
{
    let ghost start = pattern@;
    let ghost below = bjorklund_level(steps, pulses, depth, level - 1);
    let n = counts[level];
    let mut i: usize = 0;
    while i < n
        invariant
            i <= n,
            level <= depth,
            n == counts@[level as int],
            counts@.len() == depth + 1,
            remainders@.len() == depth + 1,
            forall|k: int|
                0 <= k <= depth ==> counts@[k] == bjorklund_group(steps, pulses, depth, k as nat),
            forall|k: int|
                0 <= k <= depth ==> remainders@[k] == euclid_term(steps, pulses, (k + 1) as nat),
            below == bjorklund_level(steps, pulses, depth, level - 1),
            pattern@ == start + repeat_pattern(below, i as nat),
        decreases n - i,
    {
        if level >= 1 {
            build_level(pattern, counts, remainders, level - 1, Ghost(steps), Ghost(pulses), Ghost(depth));
        } else {
            pattern.push(false);
        }
        i = i + 1;
        assert(pattern@ =~= start + repeat_pattern(below, i as nat));
    }
    let ghost middle = pattern@;
    if remainders[level] != 0 {
        if level >= 2 {
            build_level(pattern, counts, remainders, level - 2, Ghost(steps), Ghost(pulses), Ghost(depth));
        } else if level == 1 {
            pattern.push(false);
        } else {
            pattern.push(true);
        }
    }
    proof {
        let tail = if euclid_term(steps, pulses, (level + 1) as nat) != 0 {
            bjorklund_level(steps, pulses, depth, level - 2)
        } else {
            Seq::<bool>::empty()
        };
        assert(pattern@ =~= middle + tail);
        assert(pattern@ =~= start + (repeat_pattern(below, n as nat) + tail));
    }
}

/// Bjorklund's algorithm for Euclidean rhythms.
pub struct Bjorklund {}

impl EuclideanRhythm for Bjorklund {
    fn generate(steps: usize, pulses: usize) -> (r: Result<Vec<bool>, LobachevskyError>)
        ensures
            r matches Ok(v) ==> v@ == bjorklund_pattern(steps as nat, pulses as nat),
    {
        if pulses > steps {
            return Err(LobachevskyError::EuclideanInputs { steps, pulses });
        }
        if pulses == 0 || pulses == steps {
            let v = uniform_pattern(steps, pulses > 0);
            proof {
                lemma_pulse_count_uniform(steps as nat, pulses > 0);
            }
            return Ok(v);
        }
        let ghost s = steps as nat;
        let ghost p = pulses as nat;
        let mut counts: Vec<usize> = Vec::new();
        let mut remainders: Vec<usize> = Vec::new();
        let mut divisor: usize = steps - pulses;
        remainders.push(pulses);
        let mut level: usize = 0;
        loop
            invariant_except_break
                level == 0 || euclid_term(s, p, (level + 1) as nat) > 1,
            invariant
                0 < pulses < steps,
                s == steps as nat,
                p == pulses as nat,
                counts@.len() == level,
                remainders@.len() == level + 1,
                divisor == euclid_term(s, p, level as nat),
                forall|k: int|
                    0 <= k < level ==> counts@[k] == euclid_term(s, p, k as nat) / euclid_term(
                        s,
                        p,
                        (k + 1) as nat,
                    ),
                forall|k: int| 0 <= k <= level ==> remainders@[k] == euclid_term(s, p, (k + 1) as nat),
                forall|k: nat| 1 <= k < level ==> #[trigger] euclid_term(s, p, k + 1) > 1,
                level + euclid_term(s, p, (level + 1) as nat) <= pulses,
            ensures
                level >= 1,
                euclid_term(s, p, (level + 1) as nat) <= 1,
            decreases euclid_term(s, p, (level + 1) as nat),
        {
            let r = remainders[level];
            proof {
                vstd::arithmetic::div_mod::lemma_mod_pos_bound(divisor as int, r as int);
                assert(euclid_term(s, p, (level + 2) as nat) == divisor % r);
            }
            counts.push(divisor / r);
            remainders.push(divisor % r);
            divisor = r;
            level = level + 1;
            if remainders[level] <= 1 {
                break;
            }
        }
        counts.push(divisor);
        proof {
            assert(is_bjorklund_depth(s, p, level as nat));
            lemma_depth_unique(s, p, level as nat, bjorklund_depth(s, p));
            assert forall|k: int| 0 <= k <= level implies counts@[k] == bjorklund_group(
                s,
                p,
                level as nat,
                k as nat,
            ) by {}
        }
        let mut pattern: Vec<bool> = Vec::new();
        build_level(&mut pattern, &counts, &remainders, level, Ghost(s), Ghost(p), Ghost(level as nat));
        assert(pattern@ =~= bjorklund_level(s, p, level as nat, level as int));
        let k = find_first_pulse(&pattern);
        proof {
            lemma_bjorklund_total(s, p, level as nat);
            lemma_first_pulse_is_pulse(pattern@);
            lemma_from_first_pulse(pattern@);
        }
        Ok(rotate_pattern(&pattern, k))
    }
}

} // verus!
