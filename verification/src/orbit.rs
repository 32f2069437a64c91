//! The arithmetic behind the juggling rotation: stepping by `r` modulo `n` from `0` visits the
//! multiples of the smallest positive position it reaches, and that number divides `n` and `r`.
use vstd::prelude::*;
use vstd::arithmetic::div_mod::{
    lemma_fundamental_div_mod, lemma_mod_bound, lemma_mod_multiples_basic, lemma_small_mod,
    lemma_sub_mod_noop, lemma_add_mod_noop,
};
use vstd::arithmetic::mul::{lemma_mul_is_distributive_sub_other_way, lemma_mul_is_distributive_add_other_way};

verus! {

/// The position reached after `k` steps of `r` from `0` on a circle of `n` positions.
pub open spec fn orbit_pos(r: int, n: int, k: int) -> int {
    (k * r) % n
}

/// One step of the juggling rotation of a range with `l` elements before the middle and `n - l`
/// from it on: the element at relative position `p` belongs at `step(l, n, p)`.
pub open spec fn step(l: int, n: int, p: int) -> int {
    if p >= l {
        p - l
    } else {
        p + (n - l)
    }
}

pub proof fn lemma_orbit_bounds(r: int, n: int, k: int)
    requires
        n > 0,
    ensures
        0 <= orbit_pos(r, n, k) < n,
{
    lemma_mod_bound(k * r, n);
}

/// A step moves from the position after `k` steps to the position after `k + 1` steps.
pub proof fn lemma_orbit_step(r: int, n: int, k: int)
    requires
        0 < r < n,
    ensures
        step(n - r, n, orbit_pos(r, n, k)) == orbit_pos(r, n, k + 1),
{
    let p = orbit_pos(r, n, k);
    lemma_orbit_bounds(r, n, k);
    lemma_mul_is_distributive_add_other_way(r, k, 1);
    lemma_add_mod_noop(k * r, r, n);
    lemma_small_mod(r as nat, n as nat);
    if p >= n - r {
        lemma_mod_multiples_basic(1, n);
        assert((p + r) % n == p + r - n) by {
            lemma_small_mod((p + r - n) as nat, n as nat);
            vstd::arithmetic::div_mod::lemma_mod_add_multiples_vanish(p + r - n, n);
        }
    } else {
        lemma_small_mod((p + r) as nat, n as nat);
    }
}

/// The distance between two positions of the orbit is itself a position of the orbit.
pub proof fn lemma_orbit_sub(r: int, n: int, a: int, b: int)
    requires
        n > 0,
        orbit_pos(r, n, a) >= orbit_pos(r, n, b),
    ensures
        orbit_pos(r, n, a - b) == orbit_pos(r, n, a) - orbit_pos(r, n, b),
{
    lemma_mul_is_distributive_sub_other_way(r, a, b);
    lemma_sub_mod_noop(a * r, b * r, n);
    lemma_orbit_bounds(r, n, a);
    lemma_orbit_bounds(r, n, b);
    lemma_small_mod((orbit_pos(r, n, a) - orbit_pos(r, n, b)) as nat, n as nat);
}

/// The position `n - pos` is on the orbit whenever `pos`, nonzero, is.
pub proof fn lemma_orbit_neg(r: int, n: int, a: int)
    requires
        n > 0,
        orbit_pos(r, n, a) > 0,
    ensures
        orbit_pos(r, n, -a) == n - orbit_pos(r, n, a),
{
    lemma_mul_is_distributive_sub_other_way(r, 0, a);
    lemma_sub_mod_noop(0, a * r, n);
    lemma_orbit_bounds(r, n, a);
    lemma_small_mod(0, n as nat);
    vstd::arithmetic::div_mod::lemma_mod_add_multiples_vanish(-orbit_pos(r, n, a), n);
    lemma_small_mod((n - orbit_pos(r, n, a)) as nat, n as nat);
}

/// Positions add up along the orbit.
pub proof fn lemma_orbit_add(r: int, n: int, a: int, b: int)
    requires
        n > 0,
    ensures
        orbit_pos(r, n, a + b) == (orbit_pos(r, n, a) + orbit_pos(r, n, b)) % n,
{
    lemma_mul_is_distributive_add_other_way(r, a, b);
    lemma_add_mod_noop(a * r, b * r, n);
}

/// Two equal positions reached after different numbers of steps mean that the orbit returned to
/// `0` in between.
pub proof fn lemma_orbit_repeat(r: int, n: int, a: int, b: int)
    requires
        n > 0,
        orbit_pos(r, n, a) == orbit_pos(r, n, b),
    ensures
        orbit_pos(r, n, a - b) == 0,
{
    lemma_orbit_sub(r, n, a, b);
}

/// After `n` steps the orbit is back at `0`.
pub proof fn lemma_orbit_full(r: int, n: int)
    requires
        n > 0,
    ensures
        orbit_pos(r, n, n) == 0,
{
    lemma_mod_multiples_basic(r, n);
    assert(n * r == r * n) by (nonlinear_arith);
}

/// An orbit that returns to `0` after `p` steps repeats with period `p`.
pub proof fn lemma_orbit_period(r: int, n: int, p: int, k: int)
    requires
        n > 0,
        p > 0,
        orbit_pos(r, n, p) == 0,
    ensures
        orbit_pos(r, n, k) == orbit_pos(r, n, k % p),
        0 <= k % p < p,
{
    let q = k / p;
    let t = k % p;
    lemma_fundamental_div_mod(k, p);
    lemma_mod_bound(k, p);
    let c = (p * r) / n;
    lemma_fundamental_div_mod(p * r, n);
    assert(k * r == (q * c) * n + t * r) by (nonlinear_arith)
        requires
            k == p * q + t,
            p * r == n * c + 0,
    ;
    lemma_add_mod_noop((q * c) * n, t * r, n);
    lemma_mod_multiples_basic(q * c, n);
    lemma_orbit_bounds(r, n, t);
    lemma_small_mod(orbit_pos(r, n, t) as nat, n as nat);
}

/// The facts about one full turn of the orbit that the juggling rotation needs.
pub open spec fn turn_facts(r: int, n: int, p: int, g: int) -> bool {
    &&& 0 < r < n
    &&& 1 <= p
    &&& orbit_pos(r, n, p) == 0
    &&& forall|j: int| 1 <= j < p ==> orbit_pos(r, n, j) != 0
    &&& exists|j0: int| 1 <= j0 < p && orbit_pos(r, n, j0) == g
    &&& forall|j: int| 1 <= j < p ==> g <= #[trigger] orbit_pos(r, n, j)
}

/// Every position of the orbit is a multiple of its smallest positive position.
pub proof fn lemma_orbit_multiple(r: int, n: int, p: int, g: int, j0: int, k: int)
    requires
        turn_facts(r, n, p, g),
        1 <= j0 < p,
        orbit_pos(r, n, j0) == g,
    ensures
        orbit_pos(r, n, k) % g == 0,
    decreases orbit_pos(r, n, k),
{
    lemma_orbit_period(r, n, p, k);
    lemma_orbit_bounds(r, n, k);
    let x = orbit_pos(r, n, k);
    let t = k % p;
    if x == 0 {
        lemma_small_mod(0, g as nat);
    } else if x < g {
        assert(0 * r == 0);
        lemma_small_mod(0, n as nat);
        assert(1 <= t < p);
        assert(g <= orbit_pos(r, n, t));
    } else {
        lemma_orbit_sub(r, n, k, j0);
        lemma_orbit_multiple(r, n, p, g, j0, k - j0);
        vstd::arithmetic::div_mod::lemma_mod_sub_multiples_vanish(x, g);
    }
}

/// The smallest positive position of the orbit divides `r` and `n`.
pub proof fn lemma_orbit_divides(r: int, n: int, p: int, g: int)
    requires
        turn_facts(r, n, p, g),
    ensures
        g > 0,
        r % g == 0,
        n % g == 0,
        (n - r) % g == 0,
{
    let j0 = choose|j0: int| 1 <= j0 < p && orbit_pos(r, n, j0) == g;
    lemma_orbit_bounds(r, n, j0);
    lemma_orbit_multiple(r, n, p, g, j0, 1);
    lemma_small_mod(r as nat, n as nat);
    lemma_orbit_neg(r, n, j0);
    lemma_orbit_multiple(r, n, p, g, j0, -j0);
    vstd::arithmetic::div_mod::lemma_mod_add_multiples_vanish(n - g, g);
    lemma_orbit_neg(r, n, 1);
    lemma_orbit_multiple(r, n, p, g, j0, -1);
}

/// Every multiple of the smallest positive position below `n` is reached within one turn.
pub proof fn lemma_orbit_covers(r: int, n: int, p: int, g: int, m: int) -> (j: int)
    requires
        turn_facts(r, n, p, g),
        0 <= m < n,
        m % g == 0,
    ensures
        0 <= j < p,
        orbit_pos(r, n, j) == m,
{
    let j0 = choose|j0: int| 1 <= j0 < p && orbit_pos(r, n, j0) == g;
    lemma_orbit_divides(r, n, p, g);
    let t = m / g;
    lemma_fundamental_div_mod(m, g);
    lemma_orbit_multiples(r, n, g, j0, t);
    lemma_orbit_period(r, n, p, t * j0);
    (t * j0) % p
}

/// Taking `t` times the steps to `g` reaches `t * g`, while that stays below `n`.
proof fn lemma_orbit_multiples(r: int, n: int, g: int, j0: int, t: int)
    requires
        n > 0,
        g > 0,
        orbit_pos(r, n, j0) == g,
        0 <= t,
        t * g < n,
    ensures
        orbit_pos(r, n, t * j0) == t * g,
    decreases t,
{
    if t == 0 {
        assert(0 * j0 == 0);
        assert(0 * r == 0);
        assert(0 * g == 0);
        lemma_small_mod(0, n as nat);
    } else {
        assert((t - 1) * g < n) by (nonlinear_arith)
            requires
                t * g < n,
                g > 0,
        ;
        assert((t - 1) * g >= 0) by (nonlinear_arith)
            requires
                t >= 1,
                g > 0,
        ;
        lemma_orbit_multiples(r, n, g, j0, t - 1);
        lemma_orbit_add(r, n, (t - 1) * j0, j0);
        assert((t - 1) * j0 + j0 == t * j0) by (nonlinear_arith);
        assert((t - 1) * g + g == t * g) by (nonlinear_arith);
        lemma_small_mod((t * g) as nat, n as nat);
        assert(orbit_pos(r, n, t * j0) == orbit_pos(r, n, (t - 1) * j0 + j0));
    }
}

/// Two multiples of `g` below `n`, itself a multiple: the smaller one is at least `g` below.
pub proof fn lemma_multiple_gap(x: int, y: int, g: int)
    requires
        g > 0,
        0 <= x < y,
        x % g == 0,
        y % g == 0,
    ensures
        x + g <= y,
{
    lemma_fundamental_div_mod(x, g);
    lemma_fundamental_div_mod(y, g);
    assert(x + g <= y) by (nonlinear_arith)
        requires
            x == g * (x / g),
            y == g * (y / g),
            x < y,
            g > 0,
    ;
}

} // verus!
