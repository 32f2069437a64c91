//! Greatest common divisors, computed by Euclid's algorithm.
use vstd::prelude::*;
use vstd::arithmetic::div_mod::{lemma_fundamental_div_mod, lemma_mod_bound, lemma_small_mod};

verus! {

/// The greatest common divisor of `a` and `b`, by Euclid's algorithm; `gcd(a, 0) == a`.
pub open spec fn gcd(a: nat, b: nat) -> nat
    decreases b,
{
    if b == 0 {
        a
    } else {
        gcd(b, a % b)
    }
}

/// The greatest common divisor of `a` and `b`, by Euclid's algorithm: the result divides both
/// (and is positive unless both are `0`), and every common divisor of `a` and `b` divides it.
pub(crate) fn gcd_usize(a: usize, b: usize) -> (g: usize)
    ensures
        g == gcd(a as nat, b as nat),
        a > 0 || b > 0 ==> g > 0 && a % g == 0 && b % g == 0,
        forall|d: int| d > 0 && (a as int) % d == 0 && (b as int) % d == 0 ==> #[trigger] ((g as int) % d) == 0,
{
    let mut x = a;
    let mut y = b;
    while y != 0
        invariant
            gcd(x as nat, y as nat) == gcd(a as nat, b as nat),
        decreases y,
    {
        let t = x % y;
        x = y;
        y = t;
    }
    proof {
        lemma_gcd_is_greatest_common_divisor(a as nat, b as nat);
    }
    x
}

/// If `d` divides `x` and `y`, it divides `x * q + y`.
pub proof fn lemma_divides_combination(x: int, y: int, q: int, d: int)
    requires
        d > 0,
        x % d == 0,
        y % d == 0,
    ensures
        (x * q + y) % d == 0,
{
    lemma_fundamental_div_mod(x, d);
    lemma_fundamental_div_mod(y, d);
    let a = x / d;
    let b = y / d;
    assert(x * q + y == d * (a * q + b)) by (nonlinear_arith)
        requires
            x == d * a + 0,
            y == d * b + 0,
    ;
    vstd::arithmetic::div_mod::lemma_mod_multiples_basic(a * q + b, d);
    assert(d * (a * q + b) == (a * q + b) * d) by (nonlinear_arith);
}

/// The greatest common divisor of two numbers, not both `0`, is positive and divides both.
pub proof fn lemma_gcd_divides(a: nat, b: nat)
    requires
        a > 0 || b > 0,
    ensures
        gcd(a, b) > 0,
        a % gcd(a, b) == 0,
        b % gcd(a, b) == 0,
    decreases b,
{
    if b == 0 {
        lemma_small_mod(0, a);
        vstd::arithmetic::div_mod::lemma_mod_self_0(a as int);
    } else {
        lemma_mod_bound(a as int, b as int);
        lemma_gcd_divides(b, (a % b) as nat);
        let g = gcd(a, b);
        lemma_fundamental_div_mod(a as int, b as int);
        lemma_divides_combination(b as int, (a % b) as int, (a / b) as int, g as int);
        assert(b * (a / b) == (a / b) * b) by (nonlinear_arith);
    }
}


/// The greatest common divisor of `a` and `b` is what its name says: it divides both, it is
/// positive unless both are `0`, and every positive common divisor of `a` and `b` divides it (so
/// no common divisor is larger).
pub proof fn lemma_gcd_is_greatest_common_divisor(a: nat, b: nat)
    ensures
        a > 0 || b > 0 ==> gcd(a, b) > 0 && a % gcd(a, b) == 0 && b % gcd(a, b) == 0,
        forall|d: int| d > 0 && (a as int) % d == 0 && (b as int) % d == 0 ==> #[trigger] ((gcd(a, b) as int) % d) == 0,
        forall|d: int|
            d > 0 && #[trigger] ((a as int) % d) == 0 && (b as int) % d == 0 && (a > 0 || b > 0) ==> d
                <= gcd(a, b),
{
    if a > 0 || b > 0 {
        lemma_gcd_divides(a, b);
    }
    assert forall|d: int| d > 0 && (a as int) % d == 0 && (b as int) % d == 0 implies #[trigger] ((gcd(a, b) as int) % d) == 0 by {
        lemma_common_divisor_divides_gcd(a, b, d);
    }
    assert forall|d: int| d > 0 && #[trigger] ((a as int) % d) == 0 && (b as int) % d == 0 && (a > 0 || b > 0) implies d <= gcd(
        a,
        b,
    ) by {
        lemma_common_divisor_divides_gcd(a, b, d);
        lemma_gcd_divides(a, b);
        vstd::arithmetic::div_mod::lemma_small_mod(0, d as nat);
        crate::orbit::lemma_multiple_gap(0, gcd(a, b) as int, d);
    }
}

/// Every common divisor of `a` and `b` divides their greatest common divisor.
pub proof fn lemma_common_divisor_divides_gcd(a: nat, b: nat, d: int)
    requires
        d > 0,
        (a as int) % d == 0,
        (b as int) % d == 0,
    ensures
        (gcd(a, b) as int) % d == 0,
    decreases b,
{
    if b > 0 {
        let ai = a as int;
        let bi = b as int;
        let q = ai / bi;
        lemma_fundamental_div_mod(ai, bi);
        // a % b == b * (-q) + a, a combination of multiples of d
        assert(ai % bi == bi * (-q) + ai) by (nonlinear_arith)
            requires
                ai == bi * q + ai % bi,
        ;
        lemma_divides_combination(bi, ai, -q, d);
        assert(bi * (-q) == (-q) * bi) by (nonlinear_arith);
        lemma_common_divisor_divides_gcd(b, (a % b) as nat, d);
    }
}

} // verus!
