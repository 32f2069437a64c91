//! The juggling (dolphin) rotation: every element is moved straight to its final position, one
//! cycle of positions after the other.
use vstd::prelude::*;
use crate::model::{rotated, rotated_source};
use crate::orbit::{
    orbit_pos, step, turn_facts, lemma_orbit_bounds, lemma_orbit_step, lemma_orbit_repeat,
    lemma_orbit_full, lemma_orbit_multiple, lemma_orbit_divides, lemma_orbit_covers,
    lemma_multiple_gap,
};
use vstd::arithmetic::div_mod::{lemma_small_mod, lemma_fundamental_div_mod, lemma_mod_multiples_vanish};

verus! {

/// Rounds `0` up to `c - 1` of the juggling rotation of `[start, start + n)` are done: the
/// positions whose offset from `start` is below `c` modulo `g` hold their final elements, all the
/// others still hold the elements of `s`.
pub open spec fn rounds_done<T>(
    cur: Seq<T>,
    s: Seq<T>,
    start: int,
    l: int,
    n: int,
    g: int,
    c: int,
) -> bool {
    &&& cur.len() == s.len()
    &&& forall|q: int|
        0 <= q < s.len() ==> #[trigger] cur[q] == if start <= q < start + n && (q - start) % g < c {
            rotated(s, start, start + l, start + n)[q]
        } else {
            s[q]
        }
}

/// The element at `start + p` belongs at `start + step(l, n, p)`.
pub proof fn lemma_goal_step<T>(s: Seq<T>, start: int, l: int, n: int, p: int)
    requires
        0 <= start,
        0 < l < n,
        start + n <= s.len(),
        0 <= p < n,
    ensures
        0 <= step(l, n, p) < n,
        rotated(s, start, start + l, start + n)[start + step(l, n, p)] == s[start + p],
{
    assert(rotated_source(start, start + l, start + n, start + step(l, n, p)) == start + p);
}

/// Offsets that differ by a multiple of `g` are in the same class modulo `g`.
pub proof fn lemma_class(c: int, m: int, g: int)
    requires
        g > 0,
        0 <= c < g,
        m % g == 0,
    ensures
        (c + m) % g == c,
{
    lemma_fundamental_div_mod(m, g);
    lemma_mod_multiples_vanish(m / g, c, g);
    lemma_small_mod(c as nat, g as nat);
}

/// The first round: the cycle of positions through `start`. Returns the smallest positive offset
/// it reached and, as a ghost, the length of the cycle.
pub(crate) fn juggle_first_round<T: Copy>(
    v: &mut [T],
    start: usize,
    left: usize,
    right: usize,
) -> (res: (usize, Ghost<int>))
    requires
        0 < left,
        0 < right,
        start + left + right <= old(v)@.len(),
    ensures
        turn_facts(right as int, (left + right) as int, res.1@, res.0 as int),
        rounds_done(
            final(v)@,
            old(v)@,
            start as int,
            left as int,
            (left + right) as int,
            res.0 as int,
            1,
        ),
{
    let ghost s = v@;
    let ghost r = right as int;
    let ghost n = (left + right) as int;
    let ghost l = left as int;
    let ghost goal = rotated(s, start as int, start + l, start + n);
    let len = v.len();
    proof {
        lemma_small_mod(r as nat, n as nat);
        assert(1 * r == r);
        assert(orbit_pos(r, n, 1) == r);
        assert(0 * r == 0);
        lemma_small_mod(0, n as nat);
        assert(orbit_pos(r, n, 0) == 0);
        lemma_orbit_full(r, n);
    }
    let mut tmp = v[start];
    let mut i: usize = right;
    let mut gcd: usize = right;
    let ghost mut k: int = 1;
    let ghost mut jmin: int = 1;
    let ghost mut p: int = 0;
    loop
        invariant_except_break
            1 <= k < n,
            i as int == orbit_pos(r, n, k),
            forall|j: int| 1 <= j <= k ==> orbit_pos(r, n, j) != 0,
            tmp == s[start + orbit_pos(r, n, k - 1)],
            forall|j: int| 1 <= j < k ==> v@[start + orbit_pos(r, n, j)] == goal[start + orbit_pos(r, n, j)],
            forall|q: int|
                0 <= q < s.len() && (q < start || q >= start + n || forall|j: int|
                    1 <= j < k ==> q != start + #[trigger] orbit_pos(r, n, j)) ==> v@[q] == s[q],
            1 <= jmin <= k,
            orbit_pos(r, n, jmin) == gcd,
            forall|j: int| 1 <= j <= k ==> gcd <= #[trigger] orbit_pos(r, n, j),
        invariant
            s.len() == len,
            v@.len() == len,
            l == left,
            r == right,
            n == l + r,
            0 < l,
            0 < r,
            start + n <= len,
            orbit_pos(r, n, 0) == 0,
            orbit_pos(r, n, n) == 0,
            goal == rotated(s, start as int, start + l, start + n),
            gcd <= right,
        ensures
            turn_facts(r, n, p, gcd as int),
            1 <= jmin < p,
            orbit_pos(r, n, jmin) == gcd,
            forall|j: int| 0 <= j < p ==> v@[start + orbit_pos(r, n, j)] == goal[start + orbit_pos(r, n, j)],
            forall|q: int|
                0 <= q < s.len() && (q < start || q >= start + n || forall|j: int|
                    0 <= j < p ==> q != start + #[trigger] orbit_pos(r, n, j)) ==> v@[q] == s[q],
        decreases n - k,
    {
        let ghost before = v@;
        proof {
            lemma_orbit_bounds(r, n, k);
            lemma_orbit_bounds(r, n, k - 1);
            assert forall|j: int| 1 <= j < k implies orbit_pos(r, n, j) != orbit_pos(r, n, k) by {
                if orbit_pos(r, n, j) == orbit_pos(r, n, k) {
                    lemma_orbit_repeat(r, n, k, j);
                }
            }
            lemma_orbit_step(r, n, k - 1);
            lemma_goal_step(s, start as int, l, n, orbit_pos(r, n, k - 1));
            lemma_orbit_step(r, n, k);
        }
        let t = v[start + i];
        v[start + i] = tmp;
        tmp = t;
        proof {
            assert(v@ == before.update(start + orbit_pos(r, n, k), goal[start + orbit_pos(r, n, k)]));
            assert(tmp == s[start + orbit_pos(r, n, k)]);
        }
        if i >= left {
            i = i - left;
            if i == 0 {
                v[start] = tmp;
                proof {
                    p = k + 1;
                    lemma_goal_step(s, start as int, l, n, orbit_pos(r, n, k));
                    assert forall|j: int| 0 <= j < p implies v@[start + orbit_pos(r, n, j)]
                        == goal[start + orbit_pos(r, n, j)] by {
                        if j > 0 && j < k {
                            lemma_orbit_bounds(r, n, j);
                        }
                    }
                    assert forall|q: int|
                        0 <= q < s.len() && (q < start || q >= start + n || forall|j: int|
                            0 <= j < p ==> q != start + #[trigger] orbit_pos(r, n, j)) implies v@[q]
                        == s[q] by {
                        if start <= q < start + n {
                            assert(q != start + orbit_pos(r, n, 0));
                            assert(q != start + orbit_pos(r, n, k));
                        }
                    }
                    assert forall|j: int| 1 <= j < p implies gcd <= #[trigger] orbit_pos(r, n, j) by {}
                }
                break;
            }
            if i < gcd {
                gcd = i;
                proof {
                    jmin = k + 1;
                }
            }
        } else {
            i = i + right;
        }
        proof {
            k = k + 1;
            if k == n {
                assert(orbit_pos(r, n, k) != 0);
            }
            assert forall|q: int|
                0 <= q < s.len() && (q < start || q >= start + n || forall|j: int|
                    1 <= j < k ==> q != start + #[trigger] orbit_pos(r, n, j)) implies v@[q]
                == s[q] by {
                if start <= q < start + n {
                    assert(q != start + orbit_pos(r, n, k - 1));
                }
            }
            assert forall|j: int| 1 <= j < k implies v@[start + orbit_pos(r, n, j)] == goal[start
                + orbit_pos(r, n, j)] by {
                lemma_orbit_bounds(r, n, j);
            }
        }
    }
    proof {
        let g = gcd as int;
        lemma_orbit_divides(r, n, p, g);
        assert forall|q: int| 0 <= q < s.len() implies #[trigger] v@[q] == if start <= q < start
            + n && (q - start) % g < 1 {
            goal[q]
        } else {
            s[q]
        } by {
            if start <= q < start + n {
                if (q - start) % g == 0 {
                    let j = lemma_orbit_covers(r, n, p, g, q - start);
                } else {
                    assert forall|j: int| 0 <= j < p implies q != start + #[trigger] orbit_pos(
                        r,
                        n,
                        j,
                    ) by {
                        lemma_orbit_multiple(r, n, p, g, jmin, j);
                    }
                }
            }
        }
    }
    (gcd, Ghost(p))
}

/// A step from an offset `c` above a position of the orbit lands `c` above the next position:
/// the whole round through `c` is the round through `0` moved up by `c`.
pub proof fn lemma_shifted_step(l: int, n: int, g: int, c: int, x: int)
    requires
        0 < l < n,
        g > 0,
        n % g == 0,
        l % g == 0,
        0 <= c < g,
        0 <= x < n,
        x % g == 0,
    ensures
        c + x < n,
        step(l, n, c + x) == c + step(l, n, x),
        (c + x) % g == c,
{
    lemma_multiple_gap(x, n, g);
    if x < l {
        lemma_multiple_gap(x, l, g);
    }
    lemma_class(c, x, g);
}

/// What one step of a later round needs: the positions it reads and writes, and that the position
/// it reads was not written earlier in the round.
pub proof fn lemma_round_step(r: int, n: int, p: int, g: int, j0: int, c: int, k: int)
    requires
        turn_facts(r, n, p, g),
        1 <= j0 < p,
        orbit_pos(r, n, j0) == g,
        0 < c < g,
        1 <= k < p,
    ensures
        c + orbit_pos(r, n, k) < n,
        0 <= orbit_pos(r, n, k),
        c + orbit_pos(r, n, k - 1) < n,
        0 <= orbit_pos(r, n, k - 1),
        (c + orbit_pos(r, n, k)) % g == c,
        step(n - r, n, c + orbit_pos(r, n, k - 1)) == c + orbit_pos(r, n, k),
        step(n - r, n, c + orbit_pos(r, n, k)) == c + orbit_pos(r, n, k + 1),
        orbit_pos(r, n, k + 1) == 0 <==> k + 1 == p,
        forall|j: int| 1 <= j < k ==> orbit_pos(r, n, j) != orbit_pos(r, n, k),
{
    lemma_orbit_divides(r, n, p, g);
    lemma_orbit_bounds(r, n, k);
    lemma_orbit_bounds(r, n, k - 1);
    lemma_orbit_multiple(r, n, p, g, j0, k);
    lemma_orbit_multiple(r, n, p, g, j0, k - 1);
    lemma_shifted_step(n - r, n, g, c, orbit_pos(r, n, k));
    lemma_shifted_step(n - r, n, g, c, orbit_pos(r, n, k - 1));
    lemma_orbit_step(r, n, k - 1);
    lemma_orbit_step(r, n, k);
    assert forall|j: int| 1 <= j < k implies orbit_pos(r, n, j) != orbit_pos(r, n, k) by {
        if orbit_pos(r, n, j) == orbit_pos(r, n, k) {
            lemma_orbit_repeat(r, n, k, j);
        }
    }
}

/// The positions of a later round `c` are the offsets that are `c` modulo `g`.
pub proof fn lemma_round_positions(r: int, n: int, p: int, g: int, j0: int, c: int, x: int) -> (j: int)
    requires
        turn_facts(r, n, p, g),
        1 <= j0 < p,
        orbit_pos(r, n, j0) == g,
        0 <= c < g,
        0 <= x < n,
        x % g == c,
    ensures
        0 <= j < p,
        x == c + orbit_pos(r, n, j),
{
    lemma_orbit_divides(r, n, p, g);
    lemma_fundamental_div_mod(x, g);
    vstd::arithmetic::div_mod::lemma_mod_multiples_basic(x / g, g);
    assert(g * (x / g) == (x / g) * g) by (nonlinear_arith);
    assert((x - c) % g == 0);
    lemma_orbit_covers(r, n, p, g, x - c)
}

/// No position of round `c` has an offset in another class.
pub proof fn lemma_round_class(r: int, n: int, p: int, g: int, j0: int, c: int, j: int)
    requires
        turn_facts(r, n, p, g),
        1 <= j0 < p,
        orbit_pos(r, n, j0) == g,
        0 <= c < g,
    ensures
        c + orbit_pos(r, n, j) < n,
        (c + orbit_pos(r, n, j)) % g == c,
{
    lemma_orbit_divides(r, n, p, g);
    lemma_orbit_bounds(r, n, j);
    lemma_orbit_multiple(r, n, p, g, j0, j);
    lemma_shifted_step(n - r, n, g, c, orbit_pos(r, n, j));
}

/// Round `c` (with `0 < c < g`): the cycle of positions through `start + c`.
pub(crate) fn juggle_round<T: Copy>(
    v: &mut [T],
    start: usize,
    left: usize,
    right: usize,
    c: usize,
    g: usize,
    Ghost(s): Ghost<Seq<T>>,
    Ghost(p): Ghost<int>,
)
    requires
        0 < left,
        0 < right,
        start + left + right <= s.len(),
        turn_facts(right as int, (left + right) as int, p, g as int),
        0 < c < g,
        rounds_done(old(v)@, s, start as int, left as int, (left + right) as int, g as int, c as int),
    ensures
        rounds_done(
            final(v)@,
            s,
            start as int,
            left as int,
            (left + right) as int,
            g as int,
            c + 1,
        ),
{
    let ghost r = right as int;
    let ghost n = (left + right) as int;
    let ghost l = left as int;
    let ghost gi = g as int;
    let ghost goal = rotated(s, start as int, start + l, start + n);
    let len = v.len();
    let ghost j0 = choose|j0: int| 1 <= j0 < p && orbit_pos(r, n, j0) == gi;
    proof {
        lemma_orbit_divides(r, n, p, gi);
        lemma_small_mod(r as nat, n as nat);
        assert(1 * r == r);
        assert(orbit_pos(r, n, 1) == r);
        assert(0 * r == 0);
        lemma_small_mod(0, n as nat);
        assert(orbit_pos(r, n, 0) == 0);
        lemma_small_mod(c as nat, gi as nat);
        lemma_multiple_gap(0, l, gi);
        assert(v@[start + c] == s[start + c]);
        assert(1 < p) by {
            if p == 1 {
                assert(orbit_pos(r, n, 1) == 0);
            }
        }
    }
    let mut tmp = v[start + c];
    let mut i: usize = c + right;
    let ghost mut k: int = 1;
    loop
        invariant_except_break
            1 <= k < p,
            i as int == c + orbit_pos(r, n, k),
            tmp == s[start + c + orbit_pos(r, n, k - 1)],
            forall|j: int| 1 <= j < k ==> v@[start + c + orbit_pos(r, n, j)] == goal[start + c + orbit_pos(r, n, j)],
            forall|q: int|
                0 <= q < s.len() ==> (start <= q < start + n && (q - start) % gi < c ==> #[trigger] v@[q] == goal[q]),
            forall|q: int|
                0 <= q < s.len() && !(start <= q < start + n && (q - start) % gi < c) && (forall|j: int|
                    1 <= j < k ==> q != start + c + #[trigger] orbit_pos(r, n, j)) ==> v@[q] == s[q],
        invariant
            s.len() == len,
            v@.len() == len,
            l == left,
            r == right,
            n == l + r,
            gi == g,
            0 < l,
            0 < r,
            0 < c < gi,
            (c as int) % gi == c,
            start + n <= len,
            orbit_pos(r, n, 0) == 0,
            turn_facts(r, n, p, gi),
            1 <= j0 < p,
            orbit_pos(r, n, j0) == gi,
            goal == rotated(s, start as int, start + l, start + n),
        ensures
            rounds_done(v@, s, start as int, l, n, gi, c + 1),
        decreases p - k,
    {
        let ghost before = v@;
        proof {
            lemma_round_step(r, n, p, gi, j0, c as int, k);
            lemma_goal_step(s, start as int, l, n, c + orbit_pos(r, n, k - 1));
        }
        let t = v[start + i];
        v[start + i] = tmp;
        tmp = t;
        proof {
            assert(v@ == before.update(start + c + orbit_pos(r, n, k), goal[start + c + orbit_pos(r, n, k)]));
        }
        if i >= left {
            i = i - left;
            if i == c {
                v[start + c] = tmp;
                proof {
                    lemma_goal_step(s, start as int, l, n, c + orbit_pos(r, n, k));
                    assert forall|q: int| 0 <= q < s.len() implies #[trigger] v@[q] == if start <= q
                        < start + n && (q - start) % gi < c + 1 {
                        goal[q]
                    } else {
                        s[q]
                    } by {
                        if start <= q < start + n && (q - start) % gi == c {
                            let j = lemma_round_positions(r, n, p, gi, j0, c as int, q - start);
                            if j > 0 && j < k {
                                lemma_orbit_bounds(r, n, j);
                            }
                        } else if !(start <= q < start + n && (q - start) % gi < c) {
                            assert forall|j: int| 1 <= j < k + 1 implies q != start + c + #[trigger] orbit_pos(r, n, j) by {
                                lemma_round_class(r, n, p, gi, j0, c as int, j);
                            }
                            lemma_round_class(r, n, p, gi, j0, c as int, 0);
                        }
                    }
                }
                break;
            }
        } else {
            i = i + right;
        }
        proof {
            k = k + 1;
            assert forall|q: int|
                0 <= q < s.len() && !(start <= q < start + n && (q - start) % gi < c) && (forall|j: int|
                    1 <= j < k ==> q != start + c + #[trigger] orbit_pos(r, n, j)) implies v@[q] == s[q] by {
                assert(q != start + c + orbit_pos(r, n, k - 1));
            }
            assert forall|q: int|
                0 <= q < s.len() implies (start <= q < start + n && (q - start) % gi < c ==> #[trigger] v@[q] == goal[q]) by {
                if start <= q < start + n && (q - start) % gi < c {
                    assert(q != start + c + orbit_pos(r, n, k - 1));
                }
            }
            assert forall|j: int| 1 <= j < k implies v@[start + c + orbit_pos(r, n, j)] == goal[start + c
                + orbit_pos(r, n, j)] by {
                lemma_round_class(r, n, p, gi, j0, c as int, j);
            }
        }
    }
}


/// Rotates `[start, start + left + right)` so that the element at `start + left` becomes its
/// first: the first round finds the number of rounds (the greatest common divisor of the length
/// and `right`), and the other rounds start one position further each.
pub(crate) fn juggle_rotate<T: Copy>(v: &mut [T], start: usize, left: usize, right: usize)
    requires
        0 < left,
        0 < right,
        start + left + right <= old(v)@.len(),
    ensures
        final(v)@ == rotated(old(v)@, start as int, start + left, start + left + right),
{
    let ghost s = v@;
    let (gcd, Ghost(p)) = juggle_first_round(v, start, left, right);
    let mut c: usize = 1;
    while c < gcd
        invariant
            1 <= c <= gcd,
            0 < left,
            0 < right,
            start + left + right <= s.len(),
            turn_facts(right as int, (left + right) as int, p, gcd as int),
            rounds_done(v@, s, start as int, left as int, (left + right) as int, gcd as int, c as int),
        decreases gcd - c,
    {
        juggle_round(v, start, left, right, c, gcd, Ghost(s), Ghost(p));
        c = c + 1;
    }
    assert forall|q: int| 0 <= q < s.len() implies v@[q] == rotated(
        s,
        start as int,
        start + left,
        start + left + right,
    )[q] by {
        if start <= q < start + left + right {
            vstd::arithmetic::div_mod::lemma_mod_bound(q - start, gcd as int);
        }
    }
    assert(v@ =~= rotated(s, start as int, start + left, start + left + right));
}

} // verus!
