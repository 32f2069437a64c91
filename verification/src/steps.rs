//! How one step of a rotation algorithm reduces a rotation to a smaller one: after the step, the
//! remaining rotation of a sub-range gives the same result as the whole rotation would have.
use vstd::prelude::*;
use crate::model::{blocks_swapped, reversed, rotated, rotated_source, swept_backward, swept_forward};
use vstd::arithmetic::div_mod::{lemma_small_mod, lemma_mod_multiples_vanish, lemma_fundamental_div_mod};

verus! {

/// Adding a multiple of `m` does not change a remainder below `m`.
pub proof fn lemma_mod_shift(x: int, q: int, m: int)
    requires
        0 <= x < m,
    ensures
        (x + q * m) % m == x,
{
    lemma_mod_multiples_vanish(q, x, m);
    assert(m * q == q * m) by (nonlinear_arith);
    lemma_small_mod(x as nat, m as nat);
}

/// Which of two non-overlapping blocks is named first does not matter.
pub proof fn lemma_blocks_swapped_symmetric<T>(s: Seq<T>, a: int, b: int, n: int)
    requires
        a + n <= b || b + n <= a,
    ensures
        blocks_swapped(s, a, b, n) == blocks_swapped(s, b, a, n),
{
    assert(blocks_swapped(s, a, b, n) =~= blocks_swapped(s, b, a, n));
}

/// Gries-Mills step from the left (`left <= right`): swapping the left block with the first
/// `left` elements of the right block leaves the rotation of what follows it.
pub proof fn lemma_gm_front<T>(s: Seq<T>, lo: int, mid: int, hi: int)
    requires
        0 <= lo <= mid <= hi <= s.len(),
        mid - lo <= hi - mid,
    ensures
        rotated(blocks_swapped(s, lo, mid, mid - lo), mid, mid + (mid - lo), hi) == rotated(
            s,
            lo,
            mid,
            hi,
        ),
{
    assert(rotated(blocks_swapped(s, lo, mid, mid - lo), mid, mid + (mid - lo), hi) =~= rotated(
        s,
        lo,
        mid,
        hi,
    ));
}

/// Gries-Mills step from the right (`right <= left`): swapping the right block with the last
/// `right` elements of the left block leaves the rotation of what precedes it.
pub proof fn lemma_gm_back<T>(s: Seq<T>, lo: int, mid: int, hi: int)
    requires
        0 <= lo <= mid <= hi <= s.len(),
        hi - mid <= mid - lo,
    ensures
        rotated(blocks_swapped(s, mid, mid - (hi - mid), hi - mid), lo, mid - (hi - mid), mid)
            == rotated(s, lo, mid, hi),
{
    assert(rotated(blocks_swapped(s, mid, mid - (hi - mid), hi - mid), lo, mid - (hi - mid), mid)
        =~= rotated(s, lo, mid, hi));
}

/// Piston step from the left (`left <= right`): swapping the left block with the last `left`
/// elements of the range leaves a rotation around the same `mid`.
pub proof fn lemma_piston_front<T>(s: Seq<T>, lo: int, mid: int, hi: int)
    requires
        0 <= lo <= mid <= hi <= s.len(),
        mid - lo <= hi - mid,
    ensures
        rotated(blocks_swapped(s, lo, hi - (mid - lo), mid - lo), lo, mid, hi - (mid - lo))
            == rotated(s, lo, mid, hi),
{
    assert(rotated(blocks_swapped(s, lo, hi - (mid - lo), mid - lo), lo, mid, hi - (mid - lo))
        =~= rotated(s, lo, mid, hi));
}

/// Piston step from the right (`right <= left`): swapping the right block with the first `right`
/// elements of the range leaves a rotation around the same `mid`.
pub proof fn lemma_piston_back<T>(s: Seq<T>, lo: int, mid: int, hi: int)
    requires
        0 <= lo <= mid <= hi <= s.len(),
        hi - mid <= mid - lo,
    ensures
        rotated(blocks_swapped(s, mid, lo, hi - mid), lo + (hi - mid), mid, hi) == rotated(
            s,
            lo,
            mid,
            hi,
        ),
{
    assert(rotated(blocks_swapped(s, mid, lo, hi - mid), lo + (hi - mid), mid, hi) =~= rotated(
        s,
        lo,
        mid,
        hi,
    ));
}

/// Helix step from the right (`left > right > 0`): sweeping the left block backward to the end of
/// the range leaves the right block at the start, rotated right by `left % right`.
pub proof fn lemma_helix_back<T>(s: Seq<T>, lo: int, mid: int, hi: int)
    requires
        0 <= lo <= mid <= hi <= s.len(),
        0 < hi - mid < mid - lo,
    ensures
        rotated(
            swept_backward(s, lo, lo + (hi - mid), mid - lo),
            lo,
            lo + (mid - lo) % (hi - mid),
            lo + (hi - mid),
        ) == rotated(s, lo, mid, hi),
{
    let l = mid - lo;
    let r = hi - mid;
    let m = l % r;
    let q = l / r;
    lemma_fundamental_div_mod(l, r);
    let sw = swept_backward(s, lo, lo + r, l);
    let lhs = rotated(sw, lo, lo + m, lo + r);
    let rhs = rotated(s, lo, mid, hi);
    assert forall|k: int| 0 <= k < s.len() implies lhs[k] == rhs[k] by {
        if lo <= k < lo + r {
            let x = k - lo;
            let src = rotated_source(lo, lo + m, lo + r, k);
            if x < r - m {
                assert(src - lo - l == x + (-q) * r) by (nonlinear_arith)
                    requires
                        src == k + m,
                        x == k - lo,
                        l == r * q + m,
                ;
                lemma_mod_shift(x, -q, r);
            } else {
                assert(src - lo - l == x + (-q - 1) * r) by (nonlinear_arith)
                    requires
                        src == k - (r - m),
                        x == k - lo,
                        l == r * q + m,
                ;
                lemma_mod_shift(x, -q - 1, r);
            }
        }
    }
    assert(lhs =~= rhs);
}

/// Helix step from the left (`0 < left < right`): sweeping the right block forward to the start
/// of the range leaves the left block at the end, rotated left by `right % left`.
pub proof fn lemma_helix_front<T>(s: Seq<T>, lo: int, mid: int, hi: int)
    requires
        0 <= lo <= mid <= hi <= s.len(),
        0 < mid - lo < hi - mid,
    ensures
        rotated(
            swept_forward(s, lo, mid, hi - mid),
            lo + (hi - mid),
            hi - (hi - mid) % (mid - lo),
            hi,
        ) == rotated(s, lo, mid, hi),
{
    let l = mid - lo;
    let r = hi - mid;
    let m = r % l;
    let q = r / l;
    lemma_fundamental_div_mod(r, l);
    let sw = swept_forward(s, lo, mid, r);
    let lhs = rotated(sw, lo + r, hi - m, hi);
    let rhs = rotated(s, lo, mid, hi);
    assert forall|k: int| 0 <= k < s.len() implies lhs[k] == rhs[k] by {
        if lo + r <= k < hi {
            let x = k - lo - r;
            let src = rotated_source(lo + r, hi - m, hi, k);
            if x < m {
                assert(src - lo == x + (q + 1) * l) by (nonlinear_arith)
                    requires
                        src == k + (l - m),
                        x == k - lo - r,
                        r == l * q + m,
                ;
                lemma_mod_shift(x, q + 1, l);
            } else {
                assert(src - lo == x + q * l) by (nonlinear_arith)
                    requires
                        src == k - m,
                        x == k - lo - r,
                        r == l * q + m,
                ;
                lemma_mod_shift(x, q, l);
            }
        }
    }
    assert(lhs =~= rhs);
}

/// Drill step from the left (`0 < left <= right`): sweeping forward by the largest multiple `t` of
/// `left` that fits in `right` moves the left block up by `t`, unchanged.
pub proof fn lemma_drill_front<T>(s: Seq<T>, lo: int, mid: int, hi: int, t: int)
    requires
        0 <= lo <= mid <= hi <= s.len(),
        0 < mid - lo,
        t == (hi - mid) - (hi - mid) % (mid - lo),
    ensures
        0 <= t <= hi - mid,
        rotated(swept_forward(s, lo, mid, t), lo + t, mid + t, hi) == rotated(s, lo, mid, hi),
{
    let l = mid - lo;
    let r = hi - mid;
    let q = r / l;
    lemma_fundamental_div_mod(r, l);
    vstd::arithmetic::div_mod::lemma_mod_bound(r, l);
    assert(t == q * l) by (nonlinear_arith)
        requires
            t == r - r % l,
            r == l * q + r % l,
    ;
    let sw = swept_forward(s, lo, mid, t);
    let lhs = rotated(sw, lo + t, mid + t, hi);
    let rhs = rotated(s, lo, mid, hi);
    assert forall|k: int| 0 <= k < s.len() implies lhs[k] == rhs[k] by {
        if lo + t <= k < hi && k >= lo + r {
            let x = k - lo - r;
            lemma_mod_shift(x, q, l);
        }
    }
    assert(lhs =~= rhs);
}

/// Drill step from the right (`0 < right <= left`): sweeping backward by the largest multiple `t`
/// of `right` that fits in `left` moves the right block down by `t`, unchanged.
pub proof fn lemma_drill_back<T>(s: Seq<T>, lo: int, mid: int, hi: int, t: int)
    requires
        0 <= lo <= mid <= hi <= s.len(),
        0 < hi - mid,
        t == (mid - lo) - (mid - lo) % (hi - mid),
    ensures
        0 <= t <= mid - lo,
        rotated(swept_backward(s, mid - t, hi - t, t), lo, mid - t, hi - t) == rotated(
            s,
            lo,
            mid,
            hi,
        ),
{
    let l = mid - lo;
    let r = hi - mid;
    let q = l / r;
    lemma_fundamental_div_mod(l, r);
    vstd::arithmetic::div_mod::lemma_mod_bound(l, r);
    assert(t == q * r) by (nonlinear_arith)
        requires
            t == l - l % r,
            l == r * q + l % r,
    ;
    let sw = swept_backward(s, mid - t, hi - t, t);
    let lhs = rotated(sw, lo, mid - t, hi - t);
    let rhs = rotated(s, lo, mid, hi);
    assert forall|k: int| 0 <= k < s.len() implies lhs[k] == rhs[k] by {
        if lo <= k < lo + r {
            let x = k - lo;
            assert(x + (-q) * r == x - t) by (nonlinear_arith)
                requires
                    t == q * r,
            ;
            lemma_mod_shift(x, -q, r);
            assert(sw[k + l - t] == s[mid + x]);
        }
    }
    assert(lhs =~= rhs);
}

/// Reversing the left block, then the right block, then the whole range rotates the range.
pub proof fn lemma_triple_reversal<T>(s: Seq<T>, lo: int, mid: int, hi: int)
    requires
        0 <= lo <= mid <= hi <= s.len(),
    ensures
        reversed(reversed(reversed(s, lo, mid), mid, hi), lo, hi) == rotated(s, lo, mid, hi),
{
    assert(reversed(reversed(reversed(s, lo, mid), mid, hi), lo, hi) =~= rotated(s, lo, mid, hi));
}

} // verus!
