//! Rotations that move whole blocks of `gcd(left, right)` elements: the model of reversing the
//! order of blocks, and the states of the block variant of the conjoined triple reversal.
use vstd::prelude::*;
use crate::model::{blocks_swapped, rotated};
use crate::utils::swap_nonoverlapping;
use crate::steps::lemma_mod_shift;
use vstd::arithmetic::div_mod::{lemma_fundamental_div_mod, lemma_mod_bound};

verus! {

/// `s` with the order of the blocks of `bs` elements in `[lo, hi)` reversed; each block keeps the
/// order of its elements.
pub open spec fn blocks_reversed<T>(s: Seq<T>, lo: int, hi: int, bs: int) -> Seq<T> {
    Seq::new(
        s.len(),
        |k: int|
            if lo <= k < hi {
                s[lo + hi - bs - k + 2 * ((k - lo) % bs)]
            } else {
                s[k]
            },
    )
}

/// Both sides of `[lo, hi)` with the order of their blocks reversed.
pub open spec fn sides_blocks_reversed<T>(s: Seq<T>, lo: int, mid: int, hi: int, bs: int) -> Seq<T> {
    blocks_reversed(blocks_reversed(s, lo, mid, bs), mid, hi, bs)
}

/// An offset `u` within a block that starts at a multiple `x` of `bs`.
pub proof fn lemma_mod_offset(x: int, u: int, bs: int)
    requires
        bs > 0,
        x % bs == 0,
        0 <= u < bs,
    ensures
        (x + u) % bs == u,
{
    lemma_fundamental_div_mod(x, bs);
    assert(x == (x / bs) * bs) by (nonlinear_arith)
        requires
            x == bs * (x / bs) + 0,
    ;
    lemma_mod_shift(u, x / bs, bs);
}

/// A difference of multiples of `bs` is one.
pub proof fn lemma_multiple_sub(x: int, y: int, bs: int)
    requires
        bs > 0,
        x % bs == 0,
        y % bs == 0,
    ensures
        (x - y) % bs == 0,
        (x + y) % bs == 0,
{
    lemma_fundamental_div_mod(x, bs);
    lemma_fundamental_div_mod(y, bs);
    assert(x - y == (x / bs - y / bs) * bs) by (nonlinear_arith)
        requires
            x == bs * (x / bs) + 0,
            y == bs * (y / bs) + 0,
    ;
    assert(x + y == (x / bs + y / bs) * bs) by (nonlinear_arith)
        requires
            x == bs * (x / bs) + 0,
            y == bs * (y / bs) + 0,
    ;
    lemma_mod_shift(0, x / bs - y / bs, bs);
    lemma_mod_shift(0, x / bs + y / bs, bs);
}

/// Splits an offset into the start of its block, a multiple of `bs`, and the offset within it.
pub proof fn lemma_split(x: int, bs: int)
    requires
        bs > 0,
    ensures
        0 <= x % bs < bs,
        (x - x % bs) % bs == 0,
        0 <= x ==> 0 <= x - x % bs,
{
    lemma_mod_bound(x, bs);
    lemma_fundamental_div_mod(x, bs);
    assert(x - x % bs == (x / bs) * bs) by (nonlinear_arith)
        requires
            x == bs * (x / bs) + x % bs,
    ;
    lemma_mod_shift(0, x / bs, bs);
    if 0 <= x {
        vstd::arithmetic::div_mod::lemma_div_pos_is_pos(x, bs);
        assert(0 <= (x / bs) * bs) by (nonlinear_arith)
            requires
                0 <= x / bs,
                bs > 0,
        ;
    }
}

/// Reversing the blocks of the left side, then of the right side, then of the whole range
/// rotates the range, when both sides are made of whole blocks.
pub proof fn lemma_triple_block_reversal<T>(s: Seq<T>, lo: int, mid: int, hi: int, bs: int)
    requires
        0 <= lo <= mid <= hi <= s.len(),
        bs > 0,
        (mid - lo) % bs == 0,
        (hi - mid) % bs == 0,
    ensures
        blocks_reversed(sides_blocks_reversed(s, lo, mid, hi, bs), lo, hi, bs) == rotated(
            s,
            lo,
            mid,
            hi,
        ),
{
    let a = blocks_reversed(s, lo, mid, bs);
    let b = blocks_reversed(a, mid, hi, bs);
    let c = blocks_reversed(b, lo, hi, bs);
    let f = rotated(s, lo, mid, hi);
    lemma_multiple_sub(hi - mid, mid - lo, bs);
    assert forall|k: int| 0 <= k < s.len() implies c[k] == f[k] by {
        if lo <= k < hi {
            let x = k - lo;
            let u = x % bs;
            lemma_split(x, bs);
            let k2 = lo + hi - bs - k + 2 * u;
            // k2 - lo = (hi - lo - bs - (x - u)) + u, a block start plus u
            lemma_multiple_sub(hi - lo, x - u, bs);
            vstd::arithmetic::div_mod::lemma_mod_self_0(bs);
            lemma_multiple_sub(hi - lo - (x - u), bs, bs);
            lemma_mod_offset(hi - lo - (x - u) - bs, u, bs);
            assert((k2 - lo) % bs == u);
            crate::orbit::lemma_multiple_gap(x - u, hi - lo, bs);
            if x - u < hi - mid {
                crate::orbit::lemma_multiple_gap(x - u, hi - mid, bs);
            }
            if k2 < mid {
                assert(b[k2] == a[k2]);
            } else {
                // k2 - mid = (k2 - lo) - (mid - lo)
                lemma_multiple_sub(hi - lo - (x - u) - bs, mid - lo, bs);
                lemma_mod_offset(hi - lo - (x - u) - bs - (mid - lo), u, bs);
                assert((k2 - mid) % bs == u);
            }
        }
    }
    assert(c =~= f);
}


/// A range of at most one block keeps its order when its blocks are reversed.
pub proof fn lemma_blocks_reversed_single<T>(s: Seq<T>, a: int, b: int, bs: int)
    requires
        0 <= a <= b <= s.len(),
        bs > 0,
        b - a == 0 || b - a == bs,
    ensures
        blocks_reversed(s, a, b, bs) == s,
{
    assert forall|k: int| 0 <= k < s.len() implies #[trigger] blocks_reversed(s, a, b, bs)[k]
        == s[k] by {
        if a <= k < b {
            vstd::arithmetic::div_mod::lemma_small_mod((k - a) as nat, bs as nat);
        }
    }
    assert(blocks_reversed(s, a, b, bs) =~= s);
}

/// Exchanging the first and the last block of a range of whole blocks, then reversing the order
/// of the blocks between them, reverses the order of all its blocks.
pub proof fn lemma_blocks_reversed_step<T>(s: Seq<T>, a: int, b: int, bs: int)
    requires
        0 <= a,
        a + 2 * bs <= b <= s.len(),
        bs > 0,
        (b - a) % bs == 0,
    ensures
        blocks_reversed(blocks_swapped(s, a, b - bs, bs), a + bs, b - bs, bs) == blocks_reversed(
            s,
            a,
            b,
            bs,
        ),
{
    let t = blocks_swapped(s, a, b - bs, bs);
    let lhs = blocks_reversed(t, a + bs, b - bs, bs);
    let rhs = blocks_reversed(s, a, b, bs);
    vstd::arithmetic::div_mod::lemma_mod_self_0(bs);
    lemma_multiple_sub(b - a, bs, bs);
    lemma_multiple_sub(b - a - bs, bs, bs);
    assert forall|k: int| 0 <= k < s.len() implies lhs[k] == rhs[k] by {
        if a + bs <= k < b - bs {
            let x = k - a - bs;
            let u = x % bs;
            lemma_split(x, bs);
            lemma_multiple_sub(x - u, bs, bs);
            lemma_mod_offset(x - u + bs, u, bs);
            assert((k - a) % bs == u);
            assert((k - a - bs) % bs == u);
            crate::orbit::lemma_multiple_gap(x - u, b - a - 2 * bs, bs);
        } else if a <= k < a + bs {
            vstd::arithmetic::div_mod::lemma_small_mod((k - a) as nat, bs as nat);
        } else if b - bs <= k < b {
            lemma_mod_offset(b - a - bs, k - b + bs, bs);
        }
    }
    assert(lhs =~= rhs);
}

/// Reverses the order of the blocks of `bs` elements in `[lo, hi)`, which is made of whole
/// blocks: the first and the last block are exchanged, then the second and the last but one, and
/// so on inwards.
pub(crate) fn reverse_blocks<T: Copy>(v: &mut [T], lo: usize, hi: usize, bs: usize)
    requires
        lo + bs <= hi <= old(v)@.len(),
        bs > 0,
        (hi - lo) % (bs as int) == 0,
    ensures
        final(v)@ == blocks_reversed(old(v)@, lo as int, hi as int, bs as int),
{
    let ghost s = v@;
    let len = v.len();
    let mut start = lo;
    let mut end = hi - bs;
    while start < end
        invariant
            v@.len() == len,
            s.len() == len,
            lo <= start,
            start <= end + bs,
            end + bs <= hi,
            hi <= len,
            bs > 0,
            (end + bs - start) % (bs as int) == 0,
            blocks_reversed(v@, start as int, end + bs, bs as int) == blocks_reversed(
                s,
                lo as int,
                hi as int,
                bs as int,
            ),
        decreases end + bs - start,
    {
        proof {
            vstd::arithmetic::div_mod::lemma_mod_self_0(bs as int);
            crate::orbit::lemma_multiple_gap(bs as int, end + bs - start, bs as int);
            lemma_blocks_reversed_step(v@, start as int, end + bs, bs as int);
            lemma_multiple_sub(bs as int, bs as int, bs as int);
            lemma_multiple_sub(end + bs - start, bs + bs, bs as int);
        }
        swap_nonoverlapping(v, start, end, bs);
        start = start + bs;
        end = end - bs;
    }
    proof {
        if end + bs - start > 0 {
            vstd::arithmetic::div_mod::lemma_small_mod(0, bs as nat);
            if end + bs - start < bs {
                vstd::arithmetic::div_mod::lemma_small_mod((end + bs - start) as nat, bs as nat);
            }
        }
        lemma_blocks_reversed_single(v@, start as int, end + bs, bs as int);
    }
}


/// Two positive sides whose greatest common divisor is `bs` are made of whole blocks of `bs`
/// elements, and so is the range that they form.
pub proof fn lemma_block_sides(left: int, right: int, bs: int)
    requires
        left > 0,
        right > 0,
        bs == crate::divisors::gcd(left as nat, right as nat),
    ensures
        bs > 0,
        left % bs == 0,
        right % bs == 0,
        (left + right) % bs == 0,
        bs <= left,
        bs <= right,
{
    crate::divisors::lemma_gcd_divides(left as nat, right as nat);
    lemma_multiple_sub(left, right, bs);
    vstd::arithmetic::div_mod::lemma_small_mod(0, bs as nat);
    crate::orbit::lemma_multiple_gap(0, left, bs);
    crate::orbit::lemma_multiple_gap(0, right, bs);
}

} // verus!
