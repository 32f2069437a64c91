//! Element moves that the rotations are built from: swaps, block swaps, reversals, copies and
//! shifts over a range of a slice.
use vstd::prelude::*;
use crate::model::{blocks_swapped, copied, max, min, reversed, swept_backward, swept_forward};

verus! {

/// Exchanges the elements at `i` and `j`.
pub(crate) fn swap_elems<T: Copy>(v: &mut [T], i: usize, j: usize)
    requires
        i < old(v)@.len(),
        j < old(v)@.len(),
    ensures
        final(v)@ == old(v)@.update(i as int, old(v)@[j as int]).update(j as int, old(v)@[i as int]),
{
    let a = v[i];
    let b = v[j];
    v[i] = b;
    v[j] = a;
}

/// Exchanges the blocks `[a, a + n)` and `[b, b + n)`, which do not overlap.
pub(crate) fn swap_nonoverlapping<T: Copy>(v: &mut [T], a: usize, b: usize, n: usize)
    requires
        a + n <= b || b + n <= a,
        a + n <= old(v)@.len(),
        b + n <= old(v)@.len(),
    ensures
        final(v)@ == blocks_swapped(old(v)@, a as int, b as int, n as int),
{
    let ghost s = v@;
    let len = v.len();
    let mut i: usize = 0;
    assert(v@ =~= blocks_swapped(s, a as int, b as int, 0));
    while i < n
        invariant
            i <= n,
            a + n <= b || b + n <= a,
            a + n <= s.len(),
            b + n <= s.len(),
            s.len() == len,
            v@ == blocks_swapped(s, a as int, b as int, i as int),
        decreases n - i,
    {
        swap_elems(v, a + i, b + i);
        i = i + 1;
        assert(v@ =~= blocks_swapped(s, a as int, b as int, i as int));
    }
}

/// Copies the `n` elements from `src` on to the positions from `dst` on, where the two ranges
/// do not overlap.
pub(crate) fn copy_nonoverlapping<T: Copy>(v: &mut [T], src: usize, dst: usize, n: usize)
    requires
        src + n <= dst || dst + n <= src,
        src + n <= old(v)@.len(),
        dst + n <= old(v)@.len(),
    ensures
        final(v)@ == copied(old(v)@, src as int, dst as int, n as int),
{
    let ghost s = v@;
    let len = v.len();
    let mut i: usize = 0;
    assert(v@ =~= copied(s, src as int, dst as int, 0));
    while i < n
        invariant
            i <= n,
            src + n <= dst || dst + n <= src,
            src + n <= s.len(),
            dst + n <= s.len(),
            s.len() == len,
            v@ == copied(s, src as int, dst as int, i as int),
        decreases n - i,
    {
        let x = v[src + i];
        v[dst + i] = x;
        i = i + 1;
        assert(v@ =~= copied(s, src as int, dst as int, i as int));
    }
}

/// # Reverse slice
///
/// Reverses the range `[p, p + count)`.
pub fn reverse_slice<T: Copy>(v: &mut [T], p: usize, count: usize)
    requires
        p + count <= old(v)@.len(),
    ensures
        final(v)@ == reversed(old(v)@, p as int, (p + count) as int),
{
    let ghost s = v@;
    let len = v.len();
    let half = count / 2;
    let mut i: usize = 0;
    while i < half
        invariant
            half == count / 2,
            i <= half,
            p + count <= s.len(),
            v@.len() == s.len(),
            s.len() == len,
            forall|k: int|
                0 <= k < s.len() ==> #[trigger] v@[k] == if (p <= k < p + i) || (p + count - i <= k
                    < p + count) {
                    s[2 * p + count - 1 - k]
                } else {
                    s[k]
                },
        decreases half - i,
    {
        swap_elems(v, p + i, p + count - 1 - i);
        i = i + 1;
    }
    assert(v@ =~= reversed(s, p as int, (p + count) as int));
}

/// # Copy (may overlap)
///
/// Copies the range `[src, src + count)` to `[dst, dst + count)` element by element, in the
/// direction that reads every element before it is overwritten, so the ranges may overlap.
pub fn copy<T: Copy>(v: &mut [T], src: usize, dst: usize, count: usize)
    requires
        src + count <= old(v)@.len(),
        dst + count <= old(v)@.len(),
    ensures
        final(v)@ == copied(old(v)@, src as int, dst as int, count as int),
{
    let ghost s = v@;
    let len = v.len();
    if src == dst {
        assert(v@ =~= copied(s, src as int, dst as int, count as int));
        return ;
    } else if src > dst {
        let mut i: usize = 0;
        assert(v@ =~= copied(s, src as int, dst as int, 0));
        while i < count
            invariant
                i <= count,
                src > dst,
                src + count <= s.len(),
                dst + count <= s.len(),
                s.len() == len,
                v@ == copied(s, src as int, dst as int, i as int),
            decreases count - i,
        {
            let x = v[src + i];
            v[dst + i] = x;
            i = i + 1;
            assert(v@ =~= copied(s, src as int, dst as int, i as int));
        }
    } else {
        let mut i: usize = count;
        assert(v@ =~= copied(s, src + count, dst + count, 0));
        while i > 0
            invariant
                i <= count,
                src < dst,
                src + count <= s.len(),
                dst + count <= s.len(),
                s.len() == len,
                v@ == copied(s, src + i, dst + i, count - i),
            decreases i,
        {
            i = i - 1;
            let x = v[src + i];
            v[dst + i] = x;
            assert(v@ =~= copied(s, src + i, dst + i, count - i));
        }
    }
}

/// # Copy (may overlap), byte by byte
///
/// `bytes` holds elements of `size` bytes each. Copies the `count` elements from element
/// position `src` on to the positions from `dst` on, one byte at a time, so the ranges may
/// overlap.
pub fn byte_copy(bytes: &mut [u8], src: usize, dst: usize, count: usize, size: usize)
    requires
        (src + count) * size <= old(bytes)@.len(),
        (dst + count) * size <= old(bytes)@.len(),
    ensures
        final(bytes)@ == copied(
            old(bytes)@,
            src * size as int,
            dst * size as int,
            count * size as int,
        ),
{
    let len = bytes.len();
    proof {
        assert((src + count) * size == src * size + count * size) by (nonlinear_arith);
        assert((dst + count) * size == dst * size + count * size) by (nonlinear_arith);
        assert(0 <= count * size) by (nonlinear_arith);
        assert(0 <= src * size) by (nonlinear_arith);
        assert(0 <= dst * size) by (nonlinear_arith);
    }
    copy(bytes, src * size, dst * size, count * size);
}

/// # Copy (may overlap), block by block
///
/// Copies the range `[src, src + count)` to `[dst, dst + count)`. The copy moves blocks of
/// `|dst - src|` elements, each of which does not overlap its target, in the direction that reads
/// every element before it is overwritten, so the ranges may overlap.
pub fn block_copy<T: Copy>(v: &mut [T], src: usize, dst: usize, count: usize)
    requires
        src + count <= old(v)@.len(),
        dst + count <= old(v)@.len(),
    ensures
        final(v)@ == copied(old(v)@, src as int, dst as int, count as int),
{
    let ghost s = v@;
    let len = v.len();
    let block_size = if dst >= src {
        dst - src
    } else {
        src - dst
    };
    if src == dst {
        assert(v@ =~= copied(s, src as int, dst as int, count as int));
    } else if block_size == 1 {
        copy(v, src, dst, count);
    } else if block_size > count {
        copy_nonoverlapping(v, src, dst, count);
    } else {
        let rounds = count / block_size;
        let rem = count % block_size;
        assert(count == rounds * block_size + rem) by (nonlinear_arith)
            requires
                rounds == count / block_size,
                rem == count % block_size,
                block_size > 0,
        ;
        if src < dst {
            let mut sp = src + count;
            let mut dp = dst + count;
            let mut t: usize = 0;
            assert(v@ =~= copied(s, sp as int, dp as int, 0));
            while t < rounds
                invariant
                    src < dst,
                    block_size == dst - src,
                    rounds == count / block_size,
                    rem == count % block_size,
                    count == rounds * block_size + rem,
                    t <= rounds,
                    sp + t * block_size == src + count,
                    dp == sp + block_size,
                    src + count <= s.len(),
                    dst + count <= s.len(),
                    s.len() == len,
                    v@ == copied(s, sp as int, dp as int, (src + count - sp) as int),
                decreases rounds - t,
            {
                proof {
                    assert(t * block_size + block_size <= rounds * block_size) by (nonlinear_arith)
                        requires
                            t < rounds,
                    ;
                    assert((t + 1) * block_size == t * block_size + block_size) by (nonlinear_arith);
                }
                sp = sp - block_size;
                dp = dp - block_size;
                copy_nonoverlapping(v, sp, dp, block_size);
                t = t + 1;
                assert(v@ =~= copied(s, sp as int, dp as int, (src + count - sp) as int));
            }
            sp = sp - rem;
            dp = dp - rem;
            copy_nonoverlapping(v, sp, dp, rem);
            assert(v@ =~= copied(s, src as int, dst as int, count as int));
        } else {
            let mut sp = src;
            let mut dp = dst;
            let mut t: usize = 0;
            assert(v@ =~= copied(s, src as int, dst as int, 0));
            while t < rounds
                invariant
                    src > dst,
                    block_size == src - dst,
                    rounds == count / block_size,
                    rem == count % block_size,
                    count == rounds * block_size + rem,
                    t <= rounds,
                    sp == src + t * block_size,
                    sp == dp + block_size,
                    src + count <= s.len(),
                    dst + count <= s.len(),
                    s.len() == len,
                    v@ == copied(s, src as int, dst as int, (sp - src) as int),
                decreases rounds - t,
            {
                proof {
                    assert(t * block_size + block_size <= rounds * block_size) by (nonlinear_arith)
                        requires
                            t < rounds,
                    ;
                    assert((t + 1) * block_size == t * block_size + block_size) by (nonlinear_arith);
                }
                copy_nonoverlapping(v, sp, dp, block_size);
                sp = sp + block_size;
                dp = dp + block_size;
                t = t + 1;
                assert(v@ =~= copied(s, src as int, dst as int, (sp - src) as int));
            }
            copy_nonoverlapping(v, sp, dp, rem);
            assert(v@ =~= copied(s, src as int, dst as int, count as int));
        }
    }
}

/// # Shift left (backward)
///
/// Shifts the range `[arr, arr + count)` one position to the left, to `[arr - 1, arr - 1 + count)`;
/// the last position of the range keeps its element.
pub fn shift_left<T: Copy>(v: &mut [T], arr: usize, count: usize)
    requires
        1 <= arr,
        arr + count <= old(v)@.len(),
    ensures
        final(v)@ == copied(old(v)@, arr as int, arr - 1, count as int),
{
    copy(v, arr, arr - 1, count);
}

/// # Shift right (forward)
///
/// Shifts the range `[arr, arr + count)` one position to the right, to
/// `[arr + 1, arr + 1 + count)`; the first position of the range keeps its element.
pub fn shift_right<T: Copy>(v: &mut [T], arr: usize, count: usize)
    requires
        arr + count + 1 <= old(v)@.len(),
    ensures
        final(v)@ == copied(old(v)@, arr as int, arr + 1, count as int),
{
    let len = v.len();
    copy(v, arr, arr + 1, count);
}

/// # Swap forward
///
/// Exchanges the elements at `x + i` and `y + i` for `i` from `0` up to `count - 1`, in that
/// order. The regions `[x, x + count)` and `[y, y + count)` may overlap.
pub fn swap_forward<T: Copy>(v: &mut [T], x: usize, y: usize, count: usize)
    requires
        x + count <= old(v)@.len(),
        y + count <= old(v)@.len(),
    ensures
        final(v)@ == swept_forward(old(v)@, min(x as int, y as int), max(x as int, y as int), count as int),
{
    let ghost s = v@;
    let len = v.len();
    let ghost a = min(x as int, y as int);
    let ghost b = max(x as int, y as int);
    let mut i: usize = 0;
    assert forall|k: int| 0 <= k < s.len() implies #[trigger] swept_forward(s, a, b, 0)[k] == s[k] by {
        if a <= k < b {
            vstd::arithmetic::div_mod::lemma_small_mod((k - a) as nat, (b - a) as nat);
        }
    }
    assert(v@ =~= swept_forward(s, a, b, 0));
    while i < count
        invariant
            i <= count,
            a == min(x as int, y as int),
            b == max(x as int, y as int),
            x + count <= s.len(),
            y + count <= s.len(),
            s.len() == len,
            v@ == swept_forward(s, a, b, i as int),
        decreases count - i,
    {
        swap_elems(v, x + i, y + i);
        proof {
            let d = b - a;
            if d > 0 {
                assert((d + i) % d == (i as int) % d) by {
                    vstd::arithmetic::div_mod::lemma_mod_add_multiples_vanish(i as int, d);
                }
            }
        }
        i = i + 1;
        assert(v@ =~= swept_forward(s, a, b, i as int));
    }
}

/// # Swap backward
///
/// Exchanges the elements at `x + i` and `y + i` for `i` from `count - 1` down to `0`, in that
/// order. The regions `[x, x + count)` and `[y, y + count)` may overlap.
pub fn swap_backward<T: Copy>(v: &mut [T], x: usize, y: usize, count: usize)
    requires
        x + count <= old(v)@.len(),
        y + count <= old(v)@.len(),
    ensures
        final(v)@ == swept_backward(old(v)@, min(x as int, y as int), max(x as int, y as int), count as int),
{
    let ghost s = v@;
    let len = v.len();
    let ghost a = min(x as int, y as int);
    let ghost b = max(x as int, y as int);
    let mut j: usize = 0;
    assert forall|k: int| 0 <= k < s.len() implies #[trigger] swept_backward(s, a + count, b + count, 0)[k] == s[k] by {
        if a + count <= k < b + count {
            vstd::arithmetic::div_mod::lemma_small_mod((k - a - count) as nat, (b - a) as nat);
        }
    }
    assert(v@ =~= swept_backward(s, a + count, b + count, 0));
    while j < count
        invariant
            j <= count,
            a == min(x as int, y as int),
            b == max(x as int, y as int),
            x + count <= s.len(),
            y + count <= s.len(),
            s.len() == len,
            v@ == swept_backward(s, a + count - j, b + count - j, j as int),
        decreases count - j,
    {
        swap_elems(v, x + count - 1 - j, y + count - 1 - j);
        proof {
            let d = b - a;
            if d > 0 {
                assert((d - j - 1) % d == (-j - 1) % d) by {
                    vstd::arithmetic::div_mod::lemma_mod_add_multiples_vanish(-j - 1, d);
                }
            }
        }
        j = j + 1;
        assert(v@ =~= swept_backward(s, a + count - j, b + count - j, j as int));
    }
}

} // verus!
