//! Array rotations: algorithms that rotate a range of a slice so that a given element becomes
//! its first, each proved to compute the same rotation.
use vstd::prelude::*;

pub mod model;
pub mod laws;
pub mod buf;
pub mod utils;
pub mod orbit;
pub mod juggling;
pub mod steps;
pub mod gm;
pub mod conjoined;
pub mod divisors;
pub mod blocks;
pub mod conjoined_blocks;

pub use crate::buf::{ptr_aux_rotate, ptr_bridge_rotate, ptr_naive_aux_rotate, ptr_trinity_rotate};
pub use crate::gm::{ptr_drill_rotate, ptr_griesmills_rotate, ptr_griesmills_rotate_rec};
pub use crate::utils::{block_copy, byte_copy, copy, reverse_slice, shift_left, shift_right, swap_backward, swap_forward};

use crate::model::{blocks_swapped, range_fits, rotated, rotation, lemma_rotated_trivial};
use crate::utils::{swap_elems, swap_nonoverlapping};
use crate::buf::{move_within, restore, take_side};
use crate::steps::{lemma_gm_back, lemma_gm_front, lemma_blocks_swapped_symmetric, lemma_helix_back, lemma_helix_front, lemma_piston_back, lemma_piston_front, lemma_triple_reversal};
use crate::juggling::juggle_rotate;
use crate::divisors::gcd_usize;
use crate::blocks::{lemma_block_sides, lemma_multiple_sub, lemma_triple_block_reversal, reverse_blocks};
use crate::conjoined_blocks::{bcontrev_state, cycle_blocks3, cycle_blocks4, lemma_bcontrev_finish, lemma_bcontrev_four, lemma_bcontrev_start, lemma_bcontrev_three_left, lemma_bcontrev_three_right, lemma_bcontrev_widen, lemma_block_halves, lemma_block_turn, whole_blocks};

verus! {

/// Two blocks of equal length next to each other trade places by a block swap.
pub proof fn lemma_equal_halves<T>(s: Seq<T>, start: int, n: int)
    requires
        0 <= start,
        0 < n,
        start + 2 * n <= s.len(),
    ensures
        blocks_swapped(s, start, start + n, n) == rotated(s, start, start + n, start + 2 * n),
{
    assert(blocks_swapped(s, start, start + n, n) =~= rotated(s, start, start + n, start + 2 * n));
}

/// # Edge case (left || right = 1)
///
/// Rotates the range `[mid - left, mid + right)` such that the element at `mid` becomes the first
/// element. Equivalently, rotates the range `left` elements to the left or `right` elements to the
/// right.
///
/// This case is optimized for the `left = 1` or `right = 1` situation: the single element is
/// held aside while the other side is shifted by one. Other cases fall back to the direct
/// rotation.
pub fn ptr_edge_rotate<T: Copy>(v: &mut [T], left: usize, mid: usize, right: usize)
    requires
        range_fits(old(v)@.len() as int, left as int, mid as int, right as int),
    ensures
        final(v)@ == rotation(old(v)@, left as int, mid as int, right as int),
{
    let ghost s = v@;
    if left == 0 || right == 0 {
        proof {
            lemma_rotated_trivial(s, mid - left, mid as int, mid + right);
        }
        return ;
    }
    let start = mid - left;
    if left == 1 {
        if right == 1 {
            swap_elems(v, start, mid);
            assert(v@ =~= rotation(s, left as int, mid as int, right as int));
        } else {
            let tmp = v[start];
            shift_left(v, mid, right);
            v[mid + right - 1] = tmp;
            assert(v@ =~= rotation(s, left as int, mid as int, right as int));
        }
    } else if right == 1 {
        let tmp = v[mid];
        shift_right(v, start, left);
        v[start] = tmp;
        assert(v@ =~= rotation(s, left as int, mid as int, right as int));
    } else {
        ptr_direct_rotate(v, left, mid, right);
    }
}

/// # Direct aka Juggling aka Dolphin rotation
///
/// Rotates the range `[mid - left, mid + right)` such that the element at `mid` becomes the first
/// element. Equivalently, rotates the range `left` elements to the left or `right` elements to the
/// right.
///
/// The elements are moved into their final positions one at a time starting at `mid - left` and
/// advancing by `right` steps modulo `left + right`, such that only one temporary is needed.
/// Eventually, we arrive back at `mid - left`. When `gcd(left + right, right)` is not 1 the steps
/// skipped over elements; the number of skipped elements between finalized ones is always the
/// same, so the rotation offsets the starting position and does more rounds (as many as that
/// gcd, found as the smallest offset reached in the first round). All elements are finalized
/// once and only once.
pub fn ptr_direct_rotate<T: Copy>(v: &mut [T], left: usize, mid: usize, right: usize)
    requires
        range_fits(old(v)@.len() as int, left as int, mid as int, right as int),
    ensures
        final(v)@ == rotation(old(v)@, left as int, mid as int, right as int),
{
    let ghost s = v@;
    if right == 0 || left == 0 {
        proof {
            lemma_rotated_trivial(s, mid - left, mid as int, mid + right);
        }
        return ;
    }
    let start = mid - left;
    if left == right {
        swap_nonoverlapping(v, start, mid, left);
        proof {
            lemma_equal_halves(s, start as int, left as int);
        }
        return ;
    }
    juggle_rotate(v, start, left, right);
}

/// # Triple reversal rotation
///
/// Rotates the range `[mid - left, mid + right)` such that the element at `mid` becomes the first
/// element. Equivalently, rotates the range `left` elements to the left or `right` elements to the
/// right.
///
/// Reverses the left side, then the right side, then the whole range. Sides of equal length
/// are swapped directly, and a side of at most one element goes to the edge rotation.
pub fn ptr_reversal_rotate<T: Copy>(v: &mut [T], left: usize, mid: usize, right: usize)
    requires
        range_fits(old(v)@.len() as int, left as int, mid as int, right as int),
    ensures
        final(v)@ == rotation(old(v)@, left as int, mid as int, right as int),
{
    let ghost s = v@;
    if right <= 1 || left <= 1 {
        ptr_edge_rotate(v, left, mid, right);
        return ;
    }
    let len = v.len();
    let start = mid - left;
    if left == right {
        swap_nonoverlapping(v, mid, start, left);
        proof {
            lemma_blocks_swapped_symmetric(s, mid as int, start as int, left as int);
            lemma_equal_halves(s, start as int, left as int);
        }
    } else {
        reverse_slice(v, start, left);
        reverse_slice(v, mid, right);
        reverse_slice(v, start, left + right);
        proof {
            lemma_triple_reversal(s, start as int, mid as int, mid + right);
        }
    }
}

/// # Successive aka Piston rotation (recursive variant)
///
/// Rotates the range `[mid - left, mid + right)` such that the element at `mid` becomes the first
/// element. Equivalently, rotates the range `left` elements to the left or `right` elements to the
/// right.
///
/// The smaller side is swapped with the far end of the larger side, into its final place, and
/// the rest is rotated the same way around the same `mid`; during the computation `mid` never
/// moves.
pub fn ptr_piston_rotate_rec<T: Copy>(v: &mut [T], left: usize, mid: usize, right: usize)
    requires
        range_fits(old(v)@.len() as int, left as int, mid as int, right as int),
    ensures
        final(v)@ == rotation(old(v)@, left as int, mid as int, right as int),
    decreases left + right,
{
    if left <= 1 || right <= 1 {
        ptr_edge_rotate(v, left, mid, right);
        return ;
    }
    let ghost s = v@;
    let len = v.len();
    let start = mid - left;
    if left < right {
        swap_nonoverlapping(v, start, start + right, left);
        proof {
            lemma_piston_front(s, start as int, mid as int, mid + right);
        }
        ptr_piston_rotate_rec(v, left, mid, right - left);
    } else {
        swap_nonoverlapping(v, mid, start, right);
        proof {
            lemma_piston_back(s, start as int, mid as int, mid + right);
        }
        ptr_piston_rotate_rec(v, left - right, mid, right);
    }
}

/// # Successive aka Piston rotation
///
/// Rotates the range `[mid - left, mid + right)` such that the element at `mid` becomes the first
/// element. Equivalently, rotates the range `left` elements to the left or `right` elements to the
/// right.
///
/// The iterative form of `ptr_piston_rotate_rec`: each turn of the main loop swaps the left side
/// to the far end while it fits, then the right side to the front while it fits; during the
/// computation `mid` never moves.
pub fn ptr_piston_rotate<T: Copy>(v: &mut [T], left: usize, mid: usize, right: usize)
    requires
        range_fits(old(v)@.len() as int, left as int, mid as int, right as int),
    ensures
        final(v)@ == rotation(old(v)@, left as int, mid as int, right as int),
{
    let ghost goal = rotation(v@, left as int, mid as int, right as int);
    let len = v.len();
    let mut left = left;
    let mut right = right;
    loop
        invariant
            range_fits(v@.len() as int, left as int, mid as int, right as int),
            v@.len() == len,
            rotation(v@, left as int, mid as int, right as int) == goal,
        ensures
            left <= 1 || right <= 1,
        decreases left + right,
    {
        if left <= 1 {
            break;
        }
        let ghost (l1, r1) = (left, right);
        while left <= right
            invariant
                2 <= left,
                left == l1,
                right <= r1,
                range_fits(v@.len() as int, left as int, mid as int, right as int),
                v@.len() == len,
                rotation(v@, left as int, mid as int, right as int) == goal,
            decreases right,
        {
            let ghost s = v@;
            swap_nonoverlapping(v, mid - left, mid + right - left, left);
            proof {
                lemma_piston_front(s, mid - left, mid as int, mid + right);
            }
            right = right - left;
        }
        if right <= 1 {
            break;
        }
        let ghost l2 = left;
        while left >= right
            invariant
                2 <= right,
                right < l1 + r1 - left + 1,
                left <= l2,
                left < l2 || left >= right,
                range_fits(v@.len() as int, left as int, mid as int, right as int),
                v@.len() == len,
                rotation(v@, left as int, mid as int, right as int) == goal,
            decreases left,
        {
            let ghost s = v@;
            swap_nonoverlapping(v, mid, mid - left, right);
            proof {
                lemma_piston_back(s, mid - left, mid as int, mid + right);
            }
            left = left - right;
        }
        assert(left + right < l1 + r1);
    }
    if left == 1 || right == 1 {
        ptr_edge_rotate(v, left, mid, right);
    } else {
        proof {
            crate::model::lemma_rotated_trivial(v@, mid - left, mid as int, mid + right);
        }
    }
}

/// # Helix rotation
///
/// Rotates the range `[mid - left, mid + right)` such that the element at `mid` becomes the first
/// element. Equivalently, rotates the range `left` elements to the left or `right` elements to the
/// right.
///
/// Like the Gries-Mills rotation, but the larger side is swept in one pass by the smaller one
/// (forward or backward, so that the two inner loops merge into one), which also goes on when the
/// smaller block no longer fits: the part of it that was swept around is rotated, and the loop
/// recalculates the left and right sides from there.
pub fn ptr_helix_rotate<T: Copy>(v: &mut [T], left: usize, mid: usize, right: usize)
    requires
        range_fits(old(v)@.len() as int, left as int, mid as int, right as int),
    ensures
        final(v)@ == rotation(old(v)@, left as int, mid as int, right as int),
{
    let ghost goal = rotation(v@, left as int, mid as int, right as int);
    let len = v.len();
    let mut left = left;
    let mut mid = mid;
    let mut right = right;
    let mut start = mid - left;
    let mut end = mid + right;
    let mut halves_swapped = false;
    loop
        invariant_except_break
            !halves_swapped,
        invariant
            range_fits(v@.len() as int, left as int, mid as int, right as int),
            v@.len() == len,
            start == mid - left,
            end == mid + right,
            !halves_swapped ==> rotation(v@, left as int, mid as int, right as int) == goal,
        ensures
            halves_swapped ==> v@ == goal,
            !halves_swapped ==> left <= 1 || right <= 1,
        decreases left + right,
    {
        let ghost s = v@;
        if left >= right {
            if right <= 1 {
                break;
            }
            if left == right {
                swap_nonoverlapping(v, mid - left, mid, right);
                proof {
                    lemma_equal_halves(s, start as int, left as int);
                }
                halves_swapped = true;
                break;
            }
            swap_backward(v, start, end - left, left);
            proof {
                lemma_helix_back(s, start as int, mid as int, end as int);
            }
            end = end - left;
            left = left % right;
            mid = start + left;
            right = right - left;
        } else {
            if left <= 1 {
                break;
            }
            swap_forward(v, mid, start, right);
            proof {
                lemma_helix_front(s, start as int, mid as int, end as int);
            }
            start = start + right;
            right = right % left;
            mid = end - right;
            left = left - right;
        }
    }
    if halves_swapped {
    } else if left == 1 || right == 1 {
        ptr_edge_rotate(v, left, mid, right);
    } else {
        proof {
            crate::model::lemma_rotated_trivial(v@, mid - left, mid as int, mid + right);
        }
    }
}

/// # Contrev (conjoined triple reversal) rotation
///
/// Rotates the range `[mid - left, mid + right)` such that the element at `mid` becomes the first
/// element. Equivalently, rotates the range `left` elements to the left or `right` elements to the
/// right.
///
/// Derived from the triple reversal rotation: rather than three separate reversals it conjoins
/// them, moving elements in cycles of four (then three) positions from both ends of both sides
/// inwards, and finally reverses what is left in the middle.
pub fn ptr_contrev_rotate<T: Copy>(v: &mut [T], left: usize, mid: usize, right: usize)
    requires
        range_fits(old(v)@.len() as int, left as int, mid as int, right as int),
    ensures
        final(v)@ == rotation(old(v)@, left as int, mid as int, right as int),
{
    let ghost s = v@;
    if left == 0 || right == 0 {
        proof {
            lemma_rotated_trivial(s, mid - left, mid as int, mid + right);
        }
        return ;
    }
    if left == right {
        swap_nonoverlapping(v, mid, mid - left, right);
        proof {
            lemma_blocks_swapped_symmetric(s, mid as int, mid - left, left as int);
            lemma_equal_halves(s, mid - left, left as int);
        }
        return ;
    }
    let len = v.len();
    let ghost lo = mid - left;
    let ghost hi = mid + right;
    let mut ls = mid - left;
    let mut le = mid - 1;
    let mut rs = mid;
    let mut re = mid + right - 1;
    let half_min = if left <= right { left / 2 } else { right / 2 };
    let half_max = if left <= right { right / 2 } else { left / 2 };
    let mut i: usize = 0;
    proof {
        crate::conjoined::lemma_contrev_start(s, lo, mid as int, hi);
    }
    while i < half_min
        invariant
            v@.len() == len,
            s.len() == len,
            lo == mid - left,
            left <= mid,
            hi == mid + right,
            hi <= len,
            0 < left,
            0 < right,
            half_min == if left <= right { left / 2 } else { right / 2 },
            i <= half_min,
            ls == lo + i,
            le == mid - 1 - i,
            rs == mid + i,
            re == hi - 1 - i,
            crate::conjoined::contrev_state(v@, s, lo, mid as int, hi, i as int, mid - i, mid + i),
        decreases half_min - i,
    {
        proof {
            crate::conjoined::lemma_contrev_four(v@, s, lo, mid as int, hi, i as int);
        }
        let a = v[ls];
        let b = v[le];
        v[le] = a;
        let c = v[re];
        v[re] = b;
        let d = v[rs];
        v[rs] = c;
        v[ls] = d;
        ls = ls + 1;
        le = le - 1;
        rs = rs + 1;
        re = re - 1;
        i = i + 1;
    }
    if left > right {
        proof {
            crate::conjoined::lemma_contrev_widen(
                v@, s, lo, mid as int, hi, i as int, mid - i, mid + i, mid - i,
                hi - i,
            );
        }
        while i < half_max
            invariant
                v@.len() == len,
                s.len() == len,
                lo == mid - left,
                left <= mid,
                hi == mid + right,
                hi <= len,
                0 < right < left,
                half_max == left / 2,
                i <= half_max,
                ls == lo + i,
                le == mid - 1 - i,
                re == hi - 1 - i,
                crate::conjoined::contrev_state(v@, s, lo, mid as int, hi, i as int, mid - i, hi - i),
            decreases half_max - i,
        {
            proof {
                crate::conjoined::lemma_contrev_three_left(v@, s, lo, mid as int, hi, i as int);
            }
            let a = v[ls];
            let b = v[le];
            v[le] = a;
            let c = v[re];
            v[re] = b;
            v[ls] = c;
            ls = ls + 1;
            le = le - 1;
            re = re - 1;
            i = i + 1;
        }
        proof {
            crate::conjoined::lemma_contrev_widen(
                v@, s, lo, mid as int, hi, i as int, mid - i, hi - i, lo + i,
                hi - i,
            );
        }
    } else {
        proof {
            crate::conjoined::lemma_contrev_widen(
                v@, s, lo, mid as int, hi, i as int, mid - i, mid + i, lo + i,
                mid + i,
            );
        }
        while i < half_max
            invariant
                v@.len() == len,
                s.len() == len,
                lo == mid - left,
                left <= mid,
                hi == mid + right,
                hi <= len,
                0 < left < right,
                half_max == right / 2,
                i <= half_max,
                ls == lo + i,
                rs == mid + i,
                re == hi - 1 - i,
                crate::conjoined::contrev_state(v@, s, lo, mid as int, hi, i as int, lo + i, mid + i),
            decreases half_max - i,
        {
            proof {
                crate::conjoined::lemma_contrev_three_right(v@, s, lo, mid as int, hi, i as int);
            }
            let a = v[ls];
            let c = v[re];
            v[re] = a;
            let d = v[rs];
            v[rs] = c;
            v[ls] = d;
            ls = ls + 1;
            rs = rs + 1;
            re = re - 1;
            i = i + 1;
        }
        proof {
            crate::conjoined::lemma_contrev_widen(
                v@, s, lo, mid as int, hi, i as int, lo + i, mid + i, lo + i,
                hi - i,
            );
        }
    }
    proof {
        crate::conjoined::lemma_contrev_finish(v@, s, lo, mid as int, hi, i as int);
    }
    reverse_slice(v, ls, re - ls + 1);
}


/// # Triple block reversal rotation
///
/// Rotates the range `[mid - left, mid + right)` such that the element at `mid` becomes the first
/// element. Equivalently, rotates the range `left` elements to the left or `right` elements to the
/// right.
///
/// The triple reversal rotation over blocks of `gcd(left, right)` elements: reverses the order of
/// the blocks of the left side, then of the right side, then of the whole range; each block keeps
/// the order of its elements. With a block size of one it is the triple reversal rotation.
pub fn ptr_block_reversal_rotate<T: Copy>(v: &mut [T], left: usize, mid: usize, right: usize)
    requires
        range_fits(old(v)@.len() as int, left as int, mid as int, right as int),
    ensures
        final(v)@ == rotation(old(v)@, left as int, mid as int, right as int),
{
    let ghost s = v@;
    if right <= 1 || left <= 1 {
        ptr_edge_rotate(v, left, mid, right);
        return ;
    }
    let len = v.len();
    let start = mid - left;
    if left == right {
        swap_nonoverlapping(v, mid, start, left);
        proof {
            lemma_blocks_swapped_symmetric(s, mid as int, start as int, left as int);
            lemma_equal_halves(s, start as int, left as int);
        }
    } else {
        let block_size = gcd_usize(left, right);
        if block_size == 1 {
            ptr_reversal_rotate(v, left, mid, right);
        } else {
            proof {
                lemma_block_sides(left as int, right as int, block_size as int);
            }
            reverse_blocks(v, start, mid, block_size);
            reverse_blocks(v, mid, mid + right, block_size);
            reverse_blocks(v, start, mid + right, block_size);
            proof {
                lemma_triple_block_reversal(s, start as int, mid as int, mid + right, block_size as int);
            }
        }
    }
}


/// # ContrevB (generalized conjoined triple reversal) rotation
///
/// Rotates the range `[mid - left, mid + right)` such that the element at `mid` becomes the first
/// element. Equivalently, rotates the range `left` elements to the left or `right` elements to the
/// right.
///
/// The generalization of the Contrev rotation: instead of single elements it moves blocks of
/// `gcd(left, right)` elements, in cycles of four (then three) blocks from both ends of both sides
/// inwards, and finally reverses the order of the blocks left in the middle. When
/// `gcd(left, right) = 1` it is the usual Contrev.
pub fn ptr_block_contrev_rotate<T: Copy>(v: &mut [T], left: usize, mid: usize, right: usize)
    requires
        range_fits(old(v)@.len() as int, left as int, mid as int, right as int),
    ensures
        final(v)@ == rotation(old(v)@, left as int, mid as int, right as int),
{
    let ghost s = v@;
    if left <= 1 || right <= 1 {
        ptr_edge_rotate(v, left, mid, right);
        return ;
    }
    let len = v.len();
    if left == right {
        swap_nonoverlapping(v, mid, mid - left, right);
        proof {
            lemma_blocks_swapped_symmetric(s, mid as int, mid - left, left as int);
            lemma_equal_halves(s, mid - left, left as int);
        }
        return ;
    }
    let bs = gcd_usize(left, right);
    if bs == 1 {
        ptr_contrev_rotate(v, left, mid, right);
        return ;
    }
    proof {
        lemma_block_sides(left as int, right as int, bs as int);
    }
    let ghost lo = mid - left;
    let ghost hi = mid + right;
    let mut ls = mid - left;
    let mut le = mid - bs;
    let mut rs = mid;
    let mut re = mid + right - bs;
    let min_side = if left <= right { left } else { right };
    let max_side = if left <= right { right } else { left };
    let half_min = min_side / bs / 2;
    let half_max = max_side / bs / 2;
    let mut i: usize = 0;
    let ghost mut d: int = 0;
    proof {
        lemma_bcontrev_start(s, lo, mid as int, hi, bs as int);
        lemma_block_halves(min_side as int, bs as int, half_min as int);
        lemma_block_halves(max_side as int, bs as int, half_max as int);
    }
    while i < half_min
        invariant
            v@.len() == len,
            s.len() == len,
            whole_blocks(lo, mid as int, hi, bs as int, len as int),
            lo == mid - left,
            hi == mid + right,
            hi <= len,
            min_side == if left <= right { left } else { right },
            min_side % bs == 0,
            half_min == min_side / bs / 2,
            half_max == max_side / bs / 2,
            max_side == if left <= right { right } else { left },
            i <= half_min,
            d == i * bs,
            ls == lo + d,
            le == mid - bs - d,
            rs == mid + d,
            re == hi - bs - d,
            bcontrev_state(v@, s, lo, mid as int, hi, bs as int, d, mid - d, mid + d),
        decreases half_min - i,
    {
        proof {
            lemma_block_turn(i as int, half_min as int, min_side as int, bs as int);
            lemma_bcontrev_four(v@, s, lo, mid as int, hi, bs as int, d);
        }
        cycle_blocks4(v, ls, rs, re, le, bs);
        ls = ls + bs;
        le = le - bs;
        rs = rs + bs;
        re = re - bs;
        i = i + 1;
        proof {
            d = d + bs;
        }
    }
    proof {
        vstd::arithmetic::div_mod::lemma_div_is_ordered(min_side as int, max_side as int, bs as int);
        vstd::arithmetic::div_mod::lemma_div_is_ordered((min_side / bs) as int, (max_side / bs) as int, 2);
    }
    if left > right {
        proof {
            lemma_bcontrev_widen(v@, s, lo, mid as int, hi, bs as int, d, mid - d, mid + d, mid - d, hi - d);
        }
        while i < half_max
            invariant
                v@.len() == len,
                s.len() == len,
                whole_blocks(lo, mid as int, hi, bs as int, len as int),
                lo == mid - left,
                hi == mid + right,
                hi <= len,
                0 < bs <= right < left,
                left % bs == 0,
                half_max == left / bs / 2,
                i <= half_max,
                d == i * bs,
                ls == lo + d,
                le == mid - bs - d,
                re == hi - bs - d,
                bcontrev_state(v@, s, lo, mid as int, hi, bs as int, d, mid - d, hi - d),
            decreases half_max - i,
        {
            proof {
                lemma_block_turn(i as int, half_max as int, left as int, bs as int);
                lemma_bcontrev_three_left(v@, s, lo, mid as int, hi, bs as int, d);
            }
            cycle_blocks3(v, ls, re, le, bs);
            ls = ls + bs;
            le = le - bs;
            re = re - bs;
            i = i + 1;
            proof {
                d = d + bs;
            }
        }
        proof {
            lemma_bcontrev_widen(v@, s, lo, mid as int, hi, bs as int, d, mid - d, hi - d, lo + d, hi - d);
        }
    } else {
        proof {
            lemma_bcontrev_widen(v@, s, lo, mid as int, hi, bs as int, d, mid - d, mid + d, lo + d, mid + d);
        }
        while i < half_max
            invariant
                v@.len() == len,
                s.len() == len,
                whole_blocks(lo, mid as int, hi, bs as int, len as int),
                lo == mid - left,
                hi == mid + right,
                hi <= len,
                0 < bs <= left < right,
                right % bs == 0,
                half_max == right / bs / 2,
                i <= half_max,
                d == i * bs,
                ls == lo + d,
                rs == mid + d,
                re == hi - bs - d,
                bcontrev_state(v@, s, lo, mid as int, hi, bs as int, d, lo + d, mid + d),
            decreases half_max - i,
        {
            proof {
                lemma_block_turn(i as int, half_max as int, right as int, bs as int);
                lemma_bcontrev_three_right(v@, s, lo, mid as int, hi, bs as int, d);
            }
            cycle_blocks3(v, ls, rs, re, bs);
            ls = ls + bs;
            rs = rs + bs;
            re = re - bs;
            i = i + 1;
            proof {
                d = d + bs;
            }
        }
        proof {
            lemma_bcontrev_widen(v@, s, lo, mid as int, hi, bs as int, d, lo + d, mid + d, lo + d, hi - d);
        }
    }
    proof {
        lemma_bcontrev_finish(v@, s, lo, mid as int, hi, bs as int, d);
        lemma_multiple_sub(hi - lo, d, bs as int);
        lemma_multiple_sub(hi - lo - d, d, bs as int);
        assert(re + bs - ls >= bs);
    }
    reverse_blocks(v, ls, re + bs, bs);
}

/// # Stable rotation
///
/// Rotates the range `[mid - left, mid + right)` such that the element at `mid` becomes the first
/// element. Equivalently, rotates the range `left` elements to the left or `right` elements to the
/// right.
///
/// The rotation of the standard library's slices, which picks one of three algorithms:
///
/// 1. when `left + right < 24`, or `T` is larger than four `usize`s, the
///    juggling rotation, which moves every element straight to its final place;
/// 2. else, when the smaller side fits in `32` `usize`s, the auxiliary rotation: the smaller side
///    is copied aside, the larger one moved by a `memmove`, and the smaller one copied back;
/// 3. otherwise the smaller side is swapped repeatedly with its neighbour towards its place,
///    until a smaller rotation is left, which starts over.
///
/// The second choice divides by the size of `T`, so a zero-sized `T` is accepted only where the
/// first algorithm is taken: when a side is empty or `left + right < 24`.
pub fn stable_ptr_rotate<T: Copy>(v: &mut [T], left: usize, mid: usize, right: usize)
    requires
        range_fits(old(v)@.len() as int, left as int, mid as int, right as int),
        vstd::layout::size_of::<T>() > 0 || left + right < 24 || left == 0 || right == 0,
    ensures
        final(v)@ == rotation(old(v)@, left as int, mid as int, right as int),
{
    let ghost goal = rotation(v@, left as int, mid as int, right as int);
    let ghost (l0, r0) = (left as int, right as int);
    let len = v.len();
    let mut left = left;
    let mut mid = mid;
    let mut right = right;
    loop
        invariant_except_break
            range_fits(v@.len() as int, left as int, mid as int, right as int),
            rotation(v@, left as int, mid as int, right as int) == goal,
        invariant
            v@.len() == len,
            left <= l0,
            right <= r0,
            vstd::layout::size_of::<T>() > 0 || l0 + r0 < 24 || l0 == 0 || r0 == 0,
        ensures
            v@ == goal,
        decreases left + right,
    {
        if right == 0 || left == 0 {
            proof {
                lemma_rotated_trivial(v@, mid - left, mid as int, mid + right);
            }
            break;
        }
        let size = core::mem::size_of::<T>();
        if left + right < 24 || size > core::mem::size_of::<[usize; 4]>() {
            juggle_rotate(v, mid - left, left, right);
            break;
        } else if (if left <= right { left } else { right }) <= core::mem::size_of::<[usize; 32]>() / size {
            let ghost s = v@;
            let start = mid - left;
            let dim = start + right;
            if left <= right {
                let buf = take_side(v, start, left);
                move_within(v, mid, mid + right, start);
                restore(buf.as_slice(), v, dim, left);
            } else {
                let buf = take_side(v, mid, right);
                move_within(v, start, mid, dim);
                restore(buf.as_slice(), v, start, right);
            }
            assert(v@ =~= rotation(s, left as int, mid as int, right as int));
            break;
        } else if left >= right {
            loop
                invariant_except_break
                    0 < right <= left,
                invariant
                    range_fits(v@.len() as int, left as int, mid as int, right as int),
                    v@.len() == len,
                    rotation(v@, left as int, mid as int, right as int) == goal,
                ensures
                    range_fits(v@.len() as int, left as int, mid as int, right as int),
                    v@.len() == len,
                    rotation(v@, left as int, mid as int, right as int) == goal,
                    0 < right,
                    left < right,
                decreases left,
            {
                let ghost s = v@;
                swap_nonoverlapping(v, mid - right, mid, right);
                proof {
                    lemma_blocks_swapped_symmetric(s, mid - right, mid as int, right as int);
                    lemma_gm_back(s, mid - left, mid as int, mid + right);
                }
                mid = mid - right;
                left = left - right;
                if left < right {
                    break;
                }
            }
        } else {
            loop
                invariant_except_break
                    0 < left <= right,
                invariant
                    range_fits(v@.len() as int, left as int, mid as int, right as int),
                    v@.len() == len,
                    rotation(v@, left as int, mid as int, right as int) == goal,
                ensures
                    range_fits(v@.len() as int, left as int, mid as int, right as int),
                    v@.len() == len,
                    rotation(v@, left as int, mid as int, right as int) == goal,
                    0 < left,
                    right < left,
                decreases right,
            {
                let ghost s = v@;
                swap_nonoverlapping(v, mid - left, mid, left);
                proof {
                    lemma_gm_front(s, mid - left, mid as int, mid + right);
                }
                mid = mid + left;
                right = right - left;
                if right < left {
                    break;
                }
            }
        }
    }
}

} // verus!
