//! Rotations that swap the smaller side towards its place and continue with what is left:
//! Gries-Mills (recursive and iterative) and drill.
use vstd::prelude::*;
use crate::model::{range_fits, rotation};
use crate::utils::{swap_backward, swap_forward, swap_nonoverlapping};
use crate::steps::{lemma_drill_back, lemma_drill_front, lemma_gm_back, lemma_gm_front};
use crate::ptr_edge_rotate;

verus! {

/// # Gries-Mills rotation (recursive version)
///
/// Rotates the range `[mid - left, mid + right)` such that the element at `mid` becomes the first
/// element. Equivalently, rotates the range `left` elements to the left or `right` elements to the
/// right.
///
/// The smaller side is swapped linearly towards its proper location; the blocks behind it are
/// then in place, and what remains of the larger side is rotated the same way, until the smaller
/// side has at most `2` elements, which the edge rotation finishes.
pub fn ptr_griesmills_rotate_rec<T: Copy>(v: &mut [T], left: usize, mid: usize, right: usize)
    requires
        range_fits(old(v)@.len() as int, left as int, mid as int, right as int),
    ensures
        final(v)@ == rotation(old(v)@, left as int, mid as int, right as int),
    decreases left + right,
{
    if right <= 2 || left <= 2 {
        ptr_edge_rotate(v, left, mid, right);
        return ;
    }
    let ghost s = v@;
    let len = v.len();
    if left < right {
        let start = mid - left;
        swap_nonoverlapping(v, start, mid, left);
        proof {
            lemma_gm_front(s, start as int, mid as int, mid + right);
        }
        ptr_griesmills_rotate_rec(v, left, mid + left, right - left);
    } else {
        swap_nonoverlapping(v, mid, mid - right, right);
        proof {
            lemma_gm_back(s, mid - left, mid as int, mid + right);
        }
        ptr_griesmills_rotate_rec(v, left - right, mid - right, right);
    }
}

/// # Gries-Mills rotation
///
/// Rotates the range `[mid - left, mid + right)` such that the element at `mid` becomes the first
/// element. Equivalently, rotates the range `left` elements to the left or `right` elements to the
/// right.
///
/// The iterative form of `ptr_griesmills_rotate_rec`: the smaller side is swapped towards its
/// place, and the loop goes on with the rest until the smaller side has at most `2` elements.
pub fn ptr_griesmills_rotate<T: Copy>(v: &mut [T], mut left: usize, mut mid: usize, mut right: usize)
    requires
        range_fits(old(v)@.len() as int, left as int, mid as int, right as int),
    ensures
        final(v)@ == rotation(old(v)@, left as int, mid as int, right as int),
{
    let ghost goal = rotation(v@, left as int, mid as int, right as int);
    let ghost (l0, m0, r0) = (left, mid, right);
    let len = v.len();
    loop
        invariant
            range_fits(v@.len() as int, left as int, mid as int, right as int),
            rotation(v@, left as int, mid as int, right as int) == goal,
            goal == rotation(old(v)@, l0 as int, m0 as int, r0 as int),
            v@.len() == len,
        ensures
            left <= 2 || right <= 2,
        decreases left + right,
    {
        let ghost s = v@;
        if left <= right {
            if left <= 2 {
                break;
            }
            let start = mid - left;
            swap_nonoverlapping(v, start, mid, left);
            proof {
                lemma_gm_front(s, start as int, mid as int, mid + right);
            }
            mid = mid + left;
            right = right - left;
        } else {
            if right <= 2 {
                break;
            }
            swap_nonoverlapping(v, mid, mid - right, right);
            proof {
                lemma_gm_back(s, mid - left, mid as int, mid + right);
            }
            mid = mid - right;
            left = left - right;
        }
    }
    ptr_edge_rotate(v, left, mid, right);
}

/// # Drill rotation
///
/// Rotates the range `[mid - left, mid + right)` such that the element at `mid` becomes the first
/// element. Equivalently, rotates the range `left` elements to the left or `right` elements to the
/// right.
///
/// A Gries-Mills variant with a piston main loop and a helix inner loop: the left side is swept
/// forward by the largest multiple of `left` that fits in `right`, then the right side is swept
/// backward by the largest multiple of `right` that fits in `left`, until one side has at most
/// `2` elements, which the edge rotation finishes.
pub fn ptr_drill_rotate<T: Copy>(v: &mut [T], left: usize, mid: usize, right: usize)
    requires
        range_fits(old(v)@.len() as int, left as int, mid as int, right as int),
    ensures
        final(v)@ == rotation(old(v)@, left as int, mid as int, right as int),
{
    let ghost goal = rotation(v@, left as int, mid as int, right as int);
    let ghost (l0, m0, r0) = (left, mid, right);
    let len = v.len();
    let mut left = left;
    let mut mid = mid;
    let mut right = right;
    let mut start = mid - left;
    let mut end = mid + right;
    while left > 2
        invariant
            range_fits(v@.len() as int, left as int, mid as int, right as int),
            goal == rotation(old(v)@, l0 as int, m0 as int, r0 as int),
            v@.len() == len,
            start == mid - left,
            end == mid + right,
            rotation(v@, left as int, mid as int, right as int) == goal,
        ensures
            left <= 2 || right <= 2,
        decreases left,
    {
        if left <= right {
            let ghost s = v@;
            let old_r = right;
            right = right % left;
            let count = old_r - right;
            proof {
                lemma_drill_front(s, start as int, mid as int, end as int, count as int);
            }
            swap_forward(v, start, mid, count);
            mid = mid + count;
            start = start + count;
        }
        if right <= 2 {
            break;
        }
        let ghost s = v@;
        let old_l = left;
        left = left % right;
        let count = old_l - left;
        proof {
            lemma_drill_back(s, start as int, mid as int, end as int, count as int);
        }
        swap_backward(v, mid - count, end - count, count);
        mid = mid - count;
        end = end - count;
    }
    if left <= 2 || right <= 2 {
        ptr_edge_rotate(v, left, mid, right);
    }
}

} // verus!
