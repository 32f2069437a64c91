//! The states that the conjoined triple reversal rotation goes through. It performs the three
//! reversals of the triple reversal rotation at once: from both ends of the range inwards, each
//! element goes either to its final place or to its place after the two sides were reversed.
use vstd::prelude::*;
use crate::model::{reversed, rotated};

verus! {

/// The range with both sides reversed in place: what the triple reversal has after two steps.
pub open spec fn sides_reversed<T>(s: Seq<T>, lo: int, mid: int, hi: int) -> Seq<T> {
    reversed(reversed(s, lo, mid), mid, hi)
}

/// A state of the conjoined triple reversal of `[lo, hi)` around `mid`: the `i` outermost
/// positions at each end of the range hold their final elements, the positions in `[xlo, xhi)`
/// hold their elements after both sides were reversed, and all other positions still hold the
/// elements of `s`.
pub open spec fn contrev_state<T>(
    cur: Seq<T>,
    s: Seq<T>,
    lo: int,
    mid: int,
    hi: int,
    i: int,
    xlo: int,
    xhi: int,
) -> bool {
    &&& cur.len() == s.len()
    &&& forall|k: int|
        0 <= k < s.len() ==> #[trigger] cur[k] == if lo <= k < hi && (k < lo + i || hi - i <= k) {
            rotated(s, lo, mid, hi)[k]
        } else if xlo <= k < xhi {
            sides_reversed(s, lo, mid, hi)[k]
        } else {
            s[k]
        }
}

/// Nothing is done yet.
pub proof fn lemma_contrev_start<T>(s: Seq<T>, lo: int, mid: int, hi: int)
    requires
        0 <= lo <= mid <= hi <= s.len(),
    ensures
        contrev_state(s, s, lo, mid, hi, 0, mid, mid),
{
}

/// A position that is its own mirror in a side holds the same element after the side is
/// reversed, so the reversed part of a state may take it in.
pub proof fn lemma_contrev_widen<T>(
    cur: Seq<T>,
    s: Seq<T>,
    lo: int,
    mid: int,
    hi: int,
    i: int,
    xlo: int,
    xhi: int,
    ylo: int,
    yhi: int,
)
    requires
        0 <= lo <= mid <= hi <= s.len(),
        contrev_state(cur, s, lo, mid, hi, i, xlo, xhi),
        lo + i <= ylo <= xlo,
        xhi <= yhi <= hi - i,
        ylo == xlo || (ylo == xlo - 1 && 2 * ylo == lo + mid - 1),
        yhi == xhi || (yhi == xhi + 1 && 2 * xhi == mid + hi - 1),
    ensures
        contrev_state(cur, s, lo, mid, hi, i, ylo, yhi),
{
}

/// One turn of the first loop: `ls <- rs <- re <- le <- ls`.
pub proof fn lemma_contrev_four<T>(cur: Seq<T>, s: Seq<T>, lo: int, mid: int, hi: int, i: int)
    requires
        0 <= lo <= mid <= hi <= s.len(),
        contrev_state(cur, s, lo, mid, hi, i, mid - i, mid + i),
        0 <= i,
        lo + i < mid - 1 - i,
        mid + i < hi - 1 - i,
    ensures
        contrev_state(
            cur.update(mid - 1 - i, cur[lo + i]).update(hi - 1 - i, cur[mid - 1 - i]).update(
                mid + i,
                cur[hi - 1 - i],
            ).update(lo + i, cur[mid + i]),
            s,
            lo,
            mid,
            hi,
            i + 1,
            mid - i - 1,
            mid + i + 1,
        ),
{
}

/// One turn of the second loop when the left side is the longer: `ls <- re <- le <- ls`.
pub proof fn lemma_contrev_three_left<T>(
    cur: Seq<T>,
    s: Seq<T>,
    lo: int,
    mid: int,
    hi: int,
    j: int,
)
    requires
        0 <= lo <= mid <= hi <= s.len(),
        contrev_state(cur, s, lo, mid, hi, j, mid - j, hi - j),
        0 <= j,
        lo + j < mid - 1 - j,
        mid < hi,
    ensures
        contrev_state(
            cur.update(mid - 1 - j, cur[lo + j]).update(hi - 1 - j, cur[mid - 1 - j]).update(
                lo + j,
                cur[hi - 1 - j],
            ),
            s,
            lo,
            mid,
            hi,
            j + 1,
            mid - j - 1,
            hi - j - 1,
        ),
{
}

/// One turn of the second loop when the right side is the longer: `ls <- rs <- re <- ls`.
pub proof fn lemma_contrev_three_right<T>(
    cur: Seq<T>,
    s: Seq<T>,
    lo: int,
    mid: int,
    hi: int,
    j: int,
)
    requires
        0 <= lo <= mid <= hi <= s.len(),
        contrev_state(cur, s, lo, mid, hi, j, lo + j, mid + j),
        0 <= j,
        lo < mid,
        mid + j < hi - 1 - j,
    ensures
        contrev_state(
            cur.update(hi - 1 - j, cur[lo + j]).update(mid + j, cur[hi - 1 - j]).update(
                lo + j,
                cur[mid + j],
            ),
            s,
            lo,
            mid,
            hi,
            j + 1,
            lo + j + 1,
            mid + j + 1,
        ),
{
}

/// Reversing the middle, which holds the reversed sides, finishes the rotation.
pub proof fn lemma_contrev_finish<T>(cur: Seq<T>, s: Seq<T>, lo: int, mid: int, hi: int, h: int)
    requires
        0 <= lo <= mid <= hi <= s.len(),
        0 <= h,
        lo + h <= hi - h,
        contrev_state(cur, s, lo, mid, hi, h, lo + h, hi - h),
    ensures
        reversed(cur, lo + h, hi - h) == rotated(s, lo, mid, hi),
{
    assert(reversed(cur, lo + h, hi - h) =~= rotated(s, lo, mid, hi));
}

} // verus!
