//! The mathematical model of the operations of this crate: every operation rearranges the
//! elements of a slice, and its contract is stated over the slice's view, a `Seq`.
use vstd::prelude::*;

verus! {

/// Where the element that ends up at position `k` comes from, when the range `[lo, hi)` is
/// rotated so that the element at `mid` becomes its first element.
pub open spec fn rotated_source(lo: int, mid: int, hi: int, k: int) -> int {
    if k < lo || hi <= k {
        k
    } else if k < lo + (hi - mid) {
        k + (mid - lo)
    } else {
        k - (hi - mid)
    }
}

/// `s` with the range `[lo, hi)` rotated so that the element at `mid` becomes the first element
/// of the range: the `mid - lo` elements before `mid` and the `hi - mid` elements from `mid` on
/// trade places, each block keeping its order. Everything outside the range stays.
pub open spec fn rotated<T>(s: Seq<T>, lo: int, mid: int, hi: int) -> Seq<T> {
    Seq::new(s.len(), |k: int| s[rotated_source(lo, mid, hi, k)])
}

/// A range `[mid - left, mid + right)` of a sequence of length `len`.
pub open spec fn range_fits(len: int, left: int, mid: int, right: int) -> bool {
    &&& 0 <= left <= mid
    &&& 0 <= right
    &&& mid + right <= len
}

/// What a rotation of `left` elements before `mid` with `right` elements from `mid` on gives.
pub open spec fn rotation<T>(s: Seq<T>, left: int, mid: int, right: int) -> Seq<T> {
    rotated(s, mid - left, mid, mid + right)
}

/// `s` with the range `[lo, hi)` reversed.
pub open spec fn reversed<T>(s: Seq<T>, lo: int, hi: int) -> Seq<T> {
    Seq::new(s.len(), |k: int| if lo <= k < hi { s[lo + hi - 1 - k] } else { s[k] })
}

/// `s` after the `n` elements from `src` on were copied to the `n` positions from `dst` on, as if
/// through a temporary: the ranges may overlap, every copied element is one that `s` held.
pub open spec fn copied<T>(s: Seq<T>, src: int, dst: int, n: int) -> Seq<T> {
    Seq::new(s.len(), |k: int| if dst <= k < dst + n { s[k - dst + src] } else { s[k] })
}

/// `s` with the blocks `[a, a + n)` and `[b, b + n)` exchanged (the blocks do not overlap).
pub open spec fn blocks_swapped<T>(s: Seq<T>, a: int, b: int, n: int) -> Seq<T> {
    Seq::new(
        s.len(),
        |k: int|
            if a <= k < a + n {
                s[k - a + b]
            } else if b <= k < b + n {
                s[k - b + a]
            } else {
                s[k]
            },
    )
}

/// The result of exchanging the elements at `a + i` and `b + i` for `i` from `0` up to `c - 1`,
/// one pair after the other, where `a <= b`. When the blocks overlap, the block at `b` lands at `a`
/// and the `b - a` elements that were first in `[a, b + c)` end up at its end, rotated by
/// `c % (b - a)` to the left.
pub open spec fn swept_forward<T>(s: Seq<T>, a: int, b: int, c: int) -> Seq<T> {
    Seq::new(
        s.len(),
        |k: int|
            if a <= k < a + c {
                s[k + (b - a)]
            } else if a + c <= k < b + c {
                s[a + (k - a) % (b - a)]
            } else {
                s[k]
            },
    )
}

/// The result of exchanging the elements at `a + i` and `b + i` for `i` from `c - 1` down to `0`,
/// one pair after the other, where `a <= b`. When the blocks overlap, the block at `a` lands at `b`
/// and the `b - a` elements that were last in `[a, b + c)` end up at its start, rotated by
/// `c % (b - a)` to the right.
pub open spec fn swept_backward<T>(s: Seq<T>, a: int, b: int, c: int) -> Seq<T> {
    Seq::new(
        s.len(),
        |k: int|
            if b <= k < b + c {
                s[k - (b - a)]
            } else if a <= k < b {
                s[a + c + (k - a - c) % (b - a)]
            } else {
                s[k]
            },
    )
}

pub open spec fn min(a: int, b: int) -> int {
    if a <= b {
        a
    } else {
        b
    }
}

pub open spec fn max(a: int, b: int) -> int {
    if a <= b {
        b
    } else {
        a
    }
}

/// A rotated range is the block from `mid` on followed by the block before `mid`.
pub proof fn lemma_rotated_blocks<T>(s: Seq<T>, lo: int, mid: int, hi: int)
    requires
        0 <= lo <= mid <= hi <= s.len(),
    ensures
        rotated(s, lo, mid, hi) == s.subrange(0, lo) + s.subrange(mid, hi) + s.subrange(lo, mid)
            + s.subrange(hi, s.len() as int),
{
    assert(rotated(s, lo, mid, hi) =~= s.subrange(0, lo) + s.subrange(mid, hi) + s.subrange(
        lo,
        mid,
    ) + s.subrange(hi, s.len() as int));
}

/// Rotating an empty block away changes nothing.
pub proof fn lemma_rotated_trivial<T>(s: Seq<T>, lo: int, mid: int, hi: int)
    requires
        0 <= lo <= mid <= hi <= s.len(),
        lo == mid || mid == hi,
    ensures
        rotated(s, lo, mid, hi) == s,
{
    assert(rotated(s, lo, mid, hi) =~= s);
}

} // verus!
