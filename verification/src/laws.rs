//! Properties of the rotation that every function of this crate computes.
use vstd::prelude::*;
use vstd::seq_lib::lemma_multiset_commutative;
use crate::model::{lemma_rotated_blocks, range_fits, rotation};
use crate::steps::lemma_mod_shift;

verus! {

/// Rotating a range and then rotating it back restores the sequence: after `left` elements
/// before `mid` and `right` elements from `mid` on traded places, the first `right` elements of
/// the range are the former right side, so the rotation of `right` elements before
/// `mid - left + right` with the `left` elements that follow undoes it.
pub proof fn lemma_rotation_undone<T>(s: Seq<T>, left: int, mid: int, right: int)
    requires
        range_fits(s.len() as int, left, mid, right),
    ensures
        rotation(rotation(s, left, mid, right), right, mid - left + right, left) == s,
{
    assert(rotation(rotation(s, left, mid, right), right, mid - left + right, left) =~= s);
}

/// Rotating a whole sequence of `n > 0` elements around position `l` is rotating it `l`
/// positions to the left: position `k` receives the element at `(k + l) % n`.
pub proof fn lemma_rotation_rotates_left<T>(s: Seq<T>, l: int)
    requires
        0 <= l <= s.len(),
        s.len() > 0,
    ensures
        rotation(s, l, l, s.len() - l) == Seq::new(s.len(), |k: int| s[(k + l) % (s.len() as int)]),
{
    let n = s.len() as int;
    assert forall|k: int| 0 <= k < n implies #[trigger] rotation(s, l, l, n - l)[k] == s[(k + l)
        % n] by {
        if k + l < n {
            lemma_mod_shift(k + l, 0, n);
        } else {
            lemma_mod_shift(k + l - n, 1, n);
        }
    }
    assert(rotation(s, l, l, n - l) =~= Seq::new(s.len(), |k: int| s[(k + l) % n]));
}

/// A rotation only rearranges the elements: each occurs as often after it as before.
pub proof fn lemma_rotation_permutes<T>(s: Seq<T>, left: int, mid: int, right: int)
    requires
        range_fits(s.len() as int, left, mid, right),
    ensures
        rotation(s, left, mid, right).to_multiset() == s.to_multiset(),
{
    let lo = mid - left;
    let hi = mid + right;
    let a = s.subrange(0, lo);
    let b = s.subrange(lo, mid);
    let c = s.subrange(mid, hi);
    let d = s.subrange(hi, s.len() as int);
    lemma_rotated_blocks(s, lo, mid, hi);
    assert(s =~= a + b + c + d);
    lemma_multiset_commutative(a + b + c, d);
    lemma_multiset_commutative(a + b, c);
    lemma_multiset_commutative(a, b);
    lemma_multiset_commutative(a + c + b, d);
    lemma_multiset_commutative(a + c, b);
    lemma_multiset_commutative(a, c);
    assert(rotation(s, left, mid, right).to_multiset() =~= s.to_multiset());
}


/// What a rotation does, position by position: the `right` elements from `mid` on come first in
/// the range, in their order, followed by the `left` elements before `mid`, in their order, and
/// every position outside the range keeps its element.
pub proof fn lemma_rotation_puts_mid_first<T>(s: Seq<T>, left: int, mid: int, right: int)
    requires
        range_fits(s.len() as int, left, mid, right),
    ensures
        rotation(s, left, mid, right).len() == s.len(),
        forall|k: int| 0 <= k < right ==> #[trigger] rotation(s, left, mid, right)[mid - left + k] == s[mid + k],
        forall|k: int|
            0 <= k < left ==> #[trigger] rotation(s, left, mid, right)[mid - left + right + k] == s[mid - left + k],
        forall|k: int|
            0 <= k < s.len() && !(mid - left <= k < mid + right) ==> #[trigger] rotation(s, left, mid, right)[k]
                == s[k],
{
}

} // verus!
