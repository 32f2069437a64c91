//! Rotations that use a scratch buffer besides the range that they rotate.
use vstd::prelude::*;
use crate::model::{copied, min, range_fits, rotation};
use crate::utils::{copy, swap_nonoverlapping};
use crate::{lemma_equal_halves, ptr_contrev_rotate, ptr_edge_rotate};

verus! {

/// `buf` with its first `n` elements replaced by the `n` elements of `s` from `from` on.
pub open spec fn with_prefix<T>(buf: Seq<T>, s: Seq<T>, from: int, n: int) -> Seq<T> {
    Seq::new(buf.len(), |k: int| if k < n { s[from + k] } else { buf[k] })
}

/// `s` with the `n` positions from `to` on holding the first `n` elements of `buf`.
pub open spec fn pasted<T>(s: Seq<T>, buf: Seq<T>, to: int, n: int) -> Seq<T> {
    Seq::new(s.len(), |k: int| if to <= k < to + n { buf[k - to] } else { s[k] })
}

/// How far apart `a` and `b` are.
pub open spec fn abs_diff(a: int, b: int) -> int {
    if a < b {
        b - a
    } else {
        a - b
    }
}

/// The scratch buffer after the auxiliary rotation: when both sides are longer than two
/// elements and of different lengths, the smaller side was copied to its front; otherwise it is
/// unchanged.
pub open spec fn aux_buffer<T>(buf: Seq<T>, s: Seq<T>, left: int, mid: int, right: int) -> Seq<T> {
    if left <= 2 || right <= 2 || left == right {
        buf
    } else if left < right {
        with_prefix(buf, s, mid - left, left)
    } else {
        with_prefix(buf, s, mid, right)
    }
}

/// The scratch buffer after the bridge rotation without its fallback: when both sides are
/// longer than two elements and of different lengths, the part of the longer side next to `mid`
/// by which it exceeds the other (the bridge) was copied to its front; otherwise it is
/// unchanged.
pub open spec fn bridge_simple_buffer<T>(
    buf: Seq<T>,
    s: Seq<T>,
    left: int,
    mid: int,
    right: int,
) -> Seq<T> {
    if left <= 2 || right <= 2 || left == right {
        buf
    } else if left > right {
        with_prefix(buf, s, mid - (left - right), left - right)
    } else {
        with_prefix(buf, s, mid, right - left)
    }
}

/// The scratch buffer after the bridge rotation, which falls back to the auxiliary rotation
/// when the bridge is at least as long as the smaller side.
pub open spec fn bridge_buffer<T>(buf: Seq<T>, s: Seq<T>, left: int, mid: int, right: int) -> Seq<
    T,
> {
    if min(left, right) <= abs_diff(left, right) {
        aux_buffer(buf, s, left, mid, right)
    } else {
        bridge_simple_buffer(buf, s, left, mid, right)
    }
}

/// The scratch buffer after the trinity rotation: that of the auxiliary rotation when the
/// smaller side fits in it, else that of the bridge rotation when the bridge fits in it and is
/// longer than three elements; otherwise it is unchanged.
pub open spec fn trinity_buffer<T>(buf: Seq<T>, s: Seq<T>, left: int, mid: int, right: int) -> Seq<
    T,
> {
    if min(left, right) <= buf.len() {
        aux_buffer(buf, s, left, mid, right)
    } else if abs_diff(left, right) <= buf.len() && abs_diff(left, right) > 3 {
        bridge_buffer(buf, s, left, mid, right)
    } else {
        buf
    }
}

/// Copies the `n` elements of `v` from `from` on to the front of `buffer`.
fn save<T: Copy>(v: &[T], from: usize, buffer: &mut [T], n: usize)
    requires
        from + n <= v@.len(),
        n <= old(buffer)@.len(),
    ensures
        final(buffer)@ == with_prefix(old(buffer)@, v@, from as int, n as int),
{
    let ghost b = buffer@;
    let vlen = v.len();
    let mut i: usize = 0;
    assert(buffer@ =~= with_prefix(b, v@, from as int, 0));
    while i < n
        invariant
            i <= n,
            from + n <= v@.len(),
            v@.len() == vlen,
            n <= b.len(),
            buffer@ == with_prefix(b, v@, from as int, i as int),
        decreases n - i,
    {
        buffer[i] = v[from + i];
        i = i + 1;
        assert(buffer@ =~= with_prefix(b, v@, from as int, i as int));
    }
}

/// Copies the first `n` elements of `buffer` to the `n` positions of `v` from `to` on.
pub(crate) fn restore<T: Copy>(buffer: &[T], v: &mut [T], to: usize, n: usize)
    requires
        to + n <= old(v)@.len(),
        n <= buffer@.len(),
    ensures
        final(v)@ == pasted(old(v)@, buffer@, to as int, n as int),
{
    let ghost s = v@;
    let len = v.len();
    let mut i: usize = 0;
    assert(v@ =~= pasted(s, buffer@, to as int, 0));
    while i < n
        invariant
            i <= n,
            to + n <= s.len(),
            s.len() == len,
            n <= buffer@.len(),
            v@ == pasted(s, buffer@, to as int, i as int),
        decreases n - i,
    {
        v[to + i] = buffer[i];
        i = i + 1;
        assert(v@ =~= pasted(s, buffer@, to as int, i as int));
    }
}

/// A new vector holding the `n` elements of `v` from `from` on.
pub(crate) fn take_side<T: Copy>(v: &[T], from: usize, n: usize) -> (buf: Vec<T>)
    requires
        from + n <= v@.len(),
    ensures
        buf@ == v@.subrange(from as int, from + n),
{
    let vlen = v.len();
    let mut buf: Vec<T> = Vec::with_capacity(n);
    let mut i: usize = 0;
    while i < n
        invariant
            i <= n,
            from + n <= v@.len(),
            v@.len() == vlen,
            buf@ == v@.subrange(from as int, from + i),
        decreases n - i,
    {
        buf.push(v[from + i]);
        i = i + 1;
        assert(buf@ =~= v@.subrange(from as int, from + i));
    }
    buf
}

/// A `memmove` inside one slice: copies the elements of `[src_start, src_end)` to the positions
/// from `dest` on, as if through a temporary, so the two ranges may overlap. The elements are
/// moved by `utils::copy`, which goes in the direction that the overlap needs.
pub(crate) fn move_within<T: Copy>(v: &mut [T], src_start: usize, src_end: usize, dest: usize)
    requires
        src_start <= src_end <= old(v)@.len(),
        dest + (src_end - src_start) <= old(v)@.len(),
    ensures
        final(v)@ == copied(old(v)@, src_start as int, dest as int, src_end - src_start),
        final(v)@.len() == old(v)@.len(),
        forall|i: int|
            0 <= i < src_end - src_start ==> #[trigger] final(v)@[dest + i] == old(v)@[src_start
                + i],
        forall|k: int|
            0 <= k < old(v)@.len() && !(dest <= k < dest + (src_end - src_start)) ==> (
            #[trigger] final(v)@[k]) == old(v)@[k],
{
    let ghost s = v@;
    copy(v, src_start, dest, src_end - src_start);
    assert forall|i: int| 0 <= i < src_end - src_start implies #[trigger] v@[dest + i] == s[src_start
        + i] by {
        assert(v@[dest + i] == copied(s, src_start as int, dest as int, src_end - src_start)[dest
            + i]);
    }
}

/// # Auxiliary rotation
///
/// Rotates the range `[mid - left, mid + right)` such that the element at `mid` becomes the first
/// element. Equivalently, rotates the range `left` elements to the left or `right` elements to the
/// right.
///
/// The smaller side is copied to the buffer, the larger side is moved (by `utils::copy`, which
/// copies forward or backward as the overlap needs), and the buffer is copied back to the other
/// end. Sides of at most two elements go to the edge rotation, sides of equal length are
/// swapped. The buffer must hold the smaller side in the other cases.
pub fn ptr_aux_rotate<T: Copy>(v: &mut [T], left: usize, mid: usize, right: usize, buffer: &mut [T])
    requires
        range_fits(old(v)@.len() as int, left as int, mid as int, right as int),
        left <= 2 || right <= 2 || left == right || min(left as int, right as int) <= old(
            buffer,
        )@.len(),
    ensures
        final(v)@ == rotation(old(v)@, left as int, mid as int, right as int),
        final(buffer)@ == aux_buffer(old(buffer)@, old(v)@, left as int, mid as int, right as int),
{
    let ghost s = v@;
    if right <= 2 || left <= 2 {
        ptr_edge_rotate(v, left, mid, right);
        return ;
    }
    let len = v.len();
    let start = mid - left;
    let dim = start + right;
    if left < right {
        save(v, start, buffer, left);
        copy(v, mid, start, right);
        restore(buffer, v, dim, left);
        assert(v@ =~= rotation(s, left as int, mid as int, right as int));
    } else if right < left {
        save(v, mid, buffer, right);
        copy(v, start, dim, left);
        restore(buffer, v, start, right);
        assert(v@ =~= rotation(s, left as int, mid as int, right as int));
    } else {
        swap_nonoverlapping(v, start, mid, left);
        proof {
            lemma_equal_halves(s, start as int, left as int);
        }
    }
}

/// # Auxiliary rotation (naive)
///
/// Rotates the range `[mid - left, mid + right)` such that the element at `mid` becomes the first
/// element. Equivalently, rotates the range `left` elements to the left or `right` elements to the
/// right.
///
/// The auxiliary rotation with the larger side moved by a `memmove` of the whole side
/// (`move_within`). The buffer must hold the smaller side when both
/// sides are longer than two elements and of different lengths.
pub fn ptr_naive_aux_rotate<T: Copy>(
    v: &mut [T],
    left: usize,
    mid: usize,
    right: usize,
    buffer: &mut [T],
)
    requires
        range_fits(old(v)@.len() as int, left as int, mid as int, right as int),
        left <= 2 || right <= 2 || left == right || min(left as int, right as int) <= old(
            buffer,
        )@.len(),
    ensures
        final(v)@ == rotation(old(v)@, left as int, mid as int, right as int),
        final(buffer)@ == aux_buffer(old(buffer)@, old(v)@, left as int, mid as int, right as int),
{
    let ghost s = v@;
    if right <= 2 || left <= 2 {
        ptr_edge_rotate(v, left, mid, right);
        return ;
    }
    let len = v.len();
    let start = mid - left;
    let dim = start + right;
    if left < right {
        save(v, start, buffer, left);
        move_within(v, mid, mid + right, start);
        restore(buffer, v, dim, left);
        assert(v@ =~= rotation(s, left as int, mid as int, right as int));
    } else if right < left {
        save(v, mid, buffer, right);
        move_within(v, start, mid, dim);
        restore(buffer, v, start, right);
        assert(v@ =~= rotation(s, left as int, mid as int, right as int));
    } else {
        swap_nonoverlapping(v, start, mid, left);
        proof {
            lemma_equal_halves(s, start as int, left as int);
        }
    }
}


/// # Bridge rotation (without the auxiliary fallback)
///
/// Rotates the range `[mid - left, mid + right)` such that the element at `mid` becomes the first
/// element. Equivalently, rotates the range `left` elements to the left or `right` elements to the
/// right.
///
/// The part of the longer side next to `mid` by which it exceeds the other (the bridge) is copied
/// to the buffer, which leaves a vacant space; the elements are moved pairwise across the vacant
/// space, which travels to the far end, and the buffer is copied back there. The buffer must hold
/// the bridge when both sides are longer than two elements and of different lengths.
fn ptr_bridge_rotate_simple<T: Copy>(
    v: &mut [T],
    left: usize,
    mid: usize,
    right: usize,
    buffer: &mut [T],
)
    requires
        range_fits(old(v)@.len() as int, left as int, mid as int, right as int),
        left <= 2 || right <= 2 || left == right || abs_diff(left as int, right as int) <= old(
            buffer,
        )@.len(),
    ensures
        final(v)@ == rotation(old(v)@, left as int, mid as int, right as int),
        final(buffer)@ == bridge_simple_buffer(
            old(buffer)@,
            old(v)@,
            left as int,
            mid as int,
            right as int,
        ),
{
    let ghost s = v@;
    if right <= 2 || left <= 2 {
        ptr_edge_rotate(v, left, mid, right);
        return ;
    }
    let len = v.len();
    let a = mid - left;
    let b = mid;
    let c = mid - left + right;
    let d = mid + right;
    if left > right {
        let bridge = left - right;
        save(v, c, buffer, bridge);
        let mut i: usize = 0;
        while i < right
            invariant
                v@.len() == len,
                s.len() == len,
                bridge > 0,
                a + right == c,
                c + bridge == b,
                b + right == d,
                d <= len,
                i <= right,
                forall|k: int|
                    0 <= k < len ==> #[trigger] v@[k] == if a <= k < a + i {
                        s[k - a + b]
                    } else if c <= k < c + i {
                        s[k - c + a]
                    } else {
                        s[k]
                    },
            decreases right - i,
        {
            let x = v[a + i];
            v[c + i] = x;
            let y = v[b + i];
            v[a + i] = y;
            i = i + 1;
        }
        restore(buffer, v, d - bridge, bridge);
        assert(v@ =~= rotation(s, left as int, mid as int, right as int));
    } else if left < right {
        let bridge = right - left;
        save(v, b, buffer, bridge);
        let mut i: usize = 1;
        while i <= left
            invariant
                v@.len() == len,
                s.len() == len,
                a + right == c,
                a + left == b,
                left < right,
                b + bridge == c,
                c + left == d,
                d <= len,
                1 <= i <= left + 1,
                forall|k: int|
                    0 <= k < len ==> #[trigger] v@[k] == if c - (i - 1) <= k < c {
                        s[k - c + d]
                    } else if d - (i - 1) <= k < d {
                        s[k - d + b]
                    } else {
                        s[k]
                    },
            decreases left + 1 - i,
        {
            let x = v[d - i];
            v[c - i] = x;
            let y = v[b - i];
            v[d - i] = y;
            i = i + 1;
        }
        restore(buffer, v, a, bridge);
        assert(v@ =~= rotation(s, left as int, mid as int, right as int));
    } else {
        swap_nonoverlapping(v, mid - left, mid, right);
        proof {
            lemma_equal_halves(s, a as int, left as int);
        }
    }
}

/// # Bridge rotation
///
/// Rotates the range `[mid - left, mid + right)` such that the element at `mid` becomes the first
/// element. Equivalently, rotates the range `left` elements to the left or `right` elements to the
/// right.
///
/// When the bridge (the difference of the sides) is at least as long as the smaller side, this is
/// the auxiliary rotation; otherwise the bridge is moved through the buffer, which reduces the
/// auxiliary memory needed from a half to a third of the range. The buffer must hold
/// `min(|right - left|, left, right)` elements when both sides are longer than two elements and
/// of different lengths.
pub fn ptr_bridge_rotate<T: Copy>(
    v: &mut [T],
    left: usize,
    mid: usize,
    right: usize,
    buffer: &mut [T],
)
    requires
        range_fits(old(v)@.len() as int, left as int, mid as int, right as int),
        left <= 2 || right <= 2 || left == right || min(
            abs_diff(left as int, right as int),
            min(left as int, right as int),
        ) <= old(buffer)@.len(),
    ensures
        final(v)@ == rotation(old(v)@, left as int, mid as int, right as int),
        final(buffer)@ == bridge_buffer(
            old(buffer)@,
            old(v)@,
            left as int,
            mid as int,
            right as int,
        ),
{
    let bridge = if left < right { right - left } else { left - right };
    let smaller = if left < right { left } else { right };
    if smaller <= bridge {
        ptr_aux_rotate(v, left, mid, right, buffer);
        return ;
    }
    ptr_bridge_rotate_simple(v, left, mid, right, buffer);
}

/// # Trinity (conjoined triple reversal + bridge) rotation
///
/// Rotates the range `[mid - left, mid + right)` such that the element at `mid` becomes the first
/// element. Equivalently, rotates the range `left` elements to the left or `right` elements to the
/// right.
///
/// When the smaller side fits in the buffer this is the auxiliary rotation; else, when the bridge
/// fits in it and is longer than three elements, the bridge rotation; otherwise the conjoined
/// triple reversal, which needs no buffer. Any buffer will do.
pub fn ptr_trinity_rotate<T: Copy>(
    v: &mut [T],
    left: usize,
    mid: usize,
    right: usize,
    buffer: &mut [T],
)
    requires
        range_fits(old(v)@.len() as int, left as int, mid as int, right as int),
    ensures
        final(v)@ == rotation(old(v)@, left as int, mid as int, right as int),
        final(buffer)@ == trinity_buffer(
            old(buffer)@,
            old(v)@,
            left as int,
            mid as int,
            right as int,
        ),
{
    let smaller = if left < right { left } else { right };
    if smaller <= buffer.len() {
        ptr_aux_rotate(v, left, mid, right, buffer);
        return ;
    }
    let d = if left < right { right - left } else { left - right };
    if d <= buffer.len() && d > 3 {
        ptr_bridge_rotate(v, left, mid, right, buffer);
        return ;
    }
    ptr_contrev_rotate(v, left, mid, right);
}

} // verus!
