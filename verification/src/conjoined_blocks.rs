//! The block variant of the conjoined triple reversal: the same three reversals performed at
//! once, over blocks of `gcd(left, right)` elements that keep the order of their elements. Each
//! block moves either to its final place or to its place after the blocks of both sides were
//! reversed.
use vstd::prelude::*;
use crate::model::rotated;
use crate::blocks::{
    blocks_reversed, lemma_mod_offset, lemma_multiple_sub, lemma_split, lemma_triple_block_reversal,
    sides_blocks_reversed,
};

verus! {

/// `s` after the non-overlapping blocks `[a, a + n)`, `[b, b + n)` and `[c, c + n)` moved round:
/// the block at `b` to `a`, the one at `c` to `b` and the one at `a` to `c`.
pub open spec fn blocks_cycled3<T>(s: Seq<T>, a: int, b: int, c: int, n: int) -> Seq<T> {
    Seq::new(
        s.len(),
        |k: int|
            if a <= k < a + n {
                s[k - a + b]
            } else if b <= k < b + n {
                s[k - b + c]
            } else if c <= k < c + n {
                s[k - c + a]
            } else {
                s[k]
            },
    )
}

/// `s` after the non-overlapping blocks `[a, a + n)`, `[b, b + n)`, `[c, c + n)` and
/// `[e, e + n)` moved round: the block at `b` to `a`, the one at `c` to `b`, the one at `e` to
/// `c` and the one at `a` to `e`.
pub open spec fn blocks_cycled4<T>(s: Seq<T>, a: int, b: int, c: int, e: int, n: int) -> Seq<T> {
    Seq::new(
        s.len(),
        |k: int|
            if a <= k < a + n {
                s[k - a + b]
            } else if b <= k < b + n {
                s[k - b + c]
            } else if c <= k < c + n {
                s[k - c + e]
            } else if e <= k < e + n {
                s[k - e + a]
            } else {
                s[k]
            },
    )
}

/// The blocks `[x, x + n)` and `[y, y + n)` do not overlap.
pub open spec fn apart(x: int, y: int, n: int) -> bool {
    x + n <= y || y + n <= x
}

/// Moves three non-overlapping blocks round, element by element: `a <- b <- c <- a`.
pub(crate) fn cycle_blocks3<T: Copy>(v: &mut [T], a: usize, b: usize, c: usize, n: usize)
    requires
        apart(a as int, b as int, n as int),
        apart(b as int, c as int, n as int),
        apart(a as int, c as int, n as int),
        a + n <= old(v)@.len(),
        b + n <= old(v)@.len(),
        c + n <= old(v)@.len(),
    ensures
        final(v)@ == blocks_cycled3(old(v)@, a as int, b as int, c as int, n as int),
{
    let ghost s = v@;
    let len = v.len();
    let mut u: usize = 0;
    assert(v@ =~= blocks_cycled3(s, a as int, b as int, c as int, 0));
    while u < n
        invariant
            u <= n,
            apart(a as int, b as int, n as int),
            apart(b as int, c as int, n as int),
            apart(a as int, c as int, n as int),
            a + n <= len,
            b + n <= len,
            c + n <= len,
            s.len() == len,
            v@ == blocks_cycled3(s, a as int, b as int, c as int, u as int),
        decreases n - u,
    {
        let x = v[a + u];
        let y = v[b + u];
        let z = v[c + u];
        v[a + u] = y;
        v[b + u] = z;
        v[c + u] = x;
        u = u + 1;
        assert(v@ =~= blocks_cycled3(s, a as int, b as int, c as int, u as int));
    }
}

/// Moves four non-overlapping blocks round, element by element: `a <- b <- c <- e <- a`.
pub(crate) fn cycle_blocks4<T: Copy>(
    v: &mut [T],
    a: usize,
    b: usize,
    c: usize,
    e: usize,
    n: usize,
)
    requires
        apart(a as int, b as int, n as int),
        apart(a as int, c as int, n as int),
        apart(a as int, e as int, n as int),
        apart(b as int, c as int, n as int),
        apart(b as int, e as int, n as int),
        apart(c as int, e as int, n as int),
        a + n <= old(v)@.len(),
        b + n <= old(v)@.len(),
        c + n <= old(v)@.len(),
        e + n <= old(v)@.len(),
    ensures
        final(v)@ == blocks_cycled4(old(v)@, a as int, b as int, c as int, e as int, n as int),
{
    let ghost s = v@;
    let len = v.len();
    let mut u: usize = 0;
    assert(v@ =~= blocks_cycled4(s, a as int, b as int, c as int, e as int, 0));
    while u < n
        invariant
            u <= n,
            apart(a as int, b as int, n as int),
            apart(a as int, c as int, n as int),
            apart(a as int, e as int, n as int),
            apart(b as int, c as int, n as int),
            apart(b as int, e as int, n as int),
            apart(c as int, e as int, n as int),
            a + n <= len,
            b + n <= len,
            c + n <= len,
            e + n <= len,
            s.len() == len,
            v@ == blocks_cycled4(s, a as int, b as int, c as int, e as int, u as int),
        decreases n - u,
    {
        let w = v[a + u];
        let x = v[b + u];
        let y = v[c + u];
        let z = v[e + u];
        v[a + u] = x;
        v[b + u] = y;
        v[c + u] = z;
        v[e + u] = w;
        u = u + 1;
        assert(v@ =~= blocks_cycled4(s, a as int, b as int, c as int, e as int, u as int));
    }
}

/// Both sides of `[lo, hi)` around `mid` are made of whole blocks of `bs` elements.
pub open spec fn whole_blocks(lo: int, mid: int, hi: int, bs: int, len: int) -> bool {
    &&& 0 <= lo <= mid <= hi <= len
    &&& bs > 0
    &&& (mid - lo) % bs == 0
    &&& (hi - mid) % bs == 0
}

/// What position `k` holds in a state of the block conjoined triple reversal of `[lo, hi)`
/// around `mid`: the `d` outermost positions at each end of the range hold their final elements,
/// the positions in `[xlo, xhi)` hold their elements after the blocks of both sides were
/// reversed, and all other positions still hold the elements of `s`.
pub open spec fn bcontrev_value<T>(
    s: Seq<T>,
    lo: int,
    mid: int,
    hi: int,
    bs: int,
    d: int,
    xlo: int,
    xhi: int,
    k: int,
) -> T {
    if lo <= k < hi && (k < lo + d || hi - d <= k) {
        rotated(s, lo, mid, hi)[k]
    } else if xlo <= k < xhi {
        sides_blocks_reversed(s, lo, mid, hi, bs)[k]
    } else {
        s[k]
    }
}

/// `cur` is the state described by `bcontrev_value`.
pub open spec fn bcontrev_state<T>(
    cur: Seq<T>,
    s: Seq<T>,
    lo: int,
    mid: int,
    hi: int,
    bs: int,
    d: int,
    xlo: int,
    xhi: int,
) -> bool {
    &&& cur.len() == s.len()
    &&& forall|k: int|
        0 <= k < s.len() ==> #[trigger] cur[k] == bcontrev_value(s, lo, mid, hi, bs, d, xlo, xhi, k)
}

/// Nothing is done yet.
pub proof fn lemma_bcontrev_start<T>(s: Seq<T>, lo: int, mid: int, hi: int, bs: int)
    ensures
        bcontrev_state(s, s, lo, mid, hi, bs, 0, mid, mid),
{
}

/// The final element of a position of the range is the one that the block-reversed sides hold
/// at its mirror position in the whole range.
pub proof fn lemma_final_from_mirror<T>(
    s: Seq<T>,
    lo: int,
    mid: int,
    hi: int,
    bs: int,
    x: int,
    u: int,
)
    requires
        whole_blocks(lo, mid, hi, bs, s.len() as int),
        x % bs == 0,
        0 <= u < bs,
        lo <= lo + x,
        lo + x + u < hi,
    ensures
        rotated(s, lo, mid, hi)[lo + x + u] == sides_blocks_reversed(s, lo, mid, hi, bs)[hi - bs
            - x + u],
{
    lemma_triple_block_reversal(s, lo, mid, hi, bs);
    lemma_mod_offset(x, u, bs);
    assert(blocks_reversed(sides_blocks_reversed(s, lo, mid, hi, bs), lo, hi, bs)[lo + x + u]
        == rotated(s, lo, mid, hi)[lo + x + u]);
}

/// One turn of the first loop: the four blocks at `lo + d`, `mid - bs - d`, `mid + d` and
/// `hi - bs - d` move round, `ls <- rs <- re <- le <- ls`.
pub proof fn lemma_bcontrev_four<T>(
    cur: Seq<T>,
    s: Seq<T>,
    lo: int,
    mid: int,
    hi: int,
    bs: int,
    d: int,
)
    requires
        whole_blocks(lo, mid, hi, bs, s.len() as int),
        0 <= d,
        d % bs == 0,
        2 * d + 2 * bs <= mid - lo,
        2 * d + 2 * bs <= hi - mid,
        bcontrev_state(cur, s, lo, mid, hi, bs, d, mid - d, mid + d),
    ensures
        bcontrev_state(
            blocks_cycled4(cur, lo + d, mid + d, hi - bs - d, mid - bs - d, bs),
            s,
            lo,
            mid,
            hi,
            bs,
            d + bs,
            mid - d - bs,
            mid + d + bs,
        ),
{
    let next = blocks_cycled4(cur, lo + d, mid + d, hi - bs - d, mid - bs - d, bs);
    vstd::arithmetic::div_mod::lemma_mod_self_0(bs);
    lemma_multiple_sub(mid - lo, d, bs);
    lemma_multiple_sub(mid - lo - d, bs, bs);
    assert forall|k: int| 0 <= k < s.len() implies #[trigger] next[k] == bcontrev_value(
        s,
        lo,
        mid,
        hi,
        bs,
        d + bs,
        mid - d - bs,
        mid + d + bs,
        k,
    ) by {
        if mid + d <= k < mid + d + bs {
            lemma_mod_offset(d, k - mid - d, bs);
        } else if mid - bs - d <= k < mid - d {
            lemma_mod_offset(mid - lo - d - bs, k - (mid - bs - d), bs);
        }
    }
}

/// One turn of the second loop when the left side is the longer: the blocks at `lo + d`,
/// `mid - bs - d` and `hi - bs - d` move round, `ls <- re <- le <- ls`.
pub proof fn lemma_bcontrev_three_left<T>(
    cur: Seq<T>,
    s: Seq<T>,
    lo: int,
    mid: int,
    hi: int,
    bs: int,
    d: int,
)
    requires
        whole_blocks(lo, mid, hi, bs, s.len() as int),
        0 <= d,
        d % bs == 0,
        2 * d + 2 * bs <= mid - lo,
        bs <= hi - mid,
        bcontrev_state(cur, s, lo, mid, hi, bs, d, mid - d, hi - d),
    ensures
        bcontrev_state(
            blocks_cycled3(cur, lo + d, hi - bs - d, mid - bs - d, bs),
            s,
            lo,
            mid,
            hi,
            bs,
            d + bs,
            mid - d - bs,
            hi - d - bs,
        ),
{
    let next = blocks_cycled3(cur, lo + d, hi - bs - d, mid - bs - d, bs);
    vstd::arithmetic::div_mod::lemma_mod_self_0(bs);
    lemma_multiple_sub(mid - lo, d, bs);
    lemma_multiple_sub(mid - lo - d, bs, bs);
    assert forall|k: int| 0 <= k < s.len() implies #[trigger] next[k] == bcontrev_value(
        s,
        lo,
        mid,
        hi,
        bs,
        d + bs,
        mid - d - bs,
        hi - d - bs,
        k,
    ) by {
        if lo + d <= k < lo + d + bs {
            lemma_final_from_mirror(s, lo, mid, hi, bs, d, k - lo - d);
        } else if mid - bs - d <= k < mid - d {
            lemma_mod_offset(mid - lo - d - bs, k - (mid - bs - d), bs);
        }
    }
}

/// One turn of the second loop when the right side is the longer: the blocks at `lo + d`,
/// `mid + d` and `hi - bs - d` move round, `ls <- rs <- re <- ls`.
pub proof fn lemma_bcontrev_three_right<T>(
    cur: Seq<T>,
    s: Seq<T>,
    lo: int,
    mid: int,
    hi: int,
    bs: int,
    d: int,
)
    requires
        whole_blocks(lo, mid, hi, bs, s.len() as int),
        0 <= d,
        d % bs == 0,
        2 * d + 2 * bs <= hi - mid,
        bs <= mid - lo,
        bcontrev_state(cur, s, lo, mid, hi, bs, d, lo + d, mid + d),
    ensures
        bcontrev_state(
            blocks_cycled3(cur, lo + d, mid + d, hi - bs - d, bs),
            s,
            lo,
            mid,
            hi,
            bs,
            d + bs,
            lo + d + bs,
            mid + d + bs,
        ),
{
    let next = blocks_cycled3(cur, lo + d, mid + d, hi - bs - d, bs);
    vstd::arithmetic::div_mod::lemma_mod_self_0(bs);
    lemma_multiple_sub(hi - mid, mid - lo, bs);
    assert((hi - mid) + (mid - lo) == hi - lo);
    lemma_multiple_sub(hi - lo, d, bs);
    lemma_multiple_sub(hi - lo - d, bs, bs);
    assert forall|k: int| 0 <= k < s.len() implies #[trigger] next[k] == bcontrev_value(
        s,
        lo,
        mid,
        hi,
        bs,
        d + bs,
        lo + d + bs,
        mid + d + bs,
        k,
    ) by {
        if mid + d <= k < mid + d + bs {
            lemma_mod_offset(d, k - mid - d, bs);
        } else if hi - bs - d <= k < hi - d {
            lemma_final_from_mirror(s, lo, mid, hi, bs, hi - lo - bs - d, k - (hi - bs - d));
        }
    }
}

/// A block that is its own mirror in its side holds the same elements after the blocks of the
/// side are reversed, so the block-reversed part of a state may take it in: on the left, the
/// block just before `mid - d` when it starts at `lo + d`; on the right, the block from
/// `mid + d` on when it ends at `hi - d`.
pub proof fn lemma_bcontrev_widen<T>(
    cur: Seq<T>,
    s: Seq<T>,
    lo: int,
    mid: int,
    hi: int,
    bs: int,
    d: int,
    xlo: int,
    xhi: int,
    ylo: int,
    yhi: int,
)
    requires
        whole_blocks(lo, mid, hi, bs, s.len() as int),
        0 <= d,
        d % bs == 0,
        bcontrev_state(cur, s, lo, mid, hi, bs, d, xlo, xhi),
        lo + d <= ylo <= xlo,
        xhi <= yhi <= hi - d,
        ylo == xlo || (ylo == lo + d && xlo == mid - d && xlo == ylo + bs),
        yhi == xhi || (xhi == mid + d && yhi == hi - d && yhi == xhi + bs),
    ensures
        bcontrev_state(cur, s, lo, mid, hi, bs, d, ylo, yhi),
{
    assert forall|k: int| 0 <= k < s.len() implies #[trigger] cur[k] == bcontrev_value(
        s,
        lo,
        mid,
        hi,
        bs,
        d,
        ylo,
        yhi,
        k,
    ) by {
        if ylo <= k < xlo {
            lemma_mod_offset(d, k - lo - d, bs);
        } else if xhi <= k < yhi {
            lemma_mod_offset(d, k - mid - d, bs);
        }
    }
}

/// Reversing the order of the blocks of the middle, which holds the block-reversed sides,
/// finishes the rotation.
pub proof fn lemma_bcontrev_finish<T>(
    cur: Seq<T>,
    s: Seq<T>,
    lo: int,
    mid: int,
    hi: int,
    bs: int,
    d: int,
)
    requires
        whole_blocks(lo, mid, hi, bs, s.len() as int),
        0 <= d,
        d % bs == 0,
        lo + d <= hi - d,
        bcontrev_state(cur, s, lo, mid, hi, bs, d, lo + d, hi - d),
    ensures
        blocks_reversed(cur, lo + d, hi - d, bs) == rotated(s, lo, mid, hi),
{
    let r = blocks_reversed(cur, lo + d, hi - d, bs);
    let f = rotated(s, lo, mid, hi);
    let sbr = sides_blocks_reversed(s, lo, mid, hi, bs);
    lemma_triple_block_reversal(s, lo, mid, hi, bs);
    lemma_multiple_sub(hi - mid, mid - lo, bs);
    assert((hi - mid) + (mid - lo) == hi - lo);
    assert((hi - lo) % bs == 0);
    lemma_multiple_sub(hi - lo, d, bs);
    lemma_multiple_sub(hi - lo - d, d, bs);
    assert forall|k: int| 0 <= k < s.len() implies r[k] == f[k] by {
        if lo + d <= k < hi - d {
            let x = k - lo - d;
            let u = x % bs;
            lemma_split(x, bs);
            lemma_multiple_sub(d, x - u, bs);
            lemma_mod_offset(d + (x - u), u, bs);
            crate::orbit::lemma_multiple_gap(x - u, hi - lo - 2 * d, bs);
            assert(blocks_reversed(sbr, lo, hi, bs)[k] == f[k]);
        }
    }
    assert(r =~= f);
}


/// With `n` the number of pairs of blocks that a side of `side` elements holds, the blocks of
/// the pair number `i < n`, counted from both ends, lie inside the side.
pub proof fn lemma_block_turn(i: int, n: int, side: int, bs: int)
    requires
        bs > 0,
        side >= 0,
        side % bs == 0,
        n == side / bs / 2,
        0 <= i < n,
    ensures
        2 * (i * bs) + 2 * bs <= side,
        (i + 1) * bs == i * bs + bs,
        (i * bs) % bs == 0,
        0 <= i * bs,
{
    let r = side / bs;
    vstd::arithmetic::div_mod::lemma_fundamental_div_mod(side, bs);
    vstd::arithmetic::div_mod::lemma_fundamental_div_mod(r, 2);
    vstd::arithmetic::div_mod::lemma_mod_bound(r, 2);
    assert(2 * (i + 1) <= r);
    assert(2 * (i * bs) + 2 * bs <= side) by (nonlinear_arith)
        requires
            side == bs * r + 0,
            2 * (i + 1) <= r,
            bs > 0,
    ;
    assert((i + 1) * bs == i * bs + bs) by (nonlinear_arith);
    assert(0 <= i * bs) by (nonlinear_arith)
        requires
            0 <= i,
            bs > 0,
    ;
    vstd::arithmetic::div_mod::lemma_mod_multiples_basic(i, bs);
}

/// After the `n` pairs of blocks of a side of `side` elements, at most one block is left in its
/// middle.
pub proof fn lemma_block_halves(side: int, bs: int, n: int)
    requires
        bs > 0,
        side >= 0,
        side % bs == 0,
        n == side / bs / 2,
    ensures
        side - 2 * (n * bs) == 0 || side - 2 * (n * bs) == bs,
        (n * bs) % bs == 0,
        0 <= n * bs,
{
    let r = side / bs;
    vstd::arithmetic::div_mod::lemma_fundamental_div_mod(side, bs);
    vstd::arithmetic::div_mod::lemma_fundamental_div_mod(r, 2);
    vstd::arithmetic::div_mod::lemma_mod_bound(r, 2);
    vstd::arithmetic::div_mod::lemma_div_pos_is_pos(side, bs);
    let m = r % 2;
    assert(side - 2 * (n * bs) == m * bs) by (nonlinear_arith)
        requires
            side == bs * r + 0,
            r == 2 * n + m,
    ;
    if m == 0 {
        assert(m * bs == 0);
    } else {
        assert(m == 1);
        assert(m * bs == bs);
    }
    assert(0 <= n * bs) by (nonlinear_arith)
        requires
            0 <= r,
            n == r / 2,
            bs > 0,
    ;
    vstd::arithmetic::div_mod::lemma_mod_multiples_basic(n, bs);
}

} // verus!
