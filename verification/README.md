# rotate

Array rotations, verified with Verus. Rotating a range `[mid - left, mid + right)` of a slice
trades its two sides: the `right` elements from `mid` on come first, followed by the `left`
elements before `mid`, each side keeping its order.

```text
       left = 9             mid   right = 6
[ 1  2  3  4  5  6  7  8  9 *A  B  C  D  E  F]
[ A  B  C  D  E  F  1  2  3  4  5  6  7  8  9]
```

Every algorithm takes the slice, `left`, `mid` and `right`, and its contract states that the
slice afterwards is `rotation(old, left, mid, right)` (see `src/model.rs`), so they all compute
the same result:

- in place: edge, direct (juggling), triple reversal, block triple reversal, piston (recursive and
  iterative), helix, conjoined triple reversal and its block variant, Gries-Mills (recursive and
  iterative), drill, and the rotation of the standard library's slices (`stable_ptr_rotate`);
- with a scratch buffer: auxiliary (with `utils::copy` or with a `memmove`), bridge and trinity;
  their contracts also state what the buffer holds afterwards.

The block algorithms compute `gcd(left, right)` with the `gcd` crate.

`src/laws.rs` proves properties of the rotation itself: rotating back restores the slice, a
rotation of the whole slice is a left rotation by `left` positions, and a rotation only
rearranges the elements.

Layout: `src/model.rs` (the specification), `src/utils.rs` (copies, shifts, swaps),
`src/lib.rs`, `src/gm.rs`, `src/buf.rs` (the rotations), and the proof modules `orbit`,
`juggling`, `steps`, `conjoined`, `blocks`, `conjoined_blocks`, `divisors`.
