use rotate::utils::{
    block_copy, byte_copy, copy, reverse_slice, shift_left, shift_right, swap_backward, swap_forward,
};

fn seq_multi<const N: usize>(size: usize) -> Vec<[usize; N]> {
    let mut v = vec![[0; N]; size];
    for i in 0..size {
        v[i] = [i + 1; N];
    }
    v
}

fn seq(size: usize) -> Vec<usize> {
    let mut v = vec![0; size];
    for i in 0..size {
        v[i] = i + 1;
    }
    v
}

/// The sequence `1..=len` and the positions of its elements `x` and `y`.
fn prepare(len: usize, x: usize, y: usize) -> (Vec<usize>, (usize, usize)) {
    (seq(len), (x - 1, y - 1))
}

fn to_bytes(v: &[usize]) -> Vec<u8> {
    let mut bytes = Vec::new();
    for x in v {
        bytes.extend_from_slice(&x.to_ne_bytes());
    }
    bytes
}

fn from_bytes(bytes: &[u8]) -> Vec<usize> {
    let size = std::mem::size_of::<usize>();
    let mut v = Vec::new();
    for chunk in bytes.chunks(size) {
        let mut word = [0u8; 8];
        word[..size].copy_from_slice(chunk);
        v.push(usize::from_ne_bytes(word[..size].try_into().unwrap()));
    }
    v
}

#[test]
fn reverse_slice_correct() {
    let mut v = vec![1, 2, 3, 4, 5, 6, 7, 8, 9, 10, 11, 12, 13, 14, 15];
    reverse_slice(&mut v, 0, 15);

    assert_eq!(v, vec![15, 14, 13, 12, 11, 10, 9, 8, 7, 6, 5, 4, 3, 2, 1]);

    v = vec![1, 2, 3];
    reverse_slice(&mut v, 0, 3);

    assert_eq!(v, vec![3, 2, 1]);
}

#[test]
fn copy_correct() {
    let (mut v, (src, dst)) = prepare(15, 4, 7);

    copy(&mut v, src, dst, 7);

    let s = vec![1, 2, 3, 4, 5, 6, 4, 5, 6, 7, 8, 9, 10, 14, 15];
    assert_eq!(v, s);

    let (mut v, (src, dst)) = prepare(15, 7, 4);

    copy(&mut v, src, dst, 6);

    let s = vec![1, 2, 3, 7, 8, 9, 10, 11, 12, 10, 11, 12, 13, 14, 15];
    assert_eq!(v, s);
}

#[test]
fn block_copy_correct() {
    let (mut v, (src, dst)) = prepare(15, 4, 7);

    block_copy(&mut v, src, dst, 7);

    let s = vec![1, 2, 3, 4, 5, 6, 4, 5, 6, 7, 8, 9, 10, 14, 15];
    assert_eq!(v, s);

    let (mut v, (src, dst)) = prepare(15, 7, 4);

    block_copy(&mut v, src, dst, 6);

    let s = vec![1, 2, 3, 7, 8, 9, 10, 11, 12, 10, 11, 12, 13, 14, 15];
    assert_eq!(v, s);
}

#[test]
fn byte_copy_correct() {
    let size = std::mem::size_of::<usize>();
    let (v, (src, dst)) = prepare(15, 4, 7);
    let mut bytes = to_bytes(&v);

    byte_copy(&mut bytes, src, dst, 7, size);

    let s = vec![1, 2, 3, 4, 5, 6, 4, 5, 6, 7, 8, 9, 10, 14, 15];
    assert_eq!(from_bytes(&bytes), s);

    let (v, (src, dst)) = prepare(15, 7, 4);
    let mut bytes = to_bytes(&v);

    byte_copy(&mut bytes, src, dst, 6, size);

    let s = vec![1, 2, 3, 7, 8, 9, 10, 11, 12, 10, 11, 12, 13, 14, 15];
    assert_eq!(from_bytes(&bytes), s);
}

#[test]
fn shift_left_correct() {
    let mut v = seq(15);
    let mut src = 3;

    shift_left(&mut v, src, 7);

    assert_eq!(v, vec![1, 2, 4, 5, 6, 7, 8, 9, 10, 10, 11, 12, 13, 14, 15]);

    src = 2;

    shift_left(&mut v, src, 7);

    assert_eq!(v, vec![1, 4, 5, 6, 7, 8, 9, 10, 10, 10, 11, 12, 13, 14, 15]);

    v = seq(15);
    let mut src = 3;

    shift_left(&mut v, src, 7);

    assert_eq!(v, vec![1, 2, 4, 5, 6, 7, 8, 9, 10, 10, 11, 12, 13, 14, 15]);

    src = 2;

    shift_left(&mut v, src, 7);

    assert_eq!(v, vec![1, 4, 5, 6, 7, 8, 9, 10, 10, 10, 11, 12, 13, 14, 15]);
}

#[test]
fn shift_right_correct() {
    let mut v = seq(15);
    let mut src = 3;

    shift_right(&mut v, src, 7);

    assert_eq!(v, vec![1, 2, 3, 4, 4, 5, 6, 7, 8, 9, 10, 12, 13, 14, 15]);

    src = 4;

    shift_right(&mut v, src, 7);

    assert_eq!(v, vec![1, 2, 3, 4, 4, 4, 5, 6, 7, 8, 9, 10, 13, 14, 15]);
}

#[test]
fn shift_correct() {
    let mut v = seq_multi::<20>(15);
    let mut src = 1;

    shift_left(&mut v, src, 14);

    assert_eq!(v[0..13], seq_multi::<20>(14)[1..14]);

    v = seq_multi::<20>(15);
    src = 0;

    shift_right(&mut v, src, 14);
    assert_eq!(v[1..14], seq_multi::<20>(14)[0..13]);
}

#[test]
fn swap_forward_correct() {
    let (mut v, (x, y)) = prepare(15, 4, 7);

    swap_forward(&mut v, x, y, 7);

    let s = vec![1, 2, 3, 7, 8, 9, 10, 11, 12, 13, 5, 6, 4, 14, 15];
    assert_eq!(v, s);
}

#[test]
fn swap_backward_correct() {
    let (mut v, (x, y)) = prepare(15, 4, 7);

    swap_backward(&mut v, x, y, 7);

    let s = vec![1, 2, 3, 13, 11, 12, 4, 5, 6, 7, 8, 9, 10, 14, 15];
    assert_eq!(v, s);

    let (mut v, (x, y)) = prepare(15, 1, 7);

    swap_backward(&mut v, x, y, 9);

    let s = vec![13, 14, 15, 10, 11, 12, 1, 2, 3, 4, 5, 6, 7, 8, 9];
    assert_eq!(v, s);

    let (mut v, (x, y)) = prepare(15, 1, 8);

    swap_backward(&mut v, x, y, 8);

    let s = vec![15, 9, 10, 11, 12, 13, 14, 1, 2, 3, 4, 5, 6, 7, 8];
    assert_eq!(v, s);
}

#[test]
fn block_copy_with_remainder() {
    // blocks of 3 elements, count 7: two whole blocks and one element left over, forward
    let mut v = seq(15);
    block_copy(&mut v, 0, 3, 7);
    assert_eq!(v, vec![1, 2, 3, 1, 2, 3, 4, 5, 6, 7, 11, 12, 13, 14, 15]);

    // and backward
    let mut v = seq(15);
    block_copy(&mut v, 3, 0, 7);
    assert_eq!(v, vec![4, 5, 6, 7, 8, 9, 10, 8, 9, 10, 11, 12, 13, 14, 15]);
}

#[test]
fn block_copy_far_apart_and_adjacent() {
    // the ranges do not overlap
    let mut v = seq(10);
    block_copy(&mut v, 0, 6, 3);
    assert_eq!(v, vec![1, 2, 3, 4, 5, 6, 1, 2, 3, 10]);

    // blocks of one element
    let mut v = seq(10);
    block_copy(&mut v, 1, 0, 5);
    assert_eq!(v, vec![2, 3, 4, 5, 6, 6, 7, 8, 9, 10]);

    // nothing moves
    let mut v = seq(5);
    block_copy(&mut v, 2, 2, 3);
    assert_eq!(v, seq(5));
}

#[test]
fn reverse_slice_inner_range() {
    let mut v = seq(8);
    reverse_slice(&mut v, 2, 4);
    assert_eq!(v, vec![1, 2, 6, 5, 4, 3, 7, 8]);

    let mut v = seq(4);
    reverse_slice(&mut v, 1, 0);
    assert_eq!(v, seq(4));
}

#[test]
fn swap_forward_disjoint_blocks() {
    let mut v = seq(10);
    swap_forward(&mut v, 0, 5, 3);
    assert_eq!(v, vec![6, 7, 8, 4, 5, 1, 2, 3, 9, 10]);
}
