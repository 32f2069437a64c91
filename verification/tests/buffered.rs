use rotate::{ptr_aux_rotate, ptr_bridge_rotate, ptr_naive_aux_rotate, ptr_trinity_rotate};

fn div(s: usize, diff: usize) -> (usize, usize) {
    assert!(s >= diff);
    assert!(s % 2 == diff % 2);

    let r = s / 2 - diff / 2;

    (s - r, r)
}

fn seq(size: usize) -> Vec<usize> {
    let mut v = vec![0; size];
    for i in 0..size {
        v[i] = i + 1;
    }
    v
}

fn case(
    buf_rotate: fn(&mut [usize], usize, usize, usize, &mut [usize]),
    size: usize,
    diff: usize,
    buffer: &mut [usize],
) {
    let (l, r) = div(size, diff);
    let mut vec = seq(size);

    let mut s = seq(size);

    s.rotate_left(l);
    buf_rotate(&mut vec, l, l, r, buffer);

    assert_eq!(vec, s);

    buf_rotate(&mut vec, r, l - diff, l, buffer);

    s.rotate_right(l);
    assert_eq!(vec, s);
}

fn test_correct(
    rotate_f: fn(&mut [usize], usize, usize, usize, &mut [usize]),
    buffer: &mut Vec<usize>,
) {
    // --empty--
    case(rotate_f, 0, 0, buffer.as_mut_slice());

    // 1  2  3  4  5  6 (7  8  9)10 11 12 13 14 15
    case(rotate_f, 15, 3, buffer.as_mut_slice());

    // 1  2  3  4  5  6  7 (8) 9 10 11 12 13 14 15
    case(rotate_f, 15, 1, buffer.as_mut_slice());

    // 1  2  3  4  5 (6  7  8  9 10)11 12 13 14 15
    case(rotate_f, 15, 5, buffer.as_mut_slice());

    // 1  2  3  4  5  6  7)(8  9 10 11 12 13 14
    case(rotate_f, 14, 0, buffer.as_mut_slice());

    // 1  2  3  4 (5  6  7  8  9 10 11)12 13 14 15
    case(rotate_f, 15, 7, buffer.as_mut_slice());

    // 1 (2  3  4  5  6  7  8  9 10 11 12 13 14)15
    case(rotate_f, 15, 13, buffer.as_mut_slice());

    //(1  2  3  4  5  6  7  8  9 10 11 12 13 14 15)
    case(rotate_f, 15, 15, buffer.as_mut_slice());

    //(1  2  3  4  5  6  7  8  9 10 11 12 13 14 15)
    case(rotate_f, 100_000, 0, buffer.as_mut_slice());
}

#[test]
fn ptr_aux_rotate_correct() {
    let mut buffer = vec![0usize; 100_000];
    test_correct(ptr_aux_rotate::<usize>, &mut buffer);
}

#[test]
fn ptr_naive_aux_rotate_correct() {
    let mut buffer = vec![0usize; 100_000];
    test_correct(ptr_naive_aux_rotate::<usize>, &mut buffer);
}

#[test]
fn ptr_bridge_rotate_correct() {
    let mut buffer = vec![0usize; 100_000];
    test_correct(ptr_bridge_rotate::<usize>, &mut buffer);
}

#[test]
fn ptr_trinity_rotate_correct() {
    let mut buffer = Vec::<usize>::with_capacity(100_000);
    test_correct(ptr_trinity_rotate::<usize>, &mut buffer);
}

fn exhaustive(rotate_f: fn(&mut [usize], usize, usize, usize, &mut [usize]), n: usize, buffer_len: usize) {
    for len in 0..=n {
        for left in 0..=len {
            let right = len - left;
            let mut buffer = vec![0usize; buffer_len];
            let mut v = seq(len + 2);
            let mut s = seq(len + 2);
            s[1..1 + len].rotate_left(left);
            rotate_f(&mut v, left, 1 + left, right, &mut buffer);
            assert_eq!(v, s, "left {} right {}", left, right);
        }
    }
}

#[test]
fn buffered_rotations_every_split() {
    exhaustive(ptr_aux_rotate::<usize>, 30, 15);
    exhaustive(ptr_naive_aux_rotate::<usize>, 30, 15);
    exhaustive(ptr_bridge_rotate::<usize>, 30, 10);
    for buffer_len in 0..12 {
        exhaustive(ptr_trinity_rotate::<usize>, 30, buffer_len);
    }
}

#[test]
fn aux_rotate_keeps_smaller_side_in_buffer() {
    let mut v = seq(10);
    let mut buffer = vec![0usize; 5];
    ptr_aux_rotate(&mut v, 3, 3, 7, &mut buffer);
    assert_eq!(v, vec![4, 5, 6, 7, 8, 9, 10, 1, 2, 3]);
    assert_eq!(buffer, vec![1, 2, 3, 0, 0]);
}

#[test]
fn bridge_rotate_moves_the_bridge_through_the_buffer() {
    // nine against six: the bridge is three elements, smaller than both sides
    let mut v = seq(15);
    let mut buffer = vec![0usize; 3];
    ptr_bridge_rotate(&mut v, 9, 9, 6, &mut buffer);
    assert_eq!(v, vec![10, 11, 12, 13, 14, 15, 1, 2, 3, 4, 5, 6, 7, 8, 9]);
    assert_eq!(buffer, vec![7, 8, 9]);

    let mut v = seq(15);
    let mut buffer = vec![0usize; 3];
    ptr_bridge_rotate(&mut v, 6, 6, 9, &mut buffer);
    assert_eq!(v, vec![7, 8, 9, 10, 11, 12, 13, 14, 15, 1, 2, 3, 4, 5, 6]);
    assert_eq!(buffer, vec![7, 8, 9]);
}

#[test]
fn trinity_rotate_picks_by_buffer_size() {
    // the smaller side fits: auxiliary
    let mut v = seq(20);
    let mut buffer = vec![0usize; 8];
    ptr_trinity_rotate(&mut v, 12, 12, 8, &mut buffer);
    assert_eq!(v, vec![13, 14, 15, 16, 17, 18, 19, 20, 1, 2, 3, 4, 5, 6, 7, 8, 9, 10, 11, 12]);
    assert_eq!(buffer, vec![13, 14, 15, 16, 17, 18, 19, 20]);

    // only the bridge of four fits: bridge
    let mut v = seq(20);
    let mut buffer = vec![0usize; 4];
    ptr_trinity_rotate(&mut v, 12, 12, 8, &mut buffer);
    assert_eq!(v, vec![13, 14, 15, 16, 17, 18, 19, 20, 1, 2, 3, 4, 5, 6, 7, 8, 9, 10, 11, 12]);
    assert_eq!(buffer, vec![9, 10, 11, 12]);

    // nothing fits: conjoined triple reversal, the buffer untouched
    let mut v = seq(20);
    let mut buffer = vec![0usize; 2];
    ptr_trinity_rotate(&mut v, 12, 12, 8, &mut buffer);
    assert_eq!(v, vec![13, 14, 15, 16, 17, 18, 19, 20, 1, 2, 3, 4, 5, 6, 7, 8, 9, 10, 11, 12]);
    assert_eq!(buffer, vec![0, 0]);
}
