use rotate::{
    ptr_block_contrev_rotate, ptr_block_reversal_rotate, ptr_contrev_rotate, ptr_direct_rotate,
    ptr_edge_rotate, ptr_helix_rotate, ptr_piston_rotate, ptr_piston_rotate_rec,
    ptr_reversal_rotate, stable_ptr_rotate,
};

fn div(s: usize, diff: usize) -> (usize, usize) {
    assert!(s >= diff);
    assert!(s % 2 == diff % 2);

    let r = s / 2 - diff / 2;

    (s - r, r)
}

fn seq(size: usize) -> Vec<usize> {
    let mut v = vec![0; size];
    for i in 0..size {
        v[i] = i + 1;
    }
    v
}

fn case(rotate: fn(&mut [usize], usize, usize, usize), size: usize, diff: usize) {
    let (l, r) = div(size, diff);
    let mut vec = seq(size);

    let mut s = seq(size);

    s.rotate_left(l);
    rotate(&mut vec, l, l, r);

    assert_eq!(vec, s);

    rotate(&mut vec, r, l - diff, l);

    s.rotate_right(l);
    assert_eq!(vec, s);
}

fn test_correct(rotate_f: fn(&mut [usize], usize, usize, usize)) {
    // --empty--
    case(rotate_f, 0, 0);

    // --empty--
    case(rotate_f, 2, 0);

    // 1  2  3  4  5  6 (7  8  9)10 11 12 13 14 15
    case(rotate_f, 15, 3);

    // 1  2  3  4  5 (6  7  8  9 10)11 12 13 14 15
    case(rotate_f, 15, 5);

    // 1  2  3  4  5  6  7 (8) 9 10 11 12 13 14 15
    case(rotate_f, 15, 1);

    // 1  2  3  4  5  6  7)(8  9 10 11 12 13 14
    case(rotate_f, 14, 0);

    // 1  2  3  4  5 (6  7  8  9 10)11 12 13 14 15
    case(rotate_f, 15, 5);

    // 1  2  3  4 (5  6  7  8  9 10 11)12 13 14 15
    case(rotate_f, 15, 7);

    // 1 (2  3  4  5  6  7  8  9 10 11 12 13 14)15
    case(rotate_f, 15, 13);

    //(1  2  3  4  5  6  7  8  9 10 11 12 13 14 15)
    case(rotate_f, 15, 15);

    //(1  2  3  4  5  6  7  8  9 10 11 12 13 14 15)
    case(rotate_f, 100_000, 0);
}

/// Every split of every length up to `n`, rotated and rotated back, inside a longer slice.
fn exhaustive(rotate_f: fn(&mut [usize], usize, usize, usize), n: usize) {
    for len in 0..=n {
        for left in 0..=len {
            let right = len - left;
            let mut v = seq(len + 4);
            let mut s = seq(len + 4);
            s[2..2 + len].rotate_left(left);
            rotate_f(&mut v, left, 2 + left, right);
            assert_eq!(v, s, "left {} right {}", left, right);
            rotate_f(&mut v, right, 2 + right, left);
            assert_eq!(v, seq(len + 4), "back: left {} right {}", left, right);
        }
    }
}

#[test]
// default (stable) rust rotate
fn ptr_rotate_correct() {
    test_correct(stable_ptr_rotate::<usize>);
}

#[test]
fn ptr_edge_rotate_correct() {
    test_correct(ptr_edge_rotate::<usize>);
}

#[test]
fn ptr_reversal_rotate_correct() {
    test_correct(ptr_reversal_rotate::<usize>);
}

#[test]
fn ptr_block_reversal_rotate_correct() {
    test_correct(ptr_block_reversal_rotate::<usize>);
}

#[test]
fn ptr_piston_rotate_rec_correct() {
    test_correct(ptr_piston_rotate_rec::<usize>);
}

#[test]
fn ptr_piston_rotate_correct() {
    test_correct(ptr_piston_rotate::<usize>);
}

#[test]
fn ptr_contrev_rotate_correct() {
    test_correct(ptr_contrev_rotate::<usize>);
}

#[test]
fn ptr_gen_contrev_rotate_correct() {
    test_correct(ptr_block_contrev_rotate::<usize>);
}

#[test]
fn ptr_direct_rotate_correct() {
    test_correct(ptr_direct_rotate::<usize>);
}

#[test]
fn ptr_helix_rotate_correct() {
    test_correct(ptr_helix_rotate::<usize>);
}

#[test]
fn helix_rotate_eight_five() {
    // the larger side does not hold the smaller one a whole number of times
    let mut v = seq(13);
    ptr_helix_rotate(&mut v, 8, 8, 5);
    assert_eq!(v, vec![9, 10, 11, 12, 13, 1, 2, 3, 4, 5, 6, 7, 8]);
    exhaustive(ptr_helix_rotate::<usize>, 30);
}

#[test]
fn block_contrev_rotate_uneven_blocks() {
    // blocks of two elements, one block against three and three against one
    let mut v = seq(8);
    ptr_block_contrev_rotate(&mut v, 2, 2, 6);
    assert_eq!(v, vec![3, 4, 5, 6, 7, 8, 1, 2]);
    let mut v = seq(8);
    ptr_block_contrev_rotate(&mut v, 6, 6, 2);
    assert_eq!(v, vec![7, 8, 1, 2, 3, 4, 5, 6]);
    // blocks of three: the example of nine against six
    let mut v = seq(15);
    ptr_block_contrev_rotate(&mut v, 9, 9, 6);
    assert_eq!(v, vec![10, 11, 12, 13, 14, 15, 1, 2, 3, 4, 5, 6, 7, 8, 9]);
    exhaustive(ptr_block_contrev_rotate::<usize>, 40);
}

#[test]
fn block_reversal_rotate_with_blocks() {
    // gcd(9, 6) = 3
    let mut v = seq(15);
    ptr_block_reversal_rotate(&mut v, 9, 9, 6);
    assert_eq!(v, vec![10, 11, 12, 13, 14, 15, 1, 2, 3, 4, 5, 6, 7, 8, 9]);
    // gcd(4, 8) = 4: one block against two
    let mut v = seq(12);
    ptr_block_reversal_rotate(&mut v, 4, 4, 8);
    assert_eq!(v, vec![5, 6, 7, 8, 9, 10, 11, 12, 1, 2, 3, 4]);
    exhaustive(ptr_block_reversal_rotate::<usize>, 40);
}

#[test]
fn every_split_is_rotated() {
    exhaustive(stable_ptr_rotate::<usize>, 30);
    exhaustive(ptr_edge_rotate::<usize>, 30);
    exhaustive(ptr_reversal_rotate::<usize>, 30);
    exhaustive(ptr_piston_rotate_rec::<usize>, 30);
    exhaustive(ptr_piston_rotate::<usize>, 30);
    exhaustive(ptr_contrev_rotate::<usize>, 30);
    exhaustive(ptr_direct_rotate::<usize>, 30);
}

#[test]
fn rotate_inside_a_longer_slice() {
    let mut v = seq(10);
    ptr_direct_rotate(&mut v, 3, 5, 2);
    assert_eq!(v, vec![1, 2, 6, 7, 3, 4, 5, 8, 9, 10]);
}

#[test]
fn stable_rotate_takes_each_algorithm() {
    // the auxiliary algorithm: the smaller side fits in 32 words
    let mut v = seq(100);
    let mut s = seq(100);
    s.rotate_left(70);
    stable_ptr_rotate(&mut v, 70, 70, 30);
    assert_eq!(v, s);

    let mut v = seq(100);
    let mut s = seq(100);
    s.rotate_left(20);
    stable_ptr_rotate(&mut v, 20, 20, 80);
    assert_eq!(v, s);

    // the swapping algorithm: both sides longer than 32 words
    let mut v = seq(300);
    let mut s = seq(300);
    s.rotate_left(170);
    stable_ptr_rotate(&mut v, 170, 170, 130);
    assert_eq!(v, s);

    let mut v = seq(300);
    let mut s = seq(300);
    s.rotate_left(40);
    stable_ptr_rotate(&mut v, 40, 40, 260);
    assert_eq!(v, s);

    // the juggling algorithm for elements larger than four words
    let mut v: Vec<[u64; 5]> = (0..50).map(|i| [i; 5]).collect();
    let mut s = v.clone();
    s.rotate_left(35);
    stable_ptr_rotate(&mut v, 35, 35, 15);
    assert_eq!(v, s);

    // elements with no size, on a short range
    let mut v = vec![(); 20];
    stable_ptr_rotate(&mut v, 12, 12, 8);
    assert_eq!(v, vec![(); 20]);
}

#[test]
fn rotation_keeps_the_elements() {
    let mut v = vec![5, 3, 5, 1, 9, 3, 3, 7];
    let mut before = v.clone();
    ptr_block_contrev_rotate(&mut v, 3, 5, 2);
    assert_eq!(v, vec![5, 3, 3, 3, 5, 1, 9, 7]);
    let mut after = v.clone();
    before.sort();
    after.sort();
    assert_eq!(before, after);
}
