use rotate::{ptr_drill_rotate, ptr_griesmills_rotate, ptr_griesmills_rotate_rec};

fn div(s: usize, diff: usize) -> (usize, usize) {
    assert!(s >= diff);
    assert!(s % 2 == diff % 2);

    let r = s / 2 - diff / 2;

    (s - r, r)
}

fn seq(size: usize) -> Vec<usize> {
    let mut v = vec![0; size];
    for i in 0..size {
        v[i] = i + 1;
    }
    v
}

fn case(rotate: fn(&mut [usize], usize, usize, usize), size: usize, diff: usize) {
    let (l, r) = div(size, diff);
    let mut vec = seq(size);

    let mut s = seq(size);

    s.rotate_left(l);
    rotate(&mut vec, l, l, r);

    assert_eq!(vec, s);

    rotate(&mut vec, r, l - diff, l);

    s.rotate_right(l);
    assert_eq!(vec, s);
}

fn test_correct(rotate_f: fn(&mut [usize], usize, usize, usize)) {
    // --empty--
    case(rotate_f, 0, 0);

    // 1  2  3  4  5  6 (7  8  9)10 11 12 13 14 15
    case(rotate_f, 15, 3);

    // 1  2  3  4  5 (6  7  8  9 10)11 12 13 14 15
    case(rotate_f, 15, 5);

    // 1  2  3  4  5  6  7 (8) 9 10 11 12 13 14 15
    case(rotate_f, 15, 1);

    // 1  2  3  4  5  6  7)(8  9 10 11 12 13 14
    case(rotate_f, 14, 0);

    // 1  2  3  4 (5  6  7  8  9 10 11)12 13 14 15
    case(rotate_f, 15, 7);

    // 1 (2  3  4  5  6  7  8  9 10 11 12 13 14)15
    case(rotate_f, 15, 13);

    //(1  2  3  4  5  6  7  8  9 10 11 12 13 14 15)
    case(rotate_f, 15, 15);

    //(1  2  3  4  5  6  7  8  9 10 11 12 13 14 15)
    case(rotate_f, 100_000, 0);
}

fn exhaustive(rotate_f: fn(&mut [usize], usize, usize, usize), n: usize) {
    for len in 0..=n {
        for left in 0..=len {
            let right = len - left;
            let mut v = seq(len + 2);
            let mut s = seq(len + 2);
            s[1..1 + len].rotate_left(left);
            rotate_f(&mut v, left, 1 + left, right);
            assert_eq!(v, s, "left {} right {}", left, right);
        }
    }
}

#[test]
fn ptr_griesmills_rotate_rec_correct() {
    test_correct(ptr_griesmills_rotate_rec::<usize>);
}

#[test]
fn ptr_griesmills_rotate_correct() {
    test_correct(ptr_griesmills_rotate::<usize>);
}

#[test]
fn ptr_drill_rotate_correct() {
    test_correct(ptr_drill_rotate::<usize>);
}

#[test]
fn swapping_rotations_every_split() {
    exhaustive(ptr_griesmills_rotate_rec::<usize>, 30);
    exhaustive(ptr_griesmills_rotate::<usize>, 30);
    exhaustive(ptr_drill_rotate::<usize>, 30);
}
