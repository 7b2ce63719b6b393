use particle_life::torus::{loop_fixed, loop_to_int};

#[test]
fn upper_end_wraps_to_lower_end() {
    assert_eq!(loop_fixed(500, -500, 500), -500);
    assert_eq!(loop_to_int(32, 0, 32), 0);
}

#[test]
fn values_inside_stay() {
    assert_eq!(loop_fixed(-500, -500, 500), -500);
    assert_eq!(loop_fixed(499, -500, 500), 499);
    assert_eq!(loop_fixed(0, -500, 500), 0);
    assert_eq!(loop_to_int(0, 0, 32), 0);
    assert_eq!(loop_to_int(31, 0, 32), 31);
}

#[test]
fn one_step_outside_wraps_round() {
    assert_eq!(loop_fixed(501, -500, 500), -499);
    assert_eq!(loop_fixed(-501, -500, 500), 499);
    assert_eq!(loop_to_int(-1, 0, 32), 31);
    assert_eq!(loop_to_int(33, 0, 32), 1);
}

#[test]
fn far_outside_wraps_in_one_call() {
    assert_eq!(loop_fixed(1_000_000_007, 0, 10), 7);
    assert_eq!(loop_fixed(-1_000_000_007, 0, 10), 3);
    assert_eq!(loop_fixed(i64::MAX, -500, 500), -193);
    assert_eq!(loop_fixed(i64::MIN, -500, 500), 192);
    assert_eq!(loop_fixed(i64::MIN, i64::MAX - 1, i64::MAX), i64::MAX - 1);
    assert_eq!(loop_to_int(i32::MAX, 0, 32), 31);
    assert_eq!(loop_to_int(i32::MIN, 0, 32), 0);
}

#[test]
fn whole_multiples_above_the_range_wrap_to_lower_end() {
    assert_eq!(loop_fixed(1500, -500, 500), -500);
    assert_eq!(loop_fixed(2500, -500, 500), -500);
    assert_eq!(loop_to_int(64, 0, 32), 0);
    assert_eq!(loop_to_int(96, 0, 32), 0);
}

#[test]
fn wrapped_value_differs_by_whole_ranges() {
    let cases: [(i64, i64, i64); 6] = [
        (12_345, -500, 500),
        (-12_345, -500, 500),
        (7, 10, 13),
        (-7, 10, 13),
        (1_000_000, -3, 4),
        (-1_000_000, -3, 4),
    ];
    for (n, lower, upper) in cases {
        let r = loop_fixed(n, lower, upper);
        assert!(lower <= r && r < upper);
        assert_eq!((r - n).rem_euclid(upper - lower), 0);
    }
}

#[test]
fn range_may_lie_anywhere() {
    assert_eq!(loop_fixed(0, 10, 13), 12);
    assert_eq!(loop_fixed(14, 10, 13), 11);
    assert_eq!(loop_to_int(-5, -3, 0), -2);
    assert_eq!(loop_to_int(0, -3, 0), -3);
}
