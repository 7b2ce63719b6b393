use particle_life::fixed::{isqrt, UNIT};
use particle_life::force::{
    get_force, get_next_movement, get_pull, FORCE_FACTOR, FRICTION, MAX_R, MAX_REPULSION, NEUTRAL_R, REPULSION,
};

#[test]
fn constants_are_the_fixed_point_values() {
    assert_eq!(UNIT, 1_000_000);
    assert_eq!(NEUTRAL_R, 10 * UNIT);
    assert_eq!(MAX_R, 30 * UNIT);
    assert_eq!(FRICTION, UNIT / 2);
    assert_eq!(FORCE_FACTOR, UNIT / 10);
    assert_eq!(REPULSION, 10 * UNIT);
    assert_eq!(MAX_REPULSION, 100 * UNIT);
}

#[test]
fn integer_square_root_rounds_down() {
    assert_eq!(isqrt(0), 0);
    assert_eq!(isqrt(1), 1);
    assert_eq!(isqrt(3), 1);
    assert_eq!(isqrt(4), 2);
    assert_eq!(isqrt(24), 4);
    assert_eq!(isqrt(25), 5);
    assert_eq!(isqrt(26), 5);
    assert_eq!(isqrt(1_000_000_000_000), 1_000_000);
    assert_eq!(isqrt(u64::MAX), 4_294_967_295);
}

#[test]
fn force_vanishes_from_max_r_on() {
    for attr in [-UNIT, -1, 0, 1, UNIT / 3, UNIT] {
        assert_eq!(get_force(MAX_R as u64, attr), 0);
        assert_eq!(get_force(MAX_R as u64 + 1, attr), 0);
        assert_eq!(get_force(1_000 * UNIT as u64, attr), 0);
        assert_eq!(get_force(u64::MAX, attr), 0);
    }
}

#[test]
fn force_at_midpoint_is_the_coefficient() {
    let midpoint = ((NEUTRAL_R + MAX_R) / 2) as u64;
    for attr in [-UNIT, -UNIT / 2, -1, 0, 1, 333_333, UNIT] {
        assert_eq!(get_force(midpoint, attr), attr);
    }
}

#[test]
fn force_vanishes_at_neutral_r() {
    for attr in [-UNIT, 0, UNIT] {
        assert_eq!(get_force(NEUTRAL_R as u64, attr), 0);
    }
}

#[test]
fn short_range_force_is_squared_repulsion() {
    // -(10 * (d / 10 - 1))^2 = -(d - 10)^2
    assert_eq!(get_force(0, UNIT), -100 * UNIT);
    assert_eq!(get_force(5 * UNIT as u64, UNIT), -25 * UNIT);
    assert_eq!(get_force(9 * UNIT as u64, UNIT), -UNIT);
    assert_eq!(get_force(9_500_000, UNIT), -250_000);
    // (10 - 9.999999)^2 = 1e-12 rounds to zero
    assert_eq!(get_force(9_999_999, UNIT), 0);
    // (10 - 2.5)^2 = 56.25
    assert_eq!(get_force(2_500_000, 0), -56_250_000);
}

#[test]
fn short_range_force_ignores_the_coefficient() {
    for dist in [0u64, 1, 3_000_000, 9_999_999] {
        let reference = get_force(dist, 0);
        assert!(reference <= 0);
        for attr in [-UNIT, -7, 7, UNIT] {
            assert_eq!(get_force(dist, attr), reference);
        }
    }
}

#[test]
fn kernel_is_a_triangle() {
    // a * (1 - |2 d - 40| / 20)
    assert_eq!(get_force(15 * UNIT as u64, UNIT), UNIT / 2);
    assert_eq!(get_force(25 * UNIT as u64, UNIT), UNIT / 2);
    assert_eq!(get_force(15 * UNIT as u64, -UNIT), -UNIT / 2);
    assert_eq!(get_force(12 * UNIT as u64, UNIT), 200_000);
    assert_eq!(get_force(29 * UNIT as u64, UNIT), 100_000);
    assert_eq!(get_force(29 * UNIT as u64, -600_000), -60_000);
    // 0.333333 * 0.5 = 0.1666665, rounded toward zero
    assert_eq!(get_force(15 * UNIT as u64, 333_333), 166_666);
    assert_eq!(get_force(15 * UNIT as u64, -333_333), -166_666);
}

#[test]
fn pull_follows_the_displacement() {
    // distance 5, force -25, components 3/5 and 4/5 of it
    assert_eq!(get_pull(3 * UNIT, 4 * UNIT, UNIT), (-15 * UNIT, -20 * UNIT));
    assert_eq!(get_pull(-3 * UNIT, 4 * UNIT, UNIT), (15 * UNIT, -20 * UNIT));
    assert_eq!(get_pull(3 * UNIT, -4 * UNIT, 0), (-15 * UNIT, 20 * UNIT));
    // distance 20, force equal to the coefficient
    assert_eq!(get_pull(20 * UNIT, 0, UNIT), (UNIT, 0));
    assert_eq!(get_pull(0, -20 * UNIT, UNIT), (0, -UNIT));
    assert_eq!(get_pull(12 * UNIT, 16 * UNIT, -UNIT / 2), (-300_000, -400_000));
}

#[test]
fn coincident_particles_do_not_pull() {
    for attr in [-UNIT, 0, UNIT] {
        assert_eq!(get_pull(0, 0, attr), (0, 0));
    }
}

#[test]
fn nothing_pulls_from_max_r_on() {
    assert_eq!(get_pull(MAX_R, 0, UNIT), (0, 0));
    assert_eq!(get_pull(0, -MAX_R, UNIT), (0, 0));
    assert_eq!(get_pull(25 * UNIT, 25 * UNIT, UNIT), (0, 0));
    assert_eq!(get_pull(i64::MAX, 1, UNIT), (0, 0));
    assert_eq!(get_pull(i64::MIN, i64::MIN, -UNIT), (0, 0));
}

#[test]
fn movement_is_damped_and_pushed() {
    // v * (1 - 0.5) + f * 0.1
    assert_eq!(get_next_movement(2 * UNIT, 10 * UNIT), 2 * UNIT);
    assert_eq!(get_next_movement(2 * UNIT, 0), UNIT);
    assert_eq!(get_next_movement(0, -30 * UNIT), -3 * UNIT);
    assert_eq!(get_next_movement(-UNIT, 5 * UNIT), 0);
    assert_eq!(get_next_movement(1, 0), 0);
    assert_eq!(get_next_movement(-1, 0), 0);
    assert_eq!(get_next_movement(3, 19), 2);
    assert_eq!(get_next_movement(-3, -19), -2);
    assert_eq!(get_next_movement(i64::MAX, i64::MAX), i64::MAX / 2 + i64::MAX / 10);
    assert_eq!(get_next_movement(i64::MIN, i64::MIN), i64::MIN / 2 + i64::MIN / 10);
}
