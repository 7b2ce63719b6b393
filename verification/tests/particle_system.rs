use particle_life::fixed::UNIT;
use particle_life::force::MAX_R;
use particle_life::particle::Particle;
use particle_life::particle_system::{
    Bounds, CellSizeWarning, ConfigError, ParticleSystem, StateError, Violation, ViolationPolicy, INITIAL_SPEED,
};
use particle_life::world::{COORD_LIMIT, MAX_COLORS, MAX_PARTICLES, MAX_PARTITIONS, MOVEMENT_LIMIT, SPEED_CEILING};

fn square(half: i64) -> Bounds {
    Bounds { x_min: -half, x_max: half, y_min: -half, y_max: half }
}

fn world(particles: usize, colors: usize) -> ParticleSystem {
    ParticleSystem::new(square(500 * UNIT), 32, particles, colors).unwrap()
}

fn place(system: &mut ParticleSystem, i: usize, x: i64, y: i64, x_mov: i64, y_mov: i64, color: usize) {
    system.set_particle(i, Particle::new((x, y), (x_mov, y_mov)), color).unwrap();
}

fn snapshot(system: &ParticleSystem) -> (Vec<i64>, Vec<i64>, Vec<i64>, Vec<i64>, Vec<usize>) {
    (
        system.x_pos().clone(),
        system.y_pos().clone(),
        system.x_mov().clone(),
        system.y_mov().clone(),
        system.color().clone(),
    )
}

fn assert_grid_consistent(system: &ParticleSystem) {
    let cells = system.partition_count();
    let mut seen = vec![0usize; system.particle_count()];
    for a in 0..cells {
        for b in 0..cells {
            for &i in system.cell_members(a, b).unwrap() {
                seen[i] += 1;
                assert_eq!(system.get_partition(system.x_pos()[i], system.y_pos()[i]), (a, b));
            }
        }
    }
    assert!(seen.iter().all(|&n| n == 1));
}

fn assert_inside(system: &ParticleSystem) {
    let bounds = system.bounds();
    for i in 0..system.particle_count() {
        assert!(bounds.x_min <= system.x_pos()[i] && system.x_pos()[i] < bounds.x_max);
        assert!(bounds.y_min <= system.y_pos()[i] && system.y_pos()[i] < bounds.y_max);
    }
}

fn shortest(from: i64, to: i64, length: i64) -> i64 {
    let lower = -(length / 2);
    lower + (to - from - lower).rem_euclid(length)
}

#[test]
fn new_rejects_empty_bounds() {
    let bounds = Bounds { x_min: 5, x_max: 5, y_min: 0, y_max: 10 };
    assert_eq!(ParticleSystem::new(bounds, 4, 10, 2).err(), Some(ConfigError::EmptyBounds));
    let bounds = Bounds { x_min: 0, x_max: 10, y_min: 3, y_max: -3 };
    assert_eq!(ParticleSystem::new(bounds, 4, 10, 2).err(), Some(ConfigError::EmptyBounds));
    assert_eq!(ParticleSystem::check_config(bounds, 0, 10, 0), Some(ConfigError::EmptyBounds));
}

#[test]
fn new_rejects_huge_bounds() {
    let bounds = Bounds { x_min: -COORD_LIMIT - 1, x_max: 0, y_min: 0, y_max: 10 };
    assert_eq!(ParticleSystem::new(bounds, 4, 10, 2).err(), Some(ConfigError::BoundsTooLarge));
    let bounds = Bounds { x_min: 0, x_max: 10, y_min: 0, y_max: COORD_LIMIT + 1 };
    assert_eq!(ParticleSystem::new(bounds, 0, 10, 2).err(), Some(ConfigError::BoundsTooLarge));
    let bounds = Bounds { x_min: -COORD_LIMIT, x_max: COORD_LIMIT, y_min: -COORD_LIMIT, y_max: COORD_LIMIT };
    assert_eq!(ParticleSystem::check_config(bounds, 4, 10, 2), None);
}

#[test]
fn new_rejects_bad_partition_counts() {
    let bounds = square(500 * UNIT);
    assert_eq!(ParticleSystem::new(bounds, 0, 10, 2).err(), Some(ConfigError::NoPartitions));
    assert_eq!(
        ParticleSystem::new(bounds, MAX_PARTITIONS + 1, 10, 2).err(),
        Some(ConfigError::TooManyPartitions)
    );
    assert_eq!(ParticleSystem::check_config(bounds, MAX_PARTITIONS, 10, 2), None);
}

#[test]
fn new_rejects_too_many_particles() {
    let bounds = square(500 * UNIT);
    assert_eq!(
        ParticleSystem::new(bounds, 4, MAX_PARTICLES + 1, 2).err(),
        Some(ConfigError::TooManyParticles)
    );
    assert_eq!(ParticleSystem::check_config(bounds, 4, MAX_PARTICLES, 2), None);
    assert_eq!(ParticleSystem::check_config(bounds, 4, MAX_PARTICLES + 1, 0), Some(ConfigError::TooManyParticles));
}

#[test]
fn new_rejects_bad_color_counts() {
    let bounds = square(500 * UNIT);
    assert_eq!(ParticleSystem::new(bounds, 4, 10, 0).err(), Some(ConfigError::NoColors));
    assert_eq!(ParticleSystem::new(bounds, 4, 10, MAX_COLORS + 1).err(), Some(ConfigError::TooManyColors));
    assert_eq!(ParticleSystem::check_config(bounds, 4, 10, MAX_COLORS), None);
}

#[test]
fn new_system_rests_at_the_origin() {
    let system = world(10, 3);
    assert_eq!(system.particle_count(), 10);
    assert_eq!(system.color_count(), 3);
    assert_eq!(system.partition_count(), 32);
    assert_eq!(system.bounds(), square(500 * UNIT));
    assert_eq!(system.violation_policy(), ViolationPolicy::Continue);
    assert_eq!(system.x_pos(), &vec![0i64; 10]);
    assert_eq!(system.y_pos(), &vec![0i64; 10]);
    assert_eq!(system.x_mov(), &vec![0i64; 10]);
    assert_eq!(system.y_mov(), &vec![0i64; 10]);
    assert_eq!(system.color(), &vec![0usize; 10]);
    assert_eq!(system.attraction(), &vec![vec![0i64; 3]; 3]);
    assert_eq!(system.cell_members(16, 16).unwrap(), &(0..10).collect::<Vec<usize>>());
    assert_grid_consistent(&system);
}

#[test]
fn new_system_wraps_the_origin_into_the_bounds() {
    let bounds = Bounds { x_min: 10 * UNIT, x_max: 13 * UNIT, y_min: -7 * UNIT, y_max: -2 * UNIT };
    let system = ParticleSystem::new(bounds, 2, 3, 1).unwrap();
    assert_eq!(system.x_pos(), &vec![12 * UNIT; 3]);
    assert_eq!(system.y_pos(), &vec![-5 * UNIT; 3]);
    assert_eq!(system.particle(2), Some(Particle::new((12 * UNIT, -5 * UNIT), (0, 0))));
    assert_eq!(system.particle(3), None);
    assert_grid_consistent(&system);
}

#[test]
fn system_without_particles_ticks() {
    let mut system = world(0, 1);
    assert_eq!(system.update(), Ok(()));
    assert_eq!(system.particle_count(), 0);
    assert_eq!(system.get_neighbor_particles(3, 4), Vec::<usize>::new());
}

#[test]
fn cell_size_warning_compares_cells_with_max_r() {
    assert_eq!(world(1, 1).cell_size_warning(), None);
    let system = ParticleSystem::new(square(500 * UNIT), 33, 1, 1).unwrap();
    assert_eq!(system.cell_size_warning(), None);
    let system = ParticleSystem::new(square(500 * UNIT), 34, 1, 1).unwrap();
    assert_eq!(
        system.cell_size_warning(),
        Some(CellSizeWarning { max_r: MAX_R, part_w: 29_411_764, part_h: 29_411_764 })
    );
    let system = ParticleSystem::new(square(480 * UNIT), 32, 1, 1).unwrap();
    assert_eq!(system.cell_size_warning(), None);
    let bounds = Bounds { x_min: 0, x_max: 960 * UNIT, y_min: 0, y_max: 960 * UNIT - 1 };
    let system = ParticleSystem::new(bounds, 32, 1, 1).unwrap();
    assert_eq!(
        system.cell_size_warning(),
        Some(CellSizeWarning { max_r: MAX_R, part_w: 30 * UNIT, part_h: 29_999_999 })
    );
}

#[test]
fn partition_of_a_point() {
    let system = world(0, 1);
    assert_eq!(system.get_partition(-500 * UNIT, -500 * UNIT), (0, 0));
    assert_eq!(system.get_partition(500 * UNIT - 1, 500 * UNIT - 1), (31, 31));
    assert_eq!(system.get_partition(0, 0), (16, 16));
    assert_eq!(system.get_partition(-468_750_000, 0), (1, 16));
    assert_eq!(system.get_partition(-468_750_001, 0), (0, 16));
    assert_eq!(system.get_partition(20 * UNIT, -20 * UNIT), (16, 15));
}

#[test]
fn partition_of_a_point_outside_wraps() {
    let system = world(0, 1);
    assert_eq!(system.get_partition(500 * UNIT, 500 * UNIT), (0, 0));
    assert_eq!(system.get_partition(-500 * UNIT - 1, 0), (31, 16));
    assert_eq!(system.get_partition(1_000 * UNIT, -2_000 * UNIT), (16, 16));
    assert_eq!(system.get_partition(i64::MAX, i64::MIN), (11, 20));
    assert_eq!(system.get_partition(-145_224_193, 145_224_192), (11, 20));
}

#[test]
fn partition_is_exact_for_odd_grids() {
    let bounds = Bounds { x_min: 0, x_max: 10, y_min: 0, y_max: 10 };
    let system = ParticleSystem::new(bounds, 3, 0, 1).unwrap();
    let columns: Vec<usize> = (0..10).map(|x| system.get_partition(x, 0).0).collect();
    assert_eq!(columns, vec![0, 0, 0, 0, 1, 1, 1, 2, 2, 2]);
}

#[test]
fn set_particle_moves_it_between_cells() {
    let mut system = world(3, 2);
    assert_eq!(
        system.set_particle(1, Particle::new((-490 * UNIT, 490 * UNIT), (UNIT, -2 * UNIT)), 1),
        Ok(())
    );
    assert_eq!(system.particle(1), Some(Particle::new((-490 * UNIT, 490 * UNIT), (UNIT, -2 * UNIT))));
    assert_eq!(system.color(), &vec![0, 1, 0]);
    assert_eq!(system.cell_members(16, 16).unwrap(), &vec![0, 2]);
    assert_eq!(system.cell_members(0, 31).unwrap(), &vec![1]);
    assert_eq!(system.particle(0), Some(Particle::new((0, 0), (0, 0))));
    assert_grid_consistent(&system);
}

#[test]
fn set_particle_rejects_what_does_not_fit() {
    let mut system = world(3, 2);
    let before = snapshot(&system);
    let inside = Particle::new((0, 0), (0, 0));
    assert_eq!(system.set_particle(3, inside, 0), Err(StateError::NoSuchParticle));
    assert_eq!(
        system.set_particle(0, Particle::new((500 * UNIT, 0), (0, 0)), 0),
        Err(StateError::OutOfBounds)
    );
    assert_eq!(
        system.set_particle(0, Particle::new((0, -500 * UNIT - 1), (0, 0)), 0),
        Err(StateError::OutOfBounds)
    );
    assert_eq!(
        system.set_particle(0, Particle::new((0, 0), (MOVEMENT_LIMIT + 1, 0)), 0),
        Err(StateError::MovementTooLarge)
    );
    assert_eq!(
        system.set_particle(0, Particle::new((0, 0), (0, -MOVEMENT_LIMIT - 1)), 0),
        Err(StateError::MovementTooLarge)
    );
    assert_eq!(system.set_particle(0, inside, 2), Err(StateError::NoSuchColor));
    assert_eq!(
        system.set_particle(7, Particle::new((i64::MAX, 0), (i64::MAX, 0)), 9),
        Err(StateError::NoSuchParticle)
    );
    assert_eq!(
        system.set_particle(0, Particle::new((i64::MAX, 0), (i64::MAX, 0)), 9),
        Err(StateError::OutOfBounds)
    );
    assert_eq!(snapshot(&system), before);
    assert_eq!(system.set_particle(0, Particle::new((0, 0), (MOVEMENT_LIMIT, -MOVEMENT_LIMIT)), 1), Ok(()));
}

#[test]
fn set_attraction_checks_classes_and_range() {
    let mut system = world(1, 2);
    assert_eq!(system.set_attraction(0, 1, UNIT), Ok(()));
    assert_eq!(system.set_attraction(1, 0, -UNIT), Ok(()));
    assert_eq!(system.set_attraction(1, 1, 250_000), Ok(()));
    assert_eq!(system.attraction(), &vec![vec![0, UNIT], vec![-UNIT, 250_000]]);
    assert_eq!(system.set_attraction(2, 0, 0), Err(StateError::NoSuchColor));
    assert_eq!(system.set_attraction(0, 2, 0), Err(StateError::NoSuchColor));
    assert_eq!(system.set_attraction(0, 2, 2 * UNIT), Err(StateError::NoSuchColor));
    assert_eq!(system.set_attraction(0, 0, UNIT + 1), Err(StateError::CoefficientOutOfRange));
    assert_eq!(system.set_attraction(0, 0, -UNIT - 1), Err(StateError::CoefficientOutOfRange));
    assert_eq!(system.attraction(), &vec![vec![0, UNIT], vec![-UNIT, 250_000]]);
}

#[test]
fn attraction_is_not_symmetric() {
    // At distance 20 the force equals the coefficient: one particle is drawn
    // by 1 * 0.1, the other pushed away by 0.5 * 0.1.
    let mut system = world(2, 2);
    place(&mut system, 0, 0, 0, 0, 0, 0);
    place(&mut system, 1, 20 * UNIT, 0, 0, 0, 1);
    system.set_attraction(0, 1, UNIT).unwrap();
    system.set_attraction(1, 0, -UNIT / 2).unwrap();
    assert_eq!(system.update(), Ok(()));
    assert_eq!(system.x_mov(), &vec![100_000, 50_000]);
    assert_eq!(system.y_mov(), &vec![0, 0]);
    assert_eq!(system.x_pos(), &vec![100_000, 20_050_000]);
    assert_eq!(system.y_pos(), &vec![0, 0]);
    assert_eq!(system.attraction(), &vec![vec![0, UNIT], vec![-UNIT / 2, 0]]);
}

#[test]
fn forces_reach_across_the_edge() {
    let mut system = world(2, 1);
    place(&mut system, 0, 485 * UNIT, 0, 0, 0, 0);
    place(&mut system, 1, -495 * UNIT, 0, 0, 0, 0);
    system.set_attraction(0, 0, UNIT).unwrap();
    assert_eq!(system.update(), Ok(()));
    assert_eq!(system.x_mov(), &vec![100_000, -100_000]);
    assert_eq!(system.x_pos(), &vec![485_100_000, -495_100_000]);
    assert_grid_consistent(&system);
}

#[test]
fn particles_leave_through_one_edge_and_enter_through_the_other() {
    let mut system = world(2, 1);
    place(&mut system, 0, 499 * UNIT, -499 * UNIT, 4 * UNIT, -4 * UNIT, 0);
    place(&mut system, 1, 498 * UNIT, 0, 4 * UNIT, 0, 0);
    system.update().unwrap();
    assert_eq!(system.particle(0), Some(Particle::new((-499 * UNIT, 499 * UNIT), (2 * UNIT, -2 * UNIT))));
    assert_eq!(system.particle(1), Some(Particle::new((-500 * UNIT, 0), (2 * UNIT, 0))));
    assert_eq!(system.cell_members(0, 31).unwrap(), &vec![0]);
    assert_eq!(system.cell_members(0, 16).unwrap(), &vec![1]);
    assert_grid_consistent(&system);
}

#[test]
fn close_particles_repel_whatever_their_classes() {
    // distance 5: force -(5 - 10)^2 = -25, impulse 2.5 away from the other
    for attr in [-UNIT, 0, UNIT] {
        let mut system = world(2, 1);
        place(&mut system, 0, 0, 0, 0, 0, 0);
        place(&mut system, 1, 3 * UNIT, 4 * UNIT, 0, 0, 0);
        system.set_attraction(0, 0, attr).unwrap();
        assert_eq!(system.update(), Ok(()));
        assert_eq!(system.x_mov(), &vec![-1_500_000, 1_500_000]);
        assert_eq!(system.y_mov(), &vec![-2_000_000, 2_000_000]);
        assert_eq!(system.x_pos(), &vec![-1_500_000, 4_500_000]);
        assert_eq!(system.y_pos(), &vec![-2_000_000, 6_000_000]);
    }
}

#[test]
fn coincident_particles_exert_no_force() {
    let mut system = world(3, 1);
    system.set_attraction(0, 0, UNIT).unwrap();
    place(&mut system, 0, 7 * UNIT, 7 * UNIT, 0, 0, 0);
    place(&mut system, 1, 7 * UNIT, 7 * UNIT, 0, 0, 0);
    place(&mut system, 2, 7 * UNIT, 7 * UNIT, 2 * UNIT, 0, 0);
    assert_eq!(system.update(), Ok(()));
    assert_eq!(system.x_pos(), &vec![7 * UNIT, 7 * UNIT, 8 * UNIT]);
    assert_eq!(system.y_pos(), &vec![7 * UNIT; 3]);
    assert_eq!(system.x_mov(), &vec![0, 0, UNIT]);
}

#[test]
fn every_particle_sees_the_positions_before_the_tick() {
    // Three particles in a row, 20 apart, attraction 1: the middle one is
    // drawn both ways and stays, the outer ones are drawn to where the middle
    // one was before the tick.
    let mut system = world(3, 1);
    system.set_attraction(0, 0, UNIT).unwrap();
    place(&mut system, 0, -20 * UNIT, 0, 0, 0, 0);
    place(&mut system, 1, 0, 0, 0, 0, 0);
    place(&mut system, 2, 20 * UNIT, 0, 0, 0, 0);
    assert_eq!(system.update(), Ok(()));
    assert_eq!(system.x_mov(), &vec![100_000, 0, -100_000]);
    assert_eq!(system.x_pos(), &vec![-19_900_000, 0, 19_900_000]);
    // second tick: distances 19.9, kernel weight 1 - |39.8 - 40| / 20 = 0.99
    assert_eq!(system.update(), Ok(()));
    assert_eq!(system.x_mov(), &vec![50_000 + 99_000, 0, -50_000 - 99_000]);
    assert_eq!(system.x_pos(), &vec![-19_751_000, 0, 19_751_000]);
}

#[test]
fn particles_beyond_max_r_do_not_interact() {
    let mut system = world(2, 1);
    system.set_attraction(0, 0, UNIT).unwrap();
    place(&mut system, 0, 0, 0, 0, 0, 0);
    place(&mut system, 1, 30 * UNIT, 0, 0, 0, 0);
    assert_eq!(system.update(), Ok(()));
    assert_eq!(system.x_pos(), &vec![0, 30 * UNIT]);
    assert_eq!(system.x_mov(), &vec![0, 0]);
    place(&mut system, 1, 30 * UNIT - 1, 0, 0, 0, 0);
    assert_eq!(system.update(), Ok(()));
    // kernel weight 1e-7, force 1e-7, impulse below the resolution
    assert_eq!(system.x_mov(), &vec![0, 0]);
    place(&mut system, 1, 29 * UNIT, 0, 0, 0, 0);
    assert_eq!(system.update(), Ok(()));
    assert_eq!(system.x_mov(), &vec![10_000, -10_000]);
}

fn crowd(policy: ViolationPolicy) -> ParticleSystem {
    // Thirteen particles sit one unit from particle 0 and push it with
    // 13 * 81 = 1053, an impulse of 105.3 per tick.
    let mut system = world(14, 1);
    system.set_policy(policy);
    place(&mut system, 0, 0, 0, 0, 0, 0);
    for i in 1..14 {
        place(&mut system, i, UNIT, 0, 0, 0, 0);
    }
    system
}

#[test]
fn violations_are_reported_and_the_tick_carried_out() {
    let mut system = crowd(ViolationPolicy::Continue);
    assert_eq!(
        system.update(),
        Err(vec![Violation { index: 0, x_mov: -105_300_000, y_mov: 0 }])
    );
    assert_eq!(system.x_mov()[0], -105_300_000);
    assert_eq!(system.x_pos()[0], -105_300_000);
    assert_eq!(system.x_mov()[1], 8_100_000);
    assert_eq!(system.x_pos()[13], 9_100_000);
    assert_eq!(system.violation_policy(), ViolationPolicy::Continue);
    assert_grid_consistent(&system);
    // the next tick: friction halves the movement, nothing is in reach
    assert_eq!(system.update(), Ok(()));
    assert_eq!(system.x_mov()[0], -52_650_000);
}

#[test]
fn violations_abort_the_tick_under_the_abort_policy() {
    let mut system = crowd(ViolationPolicy::Abort);
    let before = snapshot(&system);
    assert_eq!(
        system.update(),
        Err(vec![Violation { index: 0, x_mov: -105_300_000, y_mov: 0 }])
    );
    assert_eq!(snapshot(&system), before);
    assert_eq!(system.violation_policy(), ViolationPolicy::Abort);
    assert_grid_consistent(&system);
}

#[test]
fn abort_policy_lets_clean_ticks_pass() {
    let mut system = world(2, 1);
    system.set_policy(ViolationPolicy::Abort);
    place(&mut system, 0, 0, 0, 2 * UNIT, 0, 0);
    place(&mut system, 1, 100 * UNIT, 0, 0, 0, 0);
    assert_eq!(system.update(), Ok(()));
    assert_eq!(system.x_pos(), &vec![UNIT, 100 * UNIT]);
}

#[test]
fn speed_ceiling_is_a_length() {
    // 60 and 80 along the axes make a movement of length 100: not above the
    // ceiling. One step more is.
    let mut system = world(3, 1);
    place(&mut system, 0, 0, 0, 120 * UNIT, 160 * UNIT, 0);
    place(&mut system, 1, 200 * UNIT, 0, 120 * UNIT + 2, 160 * UNIT, 0);
    place(&mut system, 2, 0, 200 * UNIT, -199 * UNIT, 0, 0);
    assert_eq!(SPEED_CEILING, 100 * UNIT);
    assert_eq!(
        system.update(),
        Err(vec![Violation { index: 1, x_mov: 60 * UNIT + 1, y_mov: 80 * UNIT }])
    );
    assert_eq!(system.x_mov(), &vec![60 * UNIT, 60 * UNIT + 1, -99_500_000]);
}

#[test]
fn several_violations_come_in_index_order() {
    let mut system = world(4, 1);
    place(&mut system, 0, 0, 0, 0, -300 * UNIT, 0);
    place(&mut system, 1, 100 * UNIT, 0, 0, 0, 0);
    place(&mut system, 2, 200 * UNIT, 0, 201 * UNIT, 0, 0);
    place(&mut system, 3, 300 * UNIT, 0, 200 * UNIT, 0, 0);
    assert_eq!(
        system.update(),
        Err(vec![
            Violation { index: 0, x_mov: 0, y_mov: -150 * UNIT },
            Violation { index: 2, x_mov: 100_500_000, y_mov: 0 },
        ])
    );
}

#[test]
fn neighbors_of_a_cell_are_its_block() {
    let mut system = world(6, 1);
    place(&mut system, 0, 0, 0, 0, 0, 0);
    place(&mut system, 1, 40 * UNIT, 0, 0, 0, 0);
    place(&mut system, 2, -30 * UNIT, -30 * UNIT, 0, 0, 0);
    place(&mut system, 3, 70 * UNIT, 0, 0, 0, 0);
    place(&mut system, 4, 0, -70 * UNIT, 0, 0, 0);
    place(&mut system, 5, 499 * UNIT, 499 * UNIT, 0, 0, 0);
    let mut found = system.get_neighbor_particles(16, 16);
    found.sort();
    assert_eq!(found, vec![0, 1, 2]);
    let mut found = system.get_neighbor_particles(17, 16);
    found.sort();
    assert_eq!(found, vec![0, 1, 3]);
    let mut found = system.get_neighbor_particles(0, 0);
    found.sort();
    assert_eq!(found, vec![5]);
    assert_eq!(system.get_neighbor_particles(5, 5), Vec::<usize>::new());
}

#[test]
fn neighbors_are_counted_modulo_the_grid() {
    let mut system = world(2, 1);
    place(&mut system, 0, -499 * UNIT, 0, 0, 0, 0);
    place(&mut system, 1, 499 * UNIT, 0, 0, 0, 0);
    let mut found = system.get_neighbor_particles(32, 48);
    found.sort();
    assert_eq!(found, vec![0, 1]);
    let mut found = system.get_neighbor_particles(31 + 64, 16 + 32);
    found.sort();
    assert_eq!(found, vec![0, 1]);
    assert_eq!(system.get_neighbor_particles(usize::MAX, usize::MAX), system.get_neighbor_particles(usize::MAX % 32, usize::MAX % 32));
}

#[test]
fn small_grids_list_every_particle_once() {
    for cells in [1usize, 2, 3] {
        let mut system = ParticleSystem::new(square(50 * UNIT), cells, 5, 1).unwrap();
        place(&mut system, 0, -49 * UNIT, -49 * UNIT, 0, 0, 0);
        place(&mut system, 1, 49 * UNIT, 49 * UNIT, 0, 0, 0);
        place(&mut system, 2, 0, 0, 0, 0, 0);
        place(&mut system, 3, -20 * UNIT, 30 * UNIT, 0, 0, 0);
        place(&mut system, 4, 30 * UNIT, -20 * UNIT, 0, 0, 0);
        for cx in 0..cells {
            for cy in 0..cells {
                let mut found = system.get_neighbor_particles(cx, cy);
                found.sort();
                assert_eq!(found, vec![0, 1, 2, 3, 4]);
            }
        }
        assert_grid_consistent(&system);
    }
}

#[test]
fn small_grid_counts_each_pull_once() {
    // One cell: the block around it is the cell itself, nine times over.
    let mut system = ParticleSystem::new(square(50 * UNIT), 1, 2, 1).unwrap();
    system.set_attraction(0, 0, UNIT).unwrap();
    place(&mut system, 0, 0, 0, 0, 0, 0);
    place(&mut system, 1, 20 * UNIT, 0, 0, 0, 0);
    assert_eq!(system.update(), Ok(()));
    assert_eq!(system.x_mov(), &vec![100_000, -100_000]);
}

#[test]
fn grid_stays_consistent_over_many_ticks() {
    let mut system = world(300, 4);
    system.initialize_random(7);
    assert_grid_consistent(&system);
    for _ in 0..200 {
        let _ = system.update();
        assert_grid_consistent(&system);
        assert_inside(&system);
    }
}

#[test]
fn grid_stays_consistent_on_a_crowded_small_world() {
    let mut system = ParticleSystem::new(square(60 * UNIT), 4, 120, 3).unwrap();
    system.initialize_random(11);
    for _ in 0..100 {
        let _ = system.update();
        assert_grid_consistent(&system);
        assert_inside(&system);
    }
}

#[test]
fn neighbor_query_misses_nobody_in_reach() {
    let mut system = ParticleSystem::new(square(100 * UNIT), 6, 50, 2).unwrap();
    assert_eq!(system.cell_size_warning(), None);
    system.initialize_random(2024);
    let length = 200 * UNIT;
    let probes = [0i64, 1, 33_333_333, 50 * UNIT, 99 * UNIT, 100 * UNIT - 1, -100 * UNIT, -66_666_667, -1];
    let mut in_reach = 0;
    for &x in probes.iter() {
        for &y in probes.iter() {
            let (cx, cy) = system.get_partition(x, y);
            let found = system.get_neighbor_particles(cx, cy);
            for j in 0..50 {
                let dx = shortest(x, system.x_pos()[j], length) as i128;
                let dy = shortest(y, system.y_pos()[j], length) as i128;
                if dx * dx + dy * dy <= (MAX_R as i128) * (MAX_R as i128) {
                    in_reach += 1;
                    assert!(found.contains(&j));
                }
            }
        }
    }
    assert!(in_reach > 0);
    for i in 0..50 {
        let (cx, cy) = system.get_partition(system.x_pos()[i], system.y_pos()[i]);
        let found = system.get_neighbor_particles(cx, cy);
        assert!(found.contains(&i));
        for j in 0..50 {
            let dx = shortest(system.x_pos()[i], system.x_pos()[j], length) as i128;
            let dy = shortest(system.y_pos()[i], system.y_pos()[j], length) as i128;
            if dx * dx + dy * dy <= (MAX_R as i128) * (MAX_R as i128) {
                assert!(found.contains(&j));
            }
        }
    }
}

#[test]
fn friction_alone_brings_particles_to_rest() {
    // 100 particles on a lattice, 100 apart: no two ever come within reach,
    // so only friction acts.
    let mut system = world(100, 2);
    for i in 0..100usize {
        let x = -450 * UNIT + (i % 10) as i64 * 100 * UNIT;
        let y = -450 * UNIT + (i / 10) as i64 * 100 * UNIT;
        let x_mov = (i as i64 % 7 - 3) * 1_500_000;
        let y_mov = (i as i64 % 5 - 2) * 2_400_000;
        place(&mut system, i, x, y, x_mov, y_mov, i % 2);
    }
    let mut last = snapshot(&system);
    for tick in 0..1000 {
        assert_eq!(system.update(), Ok(()));
        assert_inside(&system);
        let now = snapshot(&system);
        for i in 0..100 {
            assert_eq!(now.2[i], last.2[i] / 2);
            assert_eq!(now.3[i], last.3[i] / 2);
            assert!(now.2[i].abs() <= last.2[i].abs());
            if tick >= 30 {
                assert_eq!((now.2[i], now.3[i]), (0, 0));
                assert_eq!((now.0[i], now.1[i]), (last.0[i], last.1[i]));
            }
        }
        last = now;
    }
    assert_grid_consistent(&system);
}

#[test]
fn zero_attraction_keeps_scattered_particles_inside() {
    let mut system = world(100, 2);
    system.initialize_random(5);
    for a in 0..2 {
        for b in 0..2 {
            system.set_attraction(a, b, 0).unwrap();
        }
    }
    for _ in 0..1000 {
        let _ = system.update();
        assert_inside(&system);
    }
    assert_grid_consistent(&system);
    for i in 0..100 {
        assert!(system.x_mov()[i].abs() <= INITIAL_SPEED);
        assert!(system.y_mov()[i].abs() <= INITIAL_SPEED);
    }
}

fn fixed_start() -> ParticleSystem {
    let mut system = ParticleSystem::new(square(150 * UNIT), 10, 40, 3).unwrap();
    for i in 0..40usize {
        let k = i as i64;
        let x = (k * 37_000_001) % (300 * UNIT) - 150 * UNIT;
        let y = (k * k * 5_300_003) % (300 * UNIT) - 150 * UNIT;
        place(&mut system, i, x, y, (k % 9 - 4) * 700_000, (k % 4 - 2) * 900_000, i % 3);
    }
    for a in 0..3usize {
        for b in 0..3usize {
            let value = ((a * 3 + b) as i64 * 271_828) % (2 * UNIT) - UNIT;
            system.set_attraction(a, b, value).unwrap();
        }
    }
    system
}

#[test]
fn two_runs_from_the_same_start_agree() {
    let mut first = fixed_start();
    let mut second = fixed_start();
    for _ in 0..100 {
        assert_eq!(first.update(), second.update());
        assert_eq!(snapshot(&first), snapshot(&second));
    }
}

#[test]
fn trajectory_does_not_depend_on_the_order_within_cells() {
    let mut first = fixed_start();
    // The same particles, filed in another order: each is moved away and
    // back, from the last to the first.
    let mut second = fixed_start();
    for i in (0..40usize).rev() {
        let particle = second.particle(i).unwrap();
        let color = second.color()[i];
        place(&mut second, i, 0, 0, 0, 0, 0);
        second.set_particle(i, particle, color).unwrap();
    }
    assert_eq!(snapshot(&first), snapshot(&second));
    let mut differs = false;
    for a in 0..10 {
        for b in 0..10 {
            differs = differs || first.cell_members(a, b) != second.cell_members(a, b);
        }
    }
    assert!(differs);
    for _ in 0..100 {
        assert_eq!(first.update(), second.update());
        assert_eq!(snapshot(&first), snapshot(&second));
    }
}

#[test]
fn grid_search_agrees_with_examining_all_pairs() {
    // One cell holds everything, so every pair is examined; with a fine grid
    // whose cells are still longer than MAX_R the result is the same.
    let mut coarse = ParticleSystem::new(square(150 * UNIT), 1, 40, 3).unwrap();
    let mut fine = fixed_start();
    assert_eq!(fine.cell_size_warning(), None);
    for i in 0..40 {
        coarse.set_particle(i, fine.particle(i).unwrap(), fine.color()[i]).unwrap();
    }
    for a in 0..3 {
        for b in 0..3 {
            coarse.set_attraction(a, b, fine.attraction()[a][b]).unwrap();
        }
    }
    for _ in 0..50 {
        assert_eq!(coarse.update(), fine.update());
        assert_eq!(snapshot(&coarse), snapshot(&fine));
    }
}

#[test]
fn random_start_fills_the_ranges() {
    let mut system = world(500, 8);
    system.set_policy(ViolationPolicy::Abort);
    system.initialize_random(1);
    assert_eq!(system.particle_count(), 500);
    assert_eq!(system.color_count(), 8);
    assert_eq!(system.bounds(), square(500 * UNIT));
    assert_eq!(system.violation_policy(), ViolationPolicy::Abort);
    assert_inside(&system);
    assert_grid_consistent(&system);
    for i in 0..500 {
        assert!(-INITIAL_SPEED <= system.x_mov()[i] && system.x_mov()[i] < INITIAL_SPEED);
        assert!(-INITIAL_SPEED <= system.y_mov()[i] && system.y_mov()[i] < INITIAL_SPEED);
        assert!(system.color()[i] < 8);
    }
    for row in system.attraction() {
        for &value in row {
            assert!(-UNIT <= value && value < UNIT);
        }
    }
    // The draws are spread out: not one value over and over.
    let first = (system.x_pos()[0], system.y_pos()[0], system.x_mov()[0], system.y_mov()[0]);
    assert!((1..500).any(|i| system.x_pos()[i] != first.0));
    assert!((1..500).any(|i| system.y_pos()[i] != first.1));
    assert!((1..500).any(|i| system.x_mov()[i] != first.2));
    assert!((1..500).any(|i| system.y_mov()[i] != first.3));
    assert!((1..500).any(|i| system.color()[i] != system.color()[0]));
    assert!(system.x_pos().iter().any(|&x| x > 0) && system.x_pos().iter().any(|&x| x < 0));
    assert!(system.attraction().iter().flatten().any(|&v| v > 0));
    assert!(system.attraction().iter().flatten().any(|&v| v < 0));
}

#[test]
fn same_seed_gives_the_same_start() {
    let mut first = world(200, 5);
    let mut second = world(200, 5);
    first.initialize_random(42);
    second.initialize_random(42);
    assert_eq!(snapshot(&first), snapshot(&second));
    assert_eq!(first.attraction(), second.attraction());
    let mut third = world(200, 5);
    third.initialize_random(43);
    assert!(snapshot(&first) != snapshot(&third));
}
