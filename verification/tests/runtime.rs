use particle_life::runtime::{is_fresh, retain_marked, total_of, Runtime, WINDOW_SEC};
use std::time::{Duration, Instant};

fn wait(millis: u64) {
    let begun = Instant::now();
    while begun.elapsed() < Duration::from_millis(millis) {
        std::hint::spin_loop();
    }
}

#[test]
fn window_is_one_second() {
    assert_eq!(WINDOW_SEC, 1);
}

#[test]
fn new_runtime_has_no_timers() {
    let runtime = Runtime::new();
    assert_eq!(runtime.current_timer(), &None);
    let analysis = runtime.get_analysis();
    assert!(analysis.names.is_empty());
    assert!(analysis.counts.is_empty());
    assert!(analysis.totals.is_empty());
}

#[test]
fn start_and_stop_set_the_running_timer() {
    let mut runtime = Runtime::new();
    runtime.start("update");
    assert_eq!(runtime.current_timer(), &Some("update".to_string()));
    runtime.stop();
    assert_eq!(runtime.current_timer(), &None);
    runtime.start("draw");
    assert_eq!(runtime.current_timer(), &Some("draw".to_string()));
    runtime.stop();
    assert_eq!(runtime.current_timer(), &None);
}

#[test]
fn runs_are_counted_by_name_in_order_of_first_start() {
    let mut runtime = Runtime::new();
    for name in ["update", "draw", "update", "present", "update", "draw"] {
        runtime.start(name);
        runtime.stop();
    }
    let analysis = runtime.get_analysis();
    assert_eq!(analysis.names, vec!["update".to_string(), "draw".to_string(), "present".to_string()]);
    assert_eq!(analysis.counts, vec![3, 2, 1]);
    assert_eq!(analysis.totals.len(), 3);
}

#[test]
fn a_running_timer_is_counted() {
    let mut runtime = Runtime::new();
    runtime.start("update");
    let analysis = runtime.get_analysis();
    assert_eq!(analysis.names, vec!["update".to_string()]);
    assert_eq!(analysis.counts, vec![1]);
    runtime.stop();
}

#[test]
fn totals_add_up_the_time_of_the_runs() {
    let mut runtime = Runtime::new();
    runtime.start("slow");
    wait(30);
    runtime.stop();
    runtime.start("fast");
    runtime.stop();
    runtime.start("slow");
    wait(30);
    runtime.stop();
    let analysis = runtime.get_analysis();
    assert_eq!(analysis.names, vec!["slow".to_string(), "fast".to_string()]);
    assert!(analysis.totals[0] >= 58 && analysis.totals[0] < 5_000);
    assert!(analysis.totals[1] < 1_000);
    // A stopped stopwatch stands still.
    wait(20);
    assert_eq!(runtime.get_analysis().totals, analysis.totals);
}

#[test]
fn cleanup_keeps_the_runs_of_the_last_second() {
    let mut runtime = Runtime::new();
    runtime.start("update");
    runtime.stop();
    runtime.start("draw");
    runtime.stop();
    runtime.cleanup();
    assert_eq!(runtime.get_analysis().counts, vec![1, 1]);
    assert_eq!(runtime.current_timer(), &None);
}

#[test]
fn cleanup_drops_old_runs_but_not_a_running_one() {
    let mut runtime = Runtime::new();
    runtime.start("old");
    runtime.stop();
    runtime.start("old");
    runtime.stop();
    runtime.start("running");
    wait(1_100);
    runtime.cleanup();
    assert_eq!(runtime.current_timer(), &Some("running".to_string()));
    let analysis = runtime.get_analysis();
    assert_eq!(analysis.names, vec!["old".to_string(), "running".to_string()]);
    assert_eq!(analysis.counts, vec![0, 1]);
    assert_eq!(analysis.totals[0], 0);
    assert!(analysis.totals[1] >= 1_100);
    runtime.stop();
    assert_eq!(runtime.current_timer(), &None);
    // Once stopped, the run that began more than a second ago is dropped.
    runtime.start("old");
    runtime.stop();
    runtime.cleanup();
    assert_eq!(runtime.get_analysis().counts, vec![1, 0]);
    wait(1_100);
    runtime.cleanup();
    assert_eq!(runtime.get_analysis().counts, vec![0, 0]);
}

#[test]
fn retain_marked_copies_the_marked_entries() {
    assert_eq!(retain_marked(&vec![10, 20, 30, 40], &vec![true, false, true, false]), vec![10, 30]);
    assert_eq!(retain_marked(&vec![10, 20, 30], &vec![false, false, false]), Vec::<i32>::new());
    assert_eq!(retain_marked(&vec![10, 20, 30], &vec![true, true, true]), vec![10, 20, 30]);
    assert_eq!(retain_marked(&Vec::<u8>::new(), &vec![true]), Vec::<u8>::new());
}

#[test]
fn retain_marked_drops_entries_without_a_mark() {
    assert_eq!(retain_marked(&vec![10, 20, 30], &vec![true]), vec![10]);
    assert_eq!(retain_marked(&vec![10, 20, 30], &vec![]), Vec::<i32>::new());
    assert_eq!(retain_marked(&vec![10, 20], &vec![false, true, true, true]), vec![20]);
}

#[test]
fn total_of_adds_up() {
    assert_eq!(total_of(&vec![]), 0);
    assert_eq!(total_of(&vec![7]), 7);
    assert_eq!(total_of(&vec![1, 2, 3, 4]), 10);
}

#[test]
fn total_of_stops_at_the_largest_number() {
    assert_eq!(total_of(&vec![u128::MAX, 1]), u128::MAX);
    assert_eq!(total_of(&vec![u128::MAX - 1, 1]), u128::MAX);
    assert_eq!(total_of(&vec![u128::MAX / 2 + 1, u128::MAX / 2 + 1, 5]), u128::MAX);
}

#[test]
fn a_running_stopwatch_keeps_its_run() {
    assert!(is_fresh(true, 0));
    assert!(is_fresh(true, 1_000_000_000));
    assert!(is_fresh(true, u128::MAX));
}

#[test]
fn a_stopped_run_is_kept_for_less_than_a_second() {
    assert!(is_fresh(false, 0));
    assert!(is_fresh(false, 999_999_999));
    assert!(!is_fresh(false, 1_000_000_000));
    assert!(!is_fresh(false, 1_000_000_001));
    assert!(!is_fresh(false, u128::MAX));
}

#[test]
fn cleanup_drops_the_old_run_and_keeps_the_new_one() {
    let mut runtime = Runtime::new();
    runtime.start("phase");
    wait(60);
    runtime.stop();
    wait(700);
    runtime.start("phase");
    runtime.stop();
    wait(400);
    assert_eq!(runtime.get_analysis().counts, vec![2]);
    assert!(runtime.get_analysis().totals[0] >= 60);
    runtime.cleanup();
    let analysis = runtime.get_analysis();
    assert_eq!(analysis.names, vec!["phase".to_string()]);
    assert_eq!(analysis.counts, vec![1]);
    // The run that took 60 ms is gone; the one that is left took next to none.
    assert!(analysis.totals[0] < 60);
}
