use covfuzz::minimizer::mark_redundant;
use covfuzz::power::{
    iterations, power_score, speed, FLAKY_DIVISOR, MAX_ITERATIONS, RARITY_UNIT,
};
use covfuzz::scheduler::Scheduler;

fn sample() -> Scheduler {
    let mut scheduler = Scheduler::new(4);
    assert_eq!(scheduler.add(4, 100, &vec![1, 1, 0, 0]), 0);
    assert_eq!(scheduler.add(2, 100, &vec![1, 0, 0, 0]), 1);
    assert_eq!(scheduler.add(8, 100, &vec![0, 0, 1, 0]), 2);
    assert_eq!(scheduler.add(16, 100, &vec![1, 1, 0, 0]), 3);
    scheduler
}

#[test]
fn speed_factor_steps() {
    assert_eq!(speed(100, 100), 100);
    assert_eq!(speed(1001, 100), 10);
    assert_eq!(speed(1000, 100), 25);
    assert_eq!(speed(401, 100), 25);
    assert_eq!(speed(201, 100), 50);
    assert_eq!(speed(134, 100), 75);
    assert_eq!(speed(133, 100), 100);
    assert_eq!(speed(24, 100), 300);
    assert_eq!(speed(33, 100), 200);
    assert_eq!(speed(49, 100), 150);
    assert_eq!(speed(50, 100), 100);
    assert_eq!(speed(0, 0), 100);
}

#[test]
fn power_score_formula() {
    assert_eq!(RARITY_UNIT, 16);
    assert_eq!(FLAKY_DIVISOR, 4);
    assert_eq!(power_score(100, 100, 1, false), 1600);
    assert_eq!(power_score(100, 100, 0, false), 1600);
    assert_eq!(power_score(100, 100, 3, false), 533);
    assert_eq!(power_score(100, 100, 3, true), 133);
    assert_eq!(power_score(24, 100, 1, false), 4800);
    assert_eq!(power_score(2000, 100, 1, false), 160);
    assert_eq!(power_score(2000, 100, 1000, false), 0);
}

#[test]
fn faster_and_rarer_entries_score_at_least_as_high() {
    for micros in [1u64, 10, 50, 99, 100, 150, 500, 5000] {
        for sharers in 1..40usize {
            assert!(power_score(micros, 100, sharers, false) >= power_score(micros + 1, 100, sharers, false));
            assert!(power_score(micros, 100, sharers, false) >= power_score(micros, 100, sharers + 1, false));
            assert!(power_score(micros, 100, sharers, false) >= power_score(micros, 100, sharers, true));
        }
    }
}

#[test]
fn iterations_follow_the_score_within_bounds() {
    assert_eq!(MAX_ITERATIONS, 1024);
    assert_eq!(iterations(0), 1);
    assert_eq!(iterations(1), 1);
    assert_eq!(iterations(533), 533);
    assert_eq!(iterations(1024), 1024);
    assert_eq!(iterations(5000), 1024);
}

#[test]
fn minimizer_marks_entries_subsumed_by_better_ones() {
    let costs = vec![400u128, 200, 800, 1600];
    let edges = vec![vec![0usize, 1], vec![0], vec![2], vec![0, 1]];
    assert_eq!(mark_redundant(&costs, &edges, 4), vec![false, false, false, true]);
}

#[test]
fn minimizer_breaks_ties_by_insertion_order() {
    let costs = vec![5u128, 5, 5];
    let edges = vec![vec![1usize], vec![1], vec![1, 2]];
    assert_eq!(mark_redundant(&costs, &edges, 3), vec![false, true, false]);
}

#[test]
fn minimizer_keeps_the_best_entry_even_without_coverage() {
    let costs = vec![9u128, 1];
    let edges: Vec<Vec<usize>> = vec![vec![], vec![]];
    assert_eq!(mark_redundant(&costs, &edges, 2), vec![true, false]);
    let alone: Vec<Vec<usize>> = vec![vec![]];
    assert_eq!(mark_redundant(&vec![3u128], &alone, 2), vec![false]);
    let none: Vec<Vec<usize>> = vec![];
    assert_eq!(mark_redundant(&vec![], &none, 2), Vec::<bool>::new());
}

#[test]
fn minimization_never_loses_an_edge() {
    let costs = vec![30u128, 10, 20, 10, 50, 5];
    let edges = vec![vec![0usize, 1, 2], vec![1], vec![2, 3], vec![1, 4], vec![0, 1, 2, 3, 4], vec![]];
    let marks = mark_redundant(&costs, &edges, 6);
    let mut all = vec![false; 6];
    let mut kept = vec![false; 6];
    for (i, list) in edges.iter().enumerate() {
        for &e in list {
            all[e] = true;
            if !marks[i] {
                kept[e] = true;
            }
        }
    }
    assert_eq!(all, kept);
    assert!(marks.iter().any(|m| !m));
    assert!(marks[4]);
}

#[test]
fn scheduler_scores_by_time_and_rarity() {
    let mut scheduler = sample();
    assert_eq!(scheduler.count(), 4);
    assert_eq!(scheduler.score_of(0), 800);
    assert_eq!(scheduler.score_of(1), 533);
    assert_eq!(scheduler.score_of(2), 1600);
    assert_eq!(scheduler.score_of(3), 800);
    assert!(!scheduler.redundant_at(0));
    assert!(!scheduler.redundant_at(1));
    assert!(!scheduler.redundant_at(2));
    assert!(scheduler.redundant_at(3));
}

#[test]
fn scheduler_selects_by_weight_among_kept_entries() {
    let mut scheduler = sample();
    assert_eq!(scheduler.select(0), Some(0));
    assert_eq!(scheduler.select(1u64 << 62), Some(0));
    assert_eq!(scheduler.select(3u64 << 61), Some(1));
    assert_eq!(scheduler.select(1u64 << 63), Some(2));
    assert_eq!(scheduler.select(u64::MAX), Some(2));
}

#[test]
fn scheduler_never_selects_a_redundant_entry() {
    let mut scheduler = sample();
    let mut draw = 0u64;
    for _ in 0..2000 {
        draw = draw.wrapping_mul(6364136223846793005).wrapping_add(1442695040888963407);
        assert_ne!(scheduler.select(draw), Some(3));
    }
}

#[test]
fn scheduler_selection_shares_match_the_weights() {
    let mut scheduler = sample();
    let mut hits = [0u32; 4];
    let steps = 2933u64;
    for k in 0..steps {
        let draw = ((k as u128 * (1u128 << 64) + (1u128 << 63)) / steps as u128) as u64;
        hits[scheduler.select(draw).unwrap()] += 1;
    }
    assert_eq!(hits, [800, 533, 1600, 0]);
}

#[test]
fn zero_score_is_never_selected_while_a_positive_score_exists() {
    let mut scheduler = Scheduler::new(2000);
    let mut busy = vec![0u8; 2000];
    busy[0] = 1;
    for _ in 0..1700 {
        scheduler.add(1, 100, &busy);
    }
    let mut rare = vec![0u8; 2000];
    rare[1] = 1;
    let special = scheduler.add(1000, 100, &rare);
    assert_eq!(scheduler.score_of(0), 0);
    assert_eq!(scheduler.score_of(special), 1600);
    assert!(!scheduler.redundant_at(0));
    let mut draw = 1u64;
    for _ in 0..200 {
        draw = draw.wrapping_mul(6364136223846793005).wrapping_add(1442695040888963407);
        assert_eq!(scheduler.select(draw), Some(special));
    }
}

#[test]
fn entries_without_any_positive_score_share_evenly() {
    let mut scheduler = Scheduler::new(2);
    for _ in 0..1700 {
        scheduler.add(1, 100, &vec![1, 0]);
    }
    assert_eq!(scheduler.score_of(0), 0);
    assert_eq!(scheduler.select(0), Some(0));
    assert_eq!(scheduler.select(u64::MAX), Some(0));
}

#[test]
fn empty_scheduler_selects_nothing() {
    let mut scheduler = Scheduler::new(4);
    assert_eq!(scheduler.select(12345), None);
}

#[test]
fn calibration_changes_time_and_flag() {
    let mut scheduler = sample();
    scheduler.calibrate(2, 100, true);
    assert_eq!(scheduler.score_of(2), 400);
    scheduler.calibrate(2, 1600, false);
    assert_eq!(scheduler.score_of(2), 50 * 16);
    assert_eq!(scheduler.score_of(0), 300 * 16 / 2);
}
