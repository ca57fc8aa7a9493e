use shift_scheduler::constraints::{ConstraintSet, Tag};
use shift_scheduler::evolution::{
    crossover, mutate, pick_result, rank_population, run_genetic_algorithm,
};
use shift_scheduler::fitness::{calculate_single_score, scores_fit};
use shift_scheduler::ranking::rank;

fn roles(list: &[&str]) -> Vec<String> {
    list.iter().map(|s| s.to_string()).collect()
}

fn check_shape(r: &Vec<Vec<i32>>, staff_count: usize, days: usize) {
    assert_eq!(r.len(), staff_count);
    for row in r {
        assert_eq!(row.len(), days);
        for &x in row {
            assert!((0..=2).contains(&x));
        }
    }
}

#[test]
fn driver_output_has_roster_shape() {
    let names = roles(&["Chief", "Leader", "Assist", "Assist"]);
    let mut c = ConstraintSet::new();
    c.insert(0, 1, Tag::Ng);
    c.insert(2, 3, Tag::NoNight);
    let (best, score) = run_genetic_algorithm(names.clone(), c, 6, 4, 10, 8);
    check_shape(&best, 4, 6);
    let mut again = ConstraintSet::new();
    again.insert(0, 1, Tag::Ng);
    again.insert(2, 3, Tag::NoNight);
    assert_eq!(score, calculate_single_score(&best, &names, &again, 6, 4));
    assert!(score <= 100);
}

#[test]
fn driver_without_generations_scores_a_random_roster() {
    let names = roles(&["Assist", "Assist"]);
    let (best, score) = run_genetic_algorithm(names.clone(), ConstraintSet::new(), 3, 2, 2, 0);
    check_shape(&best, 2, 3);
    assert_eq!(score, calculate_single_score(&best, &names, &ConstraintSet::new(), 3, 2));
}

#[test]
fn driver_with_small_population() {
    let names = roles(&["Leader", "Assist", "Other"]);
    let (best, score) = run_genetic_algorithm(names.clone(), ConstraintSet::new(), 2, 3, 3, 5);
    check_shape(&best, 3, 2);
    assert_eq!(score, calculate_single_score(&best, &names, &ConstraintSet::new(), 2, 3));
}

#[test]
fn crossover_splits_by_staff_rows() {
    let p1 = vec![vec![1, 1], vec![1, 2], vec![0, 0]];
    let p2 = vec![vec![2, 2], vec![0, 1], vec![2, 0]];
    assert_eq!(crossover(&p1, &p2, 1), vec![vec![1, 1], vec![0, 1], vec![2, 0]]);
    assert_eq!(crossover(&p1, &p2, 2), vec![vec![1, 1], vec![1, 2], vec![2, 0]]);
    assert_eq!(crossover(&p1, &p2, 3), p1);
    assert_eq!(crossover(&p1, &p2, 0), p2);
}

#[test]
fn mutate_overwrites_one_cell() {
    let mut r = vec![vec![0, 1, 2], vec![2, 1, 0]];
    mutate(&mut r, 1, 2, 2);
    assert_eq!(r, vec![vec![0, 1, 2], vec![2, 1, 2]]);
    mutate(&mut r, 0, 0, 1);
    assert_eq!(r, vec![vec![1, 1, 2], vec![2, 1, 2]]);
}

#[test]
fn rank_orders_best_first() {
    let ranked = rank(vec![(-5, 0), (30, 1), (-5, 2), (100, 3), (7, 4)]);
    let scores: Vec<i32> = ranked.iter().map(|p| p.0).collect();
    assert_eq!(scores, vec![100, 30, 7, -5, -5]);
    assert_eq!(ranked[0], (100, 3));
    assert_eq!(ranked[1], (30, 1));
    let mut tail: Vec<usize> = ranked[3..].iter().map(|p| p.1).collect();
    tail.sort();
    assert_eq!(tail, vec![0, 2]);
}

#[test]
fn rank_population_puts_the_best_roster_first() {
    let names = roles(&["Assist"]);
    let population = vec![vec![vec![0, 0]], vec![vec![1, 0]], vec![vec![2, 1]]];
    let ranked = rank_population(&population, &names, &ConstraintSet::new(), 2, 1);
    // scores: -360, -350, and -440 with a morning after the night
    assert_eq!(ranked, vec![(-350, 1), (-360, 0), (-440, 2)]);
    let tied = vec![vec![vec![0, 0]], vec![vec![0, 0]]];
    let mut both = rank_population(&tied, &names, &ConstraintSet::new(), 2, 1);
    both.sort();
    assert_eq!(both, vec![(-360, 0), (-360, 1)]);
}

#[test]
fn driver_with_one_staff_and_no_generations() {
    let names = roles(&["Assist"]);
    let (best, score) = run_genetic_algorithm(names, ConstraintSet::new(), 1, 1, 1, 0);
    assert!(
        (best == vec![vec![0]] && score == -180)
            || (best == vec![vec![1]] && score == -170)
            || (best == vec![vec![2]] && score == -170)
    );
}

#[test]
fn driver_with_one_staff_and_one_generation() {
    let names = roles(&["Chief"]);
    let (best, score) = run_genetic_algorithm(names.clone(), ConstraintSet::new(), 3, 1, 1, 1);
    check_shape(&best, 1, 3);
    assert_eq!(score, calculate_single_score(&best, &names, &ConstraintSet::new(), 3, 1));
}

#[test]
fn pick_result_stops_on_baseline_or_last_generation() {
    let population = vec![vec![vec![0]], vec![vec![1]]];
    let top = vec![(100, 1), (-180, 0)];
    assert_eq!(pick_result(&population, &top, 0, 5), Some((vec![vec![1]], 100)));
    let low = vec![(-170, 1), (-180, 0)];
    assert_eq!(pick_result(&population, &low, 0, 5), None);
    assert_eq!(pick_result(&population, &low, 3, 5), None);
    assert_eq!(pick_result(&population, &low, 4, 5), Some((vec![vec![1]], -170)));
}

#[test]
fn scores_fit_bounds_the_roster_shape() {
    assert!(scores_fit(34, 25));
    assert!(scores_fit(1, 1));
    assert!(!scores_fit(1000, 1000));
    assert!(!scores_fit(usize::MAX, usize::MAX));
    assert!(scores_fit(0, 11_930_465));
    assert!(!scores_fit(0, 11_930_466));
}
