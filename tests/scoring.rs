use shift_scheduler::constraints::{ConstraintSet, Tag};
use shift_scheduler::fitness::calculate_single_score;

fn names(list: &[&str]) -> Vec<String> {
    list.iter().map(|s| s.to_string()).collect()
}

fn score(schedule: &Vec<Vec<i32>>, roles: &[&str], c: &ConstraintSet) -> i32 {
    let days = schedule[0].len();
    calculate_single_score(schedule, &names(roles), c, days, schedule.len())
}

#[test]
fn single_assist_single_morning() {
    let c = ConstraintSet::new();
    assert_eq!(score(&vec![vec![1]], &["Assist"], &c), -170);
}

#[test]
fn day_off_constraint_on_working_cell_costs_ten_thousand() {
    let mut c = ConstraintSet::new();
    c.insert(0, 0, Tag::Ng);
    assert_eq!(score(&vec![vec![1]], &["Assist"], &c), -10170);
    assert_eq!(score(&vec![vec![2]], &["Assist"], &c), -10170);
}

#[test]
fn day_off_constraint_on_off_cell_costs_nothing() {
    let mut c = ConstraintSet::new();
    c.insert(0, 0, Tag::Ng);
    let free = ConstraintSet::new();
    let roster = vec![vec![0]];
    assert_eq!(score(&roster, &["Assist"], &c), score(&roster, &["Assist"], &free));
    // 100 - 10 * 10 (workload) - 180 (staffing)
    assert_eq!(score(&roster, &["Assist"], &c), -180);
}

#[test]
fn shift_constraints_only_hit_their_shift() {
    let mut no_morning = ConstraintSet::new();
    no_morning.insert(0, 0, Tag::NoMorning);
    let mut no_night = ConstraintSet::new();
    no_night.insert(0, 0, Tag::NoNight);
    assert_eq!(score(&vec![vec![1]], &["Assist"], &no_morning), -10170);
    assert_eq!(score(&vec![vec![2]], &["Assist"], &no_morning), -170);
    assert_eq!(score(&vec![vec![2]], &["Assist"], &no_night), -10170);
    assert_eq!(score(&vec![vec![1]], &["Assist"], &no_night), -170);
}

#[test]
fn constraint_outside_roster_is_ignored() {
    let mut c = ConstraintSet::new();
    c.insert(5, 7, Tag::Ng);
    assert_eq!(score(&vec![vec![1]], &["Assist"], &c), -170);
}

#[test]
fn consecutive_days_past_five_are_charged() {
    let c = ConstraintSet::new();
    // five days: no streak penalty; 100 - 10 * 16 - 5 * 180
    assert_eq!(score(&vec![vec![1; 5]], &["Other"], &c), -960);
    // seven days: 200 streak; 100 - 200 - 10 * 14 - 7 * 180
    assert_eq!(score(&vec![vec![1; 7]], &["Other"], &c), -1500);
    // a day off resets the run: 3 + 4 working days; 100 - 10 * 14 - 8 * 180
    assert_eq!(score(&vec![vec![1, 1, 1, 0, 1, 1, 1, 1]], &["Other"], &c), -1480);
}

#[test]
fn mornings_after_a_night_are_charged() {
    let c = ConstraintSet::new();
    // 100 - 200 (rest) - 10 * 7 - 3 * 180
    assert_eq!(score(&vec![vec![2, 1, 1]], &["Assist"], &c), -710);
    // 100 - 100 (rest) - 10 * 8 - 3 * 180
    assert_eq!(score(&vec![vec![2, 1, 0]], &["Assist"], &c), -620);
    // 100 - 100 (rest) - 10 * 8 - 3 * 180
    assert_eq!(score(&vec![vec![2, 0, 1]], &["Assist"], &c), -620);
    // a morning before the night is not charged: 100 - 10 * 8 - 2 * 180
    assert_eq!(score(&vec![vec![1, 2]], &["Assist"], &c), -340);
}

#[test]
fn workload_penalty_is_symmetric() {
    let c = ConstraintSet::new();
    let over = vec![vec![1, 1, 1, 1, 1, 0, 1, 1, 1, 1, 1, 0, 1, 1]];
    let under = vec![vec![1, 1, 1, 1, 0, 1, 1, 1, 1, 0, 0, 0, 0, 0]];
    // 100 - 10 * 2 - 14 * 180
    assert_eq!(score(&over, &["Assist"], &c), -2440);
    assert_eq!(score(&under, &["Assist"], &c), -2440);
}

#[test]
fn unknown_role_has_the_long_target() {
    let c = ConstraintSet::new();
    // 100 - 10 * 20 - 180
    assert_eq!(score(&vec![vec![1]], &["Nurse"], &c), -280);
    assert_eq!(score(&vec![vec![1]], &["assist"], &c), -280);
}

fn staffed_day(roles: &[&str], shifts: &[i32]) -> i32 {
    let c = ConstraintSet::new();
    let roster: Vec<Vec<i32>> = shifts.iter().map(|&s| vec![s]).collect();
    score(&roster, roles, &c)
}

#[test]
fn staffing_minimums_met() {
    let mut roles = vec!["Chief", "Leader"];
    roles.extend(std::iter::repeat("Assist").take(8));
    let shifts = [1, 2, 1, 1, 1, 1, 2, 2, 2, 2];
    // 100 - 2 * 200 - 8 * 90, no staffing penalty
    assert_eq!(staffed_day(&roles, &shifts), -1020);
}

#[test]
fn staffing_minimums_each_charged() {
    let mut roles = vec!["Chief", "Leader"];
    roles.extend(std::iter::repeat("Assist").take(8));
    // the chief is off: four mornings, nine workers, one supervisor
    let shifts = [0, 2, 1, 1, 1, 1, 2, 2, 2, 2];
    // 100 - 210 - 200 - 8 * 90 - 50 (mornings) - 50 (workers) - 30 (supervisors)
    assert_eq!(staffed_day(&roles, &shifts), -1160);
}

fn perfect_roster() -> (Vec<Vec<i32>>, Vec<String>) {
    let days = 25;
    let mut roster = Vec::new();
    let mut roles = Vec::new();
    let offs_a = [5, 11, 17, 23];
    let offs_b = [2, 8, 14, 20];
    for (offs, shift, role) in [
        (offs_a, 1, "Chief"),
        (offs_a, 2, "Leader"),
        (offs_b, 1, "Leader"),
        (offs_b, 2, "Chief"),
    ] {
        roster.push((0..days).map(|d| if offs.contains(&d) { 0 } else { shift }).collect());
        roles.push(role.to_string());
    }
    for shift in [1, 2] {
        for j in 0..15 {
            roster.push((0..days).map(|d| if (d + j) % 5 < 2 { shift } else { 0 }).collect());
            roles.push("Assist".to_string());
        }
    }
    (roster, roles)
}

#[test]
fn roster_breaking_no_rule_scores_baseline() {
    let (roster, roles) = perfect_roster();
    let c = ConstraintSet::new();
    assert_eq!(calculate_single_score(&roster, &roles, &c, 25, roster.len()), 100);
}

#[test]
fn scoring_twice_gives_the_same_score() {
    let (mut roster, roles) = perfect_roster();
    roster[6][3] = 2;
    roster[9][0] = 1;
    let mut c = ConstraintSet::new();
    c.insert(6, 3, Tag::NoNight);
    let first = calculate_single_score(&roster, &roles, &c, 25, roster.len());
    let second = calculate_single_score(&roster.clone(), &roles.clone(), &c, 25, roster.len());
    assert_eq!(first, second);
    assert!(first < 100);
}

#[test]
fn tag_names() {
    assert_eq!(Tag::from_name(&"NG".to_string()), Some(Tag::Ng));
    assert_eq!(Tag::from_name(&"NO_MORNING".to_string()), Some(Tag::NoMorning));
    assert_eq!(Tag::from_name(&"NO_NIGHT".to_string()), Some(Tag::NoNight));
    assert_eq!(Tag::from_name(&"ng".to_string()), None);
    assert_eq!(Tag::from_name(&"".to_string()), None);
}

#[test]
fn constraint_set_keeps_one_tag_per_cell() {
    let mut c = ConstraintSet::new();
    assert_eq!(c.get(1, 2), None);
    c.insert(1, 2, Tag::Ng);
    c.insert(2, 1, Tag::NoNight);
    assert_eq!(c.get(1, 2), Some(Tag::Ng));
    assert_eq!(c.get(2, 1), Some(Tag::NoNight));
    c.insert(1, 2, Tag::NoMorning);
    assert_eq!(c.get(1, 2), Some(Tag::NoMorning));
    assert_eq!(c.get(2, 2), None);
    c.insert(usize::MAX, usize::MAX, Tag::Ng);
    assert_eq!(c.get(usize::MAX, usize::MAX), Some(Tag::Ng));
    assert_eq!(c.get(usize::MAX, 0), None);
}

#[test]
fn tags_on_an_always_off_staff_member_change_nothing() {
    let roster = vec![vec![1, 2, 1], vec![0, 0, 0]];
    let free = ConstraintSet::new();
    let mut tagged = ConstraintSet::new();
    tagged.insert(1, 0, Tag::Ng);
    tagged.insert(1, 1, Tag::NoMorning);
    tagged.insert(1, 2, Tag::NoNight);
    let roles = ["Assist", "Leader"];
    assert_eq!(score(&roster, &roles, &tagged), score(&roster, &roles, &free));
    // 100 - 100 (rest) - 70 - 210 - 3 * 180
    assert_eq!(score(&roster, &roles, &free), -820);
}

#[test]
fn breaking_any_rule_drops_below_baseline() {
    let (roster, roles) = perfect_roster();
    let c = ConstraintSet::new();
    let n = roster.len();
    // one more working day for a supervisor: workload off target by one
    let mut longer = roster.clone();
    longer[0][5] = 1;
    assert!(calculate_single_score(&longer, &roles, &c, 25, n) < 100);
    // a night right before an assist's morning, all else unchanged: 100 - 100
    let mut rest = roster.clone();
    rest[4][0] = 2;
    assert_eq!(calculate_single_score(&rest, &roles, &c, 25, n), 0);
    // a personal constraint on a working cell
    let mut tagged = ConstraintSet::new();
    tagged.insert(0, 0, Tag::NoMorning);
    assert_eq!(calculate_single_score(&roster, &roles, &tagged, 25, n), 100 - 10000);
}
