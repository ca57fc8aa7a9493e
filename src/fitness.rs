//! The fitness evaluator: a roster's score is the baseline minus the
//! penalties of every scheduling rule it breaks.
use crate::constraints::{ConstraintSet, Tag};
use vstd::prelude::*;

verus! {

/// Shift code of a day off.
pub const OFF: i32 = 0;

/// Shift code of a morning shift.
pub const MORNING: i32 = 1;

/// Shift code of a night shift.
pub const NIGHT: i32 = 2;

/// The score of a roster that breaks no rule.
pub const BASELINE: i32 = 100;

// ---------------------------------------------------------------------------
// Roles and shapes

pub open spec fn is_assist(role: Seq<char>) -> bool {
    role == "Assist"@
}

pub open spec fn is_supervisor(role: Seq<char>) -> bool {
    role == "Chief"@ || role == "Leader"@
}

/// Number of working days each staff member should have.
pub open spec fn target_days(role: Seq<char>) -> int {
    if is_assist(role) {
        10
    } else {
        21
    }
}

/// The rows of a roster as sequences of shift codes.
pub open spec fn grid(v: Seq<Vec<i32>>) -> Seq<Seq<i32>> {
    v.map_values(|row: Vec<i32>| row@)
}

/// `staff_count` rows of `days` cells each.
pub open spec fn is_rectangular(r: Seq<Seq<i32>>, staff_count: int, days: int) -> bool {
    &&& r.len() == staff_count
    &&& forall|s: int| 0 <= s < staff_count ==> #[trigger] r[s].len() == days
}

/// The largest total penalty a roster of this shape can collect fits the
/// score's 32-bit range.
pub open spec fn penalty_fits(staff_count: int, days: int) -> bool {
    10320 * staff_count * days + 210 * staff_count + 180 * days <= 2147483748
}

/// Whether `penalty_fits` holds, so that rosters of this shape can be scored.
pub fn scores_fit(staff_count: usize, days: usize) -> (r: bool)
    ensures
        r == penalty_fits(staff_count as int, days as int),
{
    let s = staff_count as u128;
    let d = days as u128;
    assert(s * d <= 0xffff_ffff_ffff_ffff_ffff_ffff_ffff_ffff) by (nonlinear_arith)
        requires
            s <= 0xffff_ffff_ffff_ffff,
            d <= 0xffff_ffff_ffff_ffff,
    ;
    let product = s * d;
    if product > 1_000_000 || s > 1_000_000_000 || d > 1_000_000_000 {
        assert(10320 * (s as int) * (d as int) + 210 * (s as int) + 180 * (d as int)
            > 2147483748) by (nonlinear_arith)
            requires
                product == s * d,
                product > 1_000_000 || s > 1_000_000_000 || d > 1_000_000_000,
        ;
        false
    } else {
        assert(10320 * (s as int) * (d as int) == 10320 * (product as int)) by (nonlinear_arith)
            requires
                product == s * d,
        ;
        10320 * product + 210 * s + 180 * d <= 2147483748
    }
}

// ---------------------------------------------------------------------------
// Rule 1: personal constraints

pub open spec fn violates(tag: Tag, shift: i32) -> bool {
    match tag {
        Tag::Ng => shift != OFF,
        Tag::NoMorning => shift == MORNING,
        Tag::NoNight => shift == NIGHT,
    }
}

pub open spec fn cell_constraint_penalty(
    c: Map<(int, int), Tag>,
    staff: int,
    day: int,
    shift: i32,
) -> int {
    if c.contains_key((staff, day)) && violates(c[(staff, day)], shift) {
        10000
    } else {
        0
    }
}

/// Constraint penalty of one staff row over its first `n` days.
pub open spec fn row_constraint_penalty(
    c: Map<(int, int), Tag>,
    staff: int,
    row: Seq<i32>,
    n: int,
) -> int
    decreases n,
{
    if n <= 0 {
        0
    } else {
        row_constraint_penalty(c, staff, row, n - 1) + cell_constraint_penalty(
            c,
            staff,
            n - 1,
            row[n - 1],
        )
    }
}

/// Constraint penalty of the first `k` staff rows.
pub open spec fn constraint_penalty(c: Map<(int, int), Tag>, r: Seq<Seq<i32>>, k: int) -> int
    decreases k,
{
    if k <= 0 {
        0
    } else {
        constraint_penalty(c, r, k - 1) + row_constraint_penalty(
            c,
            k - 1,
            r[k - 1],
            r[k - 1].len() as int,
        )
    }
}

// ---------------------------------------------------------------------------
// Rules 2 to 4: per staff member

/// Number of consecutive working days that end on day `d`.
pub open spec fn run_length(row: Seq<i32>, d: int) -> int
    decreases d + 1,
{
    if d < 0 || d >= row.len() || row[d] == OFF {
        0
    } else {
        1 + run_length(row, d - 1)
    }
}

/// Penalty for days among the first `n` that extend a run past five days.
pub open spec fn streak_penalty(row: Seq<i32>, n: int) -> int
    decreases n,
{
    if n <= 0 {
        0
    } else {
        streak_penalty(row, n - 1) + if run_length(row, n - 1) > 5 {
            100int
        } else {
            0int
        }
    }
}

/// Penalty for mornings on the two days after a night on day `d`.
pub open spec fn rest_penalty_at(row: Seq<i32>, d: int) -> int {
    if row[d] == NIGHT {
        (if d + 1 < row.len() && row[d + 1] == MORNING {
            100int
        } else {
            0int
        }) + (if d + 2 < row.len() && row[d + 2] == MORNING {
            100int
        } else {
            0int
        })
    } else {
        0
    }
}

pub open spec fn rest_penalty(row: Seq<i32>, n: int) -> int
    decreases n,
{
    if n <= 0 {
        0
    } else {
        rest_penalty(row, n - 1) + rest_penalty_at(row, n - 1)
    }
}

/// Number of working days among the first `n`.
pub open spec fn work_days(row: Seq<i32>, n: int) -> int
    decreases n,
{
    if n <= 0 {
        0
    } else {
        work_days(row, n - 1) + if row[n - 1] != OFF {
            1int
        } else {
            0int
        }
    }
}

pub open spec fn abs_diff(a: int, b: int) -> int {
    if a >= b {
        a - b
    } else {
        b - a
    }
}

pub open spec fn workload_penalty(work: int, target: int) -> int {
    10 * abs_diff(work, target)
}

pub open spec fn staff_penalty(row: Seq<i32>, role: Seq<char>) -> int {
    streak_penalty(row, row.len() as int) + rest_penalty(row, row.len() as int)
        + workload_penalty(work_days(row, row.len() as int), target_days(role))
}

/// Per-staff penalties of the first `k` staff rows.
pub open spec fn staff_penalties(r: Seq<Seq<i32>>, roles: Seq<String>, k: int) -> int
    decreases k,
{
    if k <= 0 {
        0
    } else {
        staff_penalties(r, roles, k - 1) + staff_penalty(r[k - 1], roles[k - 1]@)
    }
}

// ---------------------------------------------------------------------------
// Rule 5: per day

/// Among the first `k` staff, how many work the shift `shift` on `day`.
pub open spec fn shift_count(r: Seq<Seq<i32>>, day: int, shift: i32, k: int) -> int
    decreases k,
{
    if k <= 0 {
        0
    } else {
        shift_count(r, day, shift, k - 1) + if r[k - 1][day] == shift {
            1int
        } else {
            0int
        }
    }
}

/// Among the first `k` staff, how many work on `day`.
pub open spec fn worker_count(r: Seq<Seq<i32>>, day: int, k: int) -> int
    decreases k,
{
    if k <= 0 {
        0
    } else {
        worker_count(r, day, k - 1) + if r[k - 1][day] != OFF {
            1int
        } else {
            0int
        }
    }
}

/// Among the first `k` staff, how many supervisors work on `day`.
pub open spec fn supervisor_count(r: Seq<Seq<i32>>, roles: Seq<String>, day: int, k: int) -> int
    decreases k,
{
    if k <= 0 {
        0
    } else {
        supervisor_count(r, roles, day, k - 1) + if r[k - 1][day] != OFF && is_supervisor(
            roles[k - 1]@,
        ) {
            1int
        } else {
            0int
        }
    }
}

pub open spec fn day_penalty(r: Seq<Seq<i32>>, roles: Seq<String>, day: int) -> int {
    let k = r.len() as int;
    (if shift_count(r, day, MORNING, k) < 5 {
        50int
    } else {
        0int
    }) + (if shift_count(r, day, NIGHT, k) < 5 {
        50int
    } else {
        0int
    }) + (if worker_count(r, day, k) < 10 {
        50int
    } else {
        0int
    }) + (if supervisor_count(r, roles, day, k) < 2 {
        30int
    } else {
        0int
    })
}

/// Staffing penalties of the first `n` days.
pub open spec fn day_penalties(r: Seq<Seq<i32>>, roles: Seq<String>, n: int) -> int
    decreases n,
{
    if n <= 0 {
        0
    } else {
        day_penalties(r, roles, n - 1) + day_penalty(r, roles, n - 1)
    }
}

/// The score of roster `r`: the baseline minus every rule's penalty.
pub open spec fn score_of(
    r: Seq<Seq<i32>>,
    roles: Seq<String>,
    c: Map<(int, int), Tag>,
    days: int,
) -> int {
    BASELINE - constraint_penalty(c, r, r.len() as int) - staff_penalties(r, roles, r.len() as int)
        - day_penalties(r, roles, days)
}

// ---------------------------------------------------------------------------
// Evaluation

fn breaks(tag: Tag, shift: i32) -> (b: bool)
    ensures
        b == violates(tag, shift),
{
    match tag {
        Tag::Ng => shift != OFF,
        Tag::NoMorning => shift == MORNING,
        Tag::NoNight => shift == NIGHT,
    }
}

fn row_constraint_total(c: &ConstraintSet, staff: usize, row: &Vec<i32>) -> (p: i64)
    requires
        row.len() <= 20_000_000,
    ensures
        p == row_constraint_penalty(c@, staff as int, row@, row@.len() as int),
        0 <= p <= 10000 * row.len(),
{
    let mut p: i64 = 0;
    let mut d: usize = 0;
    while d < row.len()
        invariant
            d <= row.len() <= 20_000_000,
            p == row_constraint_penalty(c@, staff as int, row@, d as int),
            0 <= p <= 10000 * d,
        decreases row.len() - d,
    {
        let shift = row[d];
        match c.get(staff, d) {
            Some(tag) => {
                if breaks(tag, shift) {
                    p = p + 10000;
                }
            },
            None => {},
        }
        d = d + 1;
    }
    p
}

fn constraint_total(
    schedule: &Vec<Vec<i32>>,
    c: &ConstraintSet,
    staff_count: usize,
    days: usize,
) -> (p: i64)
    requires
        is_rectangular(grid(schedule@), staff_count as int, days as int),
        penalty_fits(staff_count as int, days as int),
    ensures
        p == constraint_penalty(c@, grid(schedule@), staff_count as int),
        0 <= p <= 10000 * staff_count * days,
{
    let ghost r = grid(schedule@);
    let mut p: i64 = 0;
    let mut s: usize = 0;
    while s < staff_count
        invariant
            s <= staff_count,
            r == grid(schedule@),
            is_rectangular(r, staff_count as int, days as int),
            penalty_fits(staff_count as int, days as int),
            p == constraint_penalty(c@, r, s as int),
            0 <= p <= 10000 * s * days,
        decreases staff_count - s,
    {
        assert(r[s as int] == schedule@[s as int]@);
        let rp = row_constraint_total(c, s, &schedule[s]);
        proof {
            let (a, b, n) = (s as int, staff_count as int, days as int);
            assert(p + rp <= 10000 * (a + 1) * n) by (nonlinear_arith)
                requires
                    p <= 10000 * a * n,
                    rp <= 10000 * n,
            ;
            assert(10000 * (a + 1) * n <= 10000 * b * n) by (nonlinear_arith)
                requires
                    a + 1 <= b,
                    0 <= n,
            ;
            assert(10000 * b * n <= 10320 * b * n) by (nonlinear_arith)
                requires
                    0 <= b,
                    0 <= n,
            ;
        }
        p = p + rp;
        s = s + 1;
    }
    p
}

fn staff_total(row: &Vec<i32>, role: &String) -> (p: i64)
    requires
        row.len() <= 20_000_000,
    ensures
        p == staff_penalty(row@, role@),
        0 <= p <= 320 * row.len() + 210,
{
    let n = row.len();
    let mut streak: i64 = 0;
    let mut run: i64 = 0;
    let mut d: usize = 0;
    while d < n
        invariant
            d <= n == row.len() <= 20_000_000,
            run == run_length(row@, d - 1),
            0 <= run <= d,
            streak == streak_penalty(row@, d as int),
            0 <= streak <= 100 * d,
        decreases n - d,
    {
        if row[d] != OFF {
            run = run + 1;
            if run > 5 {
                streak = streak + 100;
            }
        } else {
            run = 0;
        }
        d = d + 1;
    }
    let mut rest: i64 = 0;
    d = 0;
    while d < n
        invariant
            d <= n == row.len() <= 20_000_000,
            rest == rest_penalty(row@, d as int),
            0 <= rest <= 200 * d,
        decreases n - d,
    {
        if row[d] == NIGHT {
            if d + 1 < n && row[d + 1] == MORNING {
                rest = rest + 100;
            }
            if d + 2 < n && row[d + 2] == MORNING {
                rest = rest + 100;
            }
        }
        d = d + 1;
    }
    let mut work: i64 = 0;
    d = 0;
    while d < n
        invariant
            d <= n == row.len() <= 20_000_000,
            work == work_days(row@, d as int),
            0 <= work <= d,
        decreases n - d,
    {
        if row[d] != OFF {
            work = work + 1;
        }
        d = d + 1;
    }
    let assist = "Assist".to_owned();
    let target: i64 = if *role == assist {
        10
    } else {
        21
    };
    let diff: i64 = if work >= target {
        work - target
    } else {
        target - work
    };
    streak + rest + 10 * diff
}

fn staff_penalty_total(
    schedule: &Vec<Vec<i32>>,
    roles: &Vec<String>,
    staff_count: usize,
    days: usize,
) -> (p: i64)
    requires
        is_rectangular(grid(schedule@), staff_count as int, days as int),
        roles.len() == staff_count,
        penalty_fits(staff_count as int, days as int),
    ensures
        p == staff_penalties(grid(schedule@), roles@, staff_count as int),
        0 <= p <= staff_count * (320 * days + 210),
{
    let ghost r = grid(schedule@);
    let mut p: i64 = 0;
    let mut s: usize = 0;
    while s < staff_count
        invariant
            s <= staff_count,
            r == grid(schedule@),
            is_rectangular(r, staff_count as int, days as int),
            roles.len() == staff_count,
            penalty_fits(staff_count as int, days as int),
            p == staff_penalties(r, roles@, s as int),
            0 <= p <= s * (320 * days + 210),
        decreases staff_count - s,
    {
        assert(r[s as int] == schedule@[s as int]@);
        let sp = staff_total(&schedule[s], &roles[s]);
        proof {
            let (a, b, n) = (s as int, staff_count as int, days as int);
            assert(p + sp <= (a + 1) * (320 * n + 210)) by (nonlinear_arith)
                requires
                    p <= a * (320 * n + 210),
                    sp <= 320 * n + 210,
            ;
            assert((a + 1) * (320 * n + 210) <= b * (320 * n + 210)) by (nonlinear_arith)
                requires
                    a + 1 <= b,
                    0 <= n,
            ;
            assert(b * (320 * n + 210) == 320 * b * n + 210 * b) by (nonlinear_arith);
            assert(320 * b * n <= 10320 * b * n) by (nonlinear_arith)
                requires
                    0 <= b,
                    0 <= n,
            ;
        }
        p = p + sp;
        s = s + 1;
    }
    p
}

fn day_total(
    schedule: &Vec<Vec<i32>>,
    roles: &Vec<String>,
    staff_count: usize,
    days: usize,
    day: usize,
) -> (p: i64)
    requires
        is_rectangular(grid(schedule@), staff_count as int, days as int),
        day < days,
        roles.len() == staff_count,
    ensures
        p == day_penalty(grid(schedule@), roles@, day as int),
        0 <= p <= 180,
{
    let ghost r = grid(schedule@);
    let chief = "Chief".to_owned();
    let leader = "Leader".to_owned();
    let mut morning: usize = 0;
    let mut night: usize = 0;
    let mut workers: usize = 0;
    let mut supervisors: usize = 0;
    let mut s: usize = 0;
    while s < staff_count
        invariant
            s <= staff_count,
            r == grid(schedule@),
            is_rectangular(r, staff_count as int, days as int),
            day < days,
            roles.len() == staff_count,
            chief@ == "Chief"@,
            leader@ == "Leader"@,
            morning == shift_count(r, day as int, MORNING, s as int),
            night == shift_count(r, day as int, NIGHT, s as int),
            workers == worker_count(r, day as int, s as int),
            supervisors == supervisor_count(r, roles@, day as int, s as int),
            morning <= s,
            night <= s,
            workers <= s,
            supervisors <= s,
        decreases staff_count - s,
    {
        assert(r[s as int] == schedule@[s as int]@);
        let shift = schedule[s][day];
        if shift != OFF {
            workers = workers + 1;
            if shift == MORNING {
                morning = morning + 1;
            } else if shift == NIGHT {
                night = night + 1;
            }
            if roles[s] == chief || roles[s] == leader {
                supervisors = supervisors + 1;
            }
        }
        s = s + 1;
    }
    let mut p: i64 = 0;
    if morning < 5 {
        p = p + 50;
    }
    if night < 5 {
        p = p + 50;
    }
    if workers < 10 {
        p = p + 50;
    }
    if supervisors < 2 {
        p = p + 30;
    }
    p
}

fn day_penalty_total(
    schedule: &Vec<Vec<i32>>,
    roles: &Vec<String>,
    staff_count: usize,
    days: usize,
) -> (p: i64)
    requires
        is_rectangular(grid(schedule@), staff_count as int, days as int),
        roles.len() == staff_count,
        penalty_fits(staff_count as int, days as int),
    ensures
        p == day_penalties(grid(schedule@), roles@, days as int),
        0 <= p <= 180 * days,
{
    let mut p: i64 = 0;
    let mut d: usize = 0;
    while d < days
        invariant
            d <= days,
            is_rectangular(grid(schedule@), staff_count as int, days as int),
            roles.len() == staff_count,
            penalty_fits(staff_count as int, days as int),
            p == day_penalties(grid(schedule@), roles@, d as int),
            0 <= p <= 180 * d,
        decreases days - d,
    {
        proof {
            assert(0 <= 10320 * staff_count * days) by (nonlinear_arith)
                requires
                    0 <= staff_count,
                    0 <= days,
            ;
        }
        let dp = day_total(schedule, roles, staff_count, days, d);
        p = p + dp;
        d = d + 1;
    }
    p
}

/// Scores a roster: the baseline minus the penalties of the personal
/// constraints, the consecutive-workday limit, the rest after night shifts,
/// the workload target and the per-day staffing minimums.
pub fn calculate_single_score(
    schedule: &Vec<Vec<i32>>,
    roles: &Vec<String>,
    constraints: &ConstraintSet,
    days: usize,
    staff_count: usize,
) -> (score: i32)
    requires
        is_rectangular(grid(schedule@), staff_count as int, days as int),
        roles.len() == staff_count,
        penalty_fits(staff_count as int, days as int),
    ensures
        score == score_of(grid(schedule@), roles@, constraints@, days as int),
{
    let cp = constraint_total(schedule, constraints, staff_count, days);
    let sp = staff_penalty_total(schedule, roles, staff_count, days);
    let dp = day_penalty_total(schedule, roles, staff_count, days);
    proof {
        let (b, n) = (staff_count as int, days as int);
        assert(b * (320 * n + 210) == 320 * b * n + 210 * b) by (nonlinear_arith);
        assert(10000 * b * n + 320 * b * n == 10320 * b * n) by (nonlinear_arith);
    }
    let total: i64 = cp + sp + dp;
    (100 - total) as i32
}

} // verus!
