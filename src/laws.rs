//! Properties of the scoring rules, stated over the fitness model.
use crate::constraints::Tag;
use crate::evolution::{is_ranking, is_search_result, scored};
use crate::fitness::{
    cell_constraint_penalty,
    constraint_penalty,
    day_penalties,
    day_penalty,
    is_rectangular,
    rest_penalty,
    score_of,
    shift_count,
    staff_penalties,
    staff_penalty,
    supervisor_count,
    target_days,
    violates,
    work_days,
    worker_count,
    BASELINE,
    rest_penalty_at,
    row_constraint_penalty,
    run_length,
    streak_penalty,
    workload_penalty,
    MORNING,
    NIGHT,
    OFF,
};
use vstd::prelude::*;

verus! {

proof fn lemma_row_constraint_zero(c: Map<(int, int), Tag>, staff: int, row: Seq<i32>, n: int)
    requires
        n <= row.len(),
        forall|d: int| 0 <= d < row.len() ==> row[d] == OFF || !c.contains_key((staff, d)),
    ensures
        row_constraint_penalty(c, staff, row, n) == 0,
    decreases n,
{
    if n > 0 {
        lemma_row_constraint_zero(c, staff, row, n - 1);
    }
}

/// A staff member whose every day is either off or free of any constraint
/// collects no personal-constraint penalty.
pub proof fn lemma_unconstrained_staff_costs_nothing(
    c: Map<(int, int), Tag>,
    staff: int,
    row: Seq<i32>,
)
    requires
        forall|d: int| 0 <= d < row.len() ==> row[d] == OFF || !c.contains_key((staff, d)),
    ensures
        row_constraint_penalty(c, staff, row, row.len() as int) == 0,
{
    lemma_row_constraint_zero(c, staff, row, row.len() as int);
}

proof fn lemma_run_length_inside_run(row: Seq<i32>, start: int, i: int)
    requires
        0 <= start,
        0 <= i,
        start + i < row.len(),
        start == 0 || row[start - 1] == OFF,
        forall|d: int| start <= d <= start + i ==> row[d] != OFF,
    ensures
        run_length(row, start + i) == i + 1,
    decreases i,
{
    if i > 0 {
        lemma_run_length_inside_run(row, start, i - 1);
    } else {
        assert(run_length(row, start - 1) == 0);
    }
}

/// A run of `len` working days that opens the row or follows a day off is
/// charged 100 points for each of its days past the fifth.
pub proof fn lemma_streak_penalty_of_run(row: Seq<i32>, start: int, len: int)
    requires
        0 <= start,
        0 <= len,
        start + len <= row.len(),
        start == 0 || row[start - 1] == OFF,
        forall|d: int| start <= d < start + len ==> row[d] != OFF,
    ensures
        streak_penalty(row, start + len) - streak_penalty(row, start) == 100 * (if len > 5 {
            len - 5
        } else {
            0
        }),
    decreases len,
{
    if len > 0 {
        lemma_streak_penalty_of_run(row, start, len - 1);
        lemma_run_length_inside_run(row, start, len - 1);
    }
}

/// A night shift followed by a morning shift costs 100 points, and 200 when
/// the day after that is a morning shift too.
pub proof fn lemma_morning_after_night(row: Seq<i32>, d: int)
    requires
        0 <= d,
        d + 1 < row.len(),
        row[d] == NIGHT,
        row[d + 1] == MORNING,
    ensures
        rest_penalty_at(row, d) == if d + 2 < row.len() && row[d + 2] == MORNING {
            200int
        } else {
            100int
        },
{
}

/// Being `k` days over the target costs the same as being `k` days under
/// it: `10 * k` points.
pub proof fn lemma_workload_symmetric(target: int, k: nat)
    ensures
        workload_penalty(target + k, target) == 10 * k,
        workload_penalty(target - k, target) == 10 * k,
{
}

// ---------------------------------------------------------------------------
// Every penalty is non-negative

proof fn lemma_row_constraint_nonneg(c: Map<(int, int), Tag>, staff: int, row: Seq<i32>, n: int)
    ensures
        row_constraint_penalty(c, staff, row, n) >= 0,
    decreases n,
{
    if n > 0 {
        lemma_row_constraint_nonneg(c, staff, row, n - 1);
    }
}

proof fn lemma_constraint_nonneg(c: Map<(int, int), Tag>, r: Seq<Seq<i32>>, k: int)
    ensures
        constraint_penalty(c, r, k) >= 0,
    decreases k,
{
    if k > 0 {
        lemma_constraint_nonneg(c, r, k - 1);
        lemma_row_constraint_nonneg(c, k - 1, r[k - 1], r[k - 1].len() as int);
    }
}

proof fn lemma_streak_nonneg(row: Seq<i32>, n: int)
    ensures
        streak_penalty(row, n) >= 0,
    decreases n,
{
    if n > 0 {
        lemma_streak_nonneg(row, n - 1);
    }
}

proof fn lemma_rest_nonneg(row: Seq<i32>, n: int)
    ensures
        rest_penalty(row, n) >= 0,
    decreases n,
{
    if n > 0 {
        lemma_rest_nonneg(row, n - 1);
    }
}

proof fn lemma_staff_nonneg(r: Seq<Seq<i32>>, roles: Seq<String>, k: int)
    ensures
        staff_penalties(r, roles, k) >= 0,
    decreases k,
{
    if k > 0 {
        lemma_staff_nonneg(r, roles, k - 1);
        lemma_streak_nonneg(r[k - 1], r[k - 1].len() as int);
        lemma_rest_nonneg(r[k - 1], r[k - 1].len() as int);
    }
}

proof fn lemma_days_nonneg(r: Seq<Seq<i32>>, roles: Seq<String>, n: int)
    ensures
        day_penalties(r, roles, n) >= 0,
    decreases n,
{
    if n > 0 {
        lemma_days_nonneg(r, roles, n - 1);
    }
}

/// No roster scores above the baseline.
pub proof fn lemma_score_at_most_baseline(
    r: Seq<Seq<i32>>,
    roles: Seq<String>,
    c: Map<(int, int), Tag>,
    days: int,
)
    ensures
        score_of(r, roles, c, days) <= BASELINE,
{
    lemma_constraint_nonneg(c, r, r.len() as int);
    lemma_staff_nonneg(r, roles, r.len() as int);
    lemma_days_nonneg(r, roles, days);
}

// ---------------------------------------------------------------------------
// A roster that breaks no rule

proof fn lemma_constraint_zero(c: Map<(int, int), Tag>, r: Seq<Seq<i32>>, k: int)
    requires
        k <= r.len(),
        forall|s: int, d: int|
            0 <= s < r.len() && 0 <= d < r[s].len() && c.contains_key((s, d)) ==> !violates(
                c[(s, d)],
                #[trigger] r[s][d],
            ),
    ensures
        constraint_penalty(c, r, k) == 0,
    decreases k,
{
    if k > 0 {
        lemma_constraint_zero(c, r, k - 1);
        lemma_row_cells_zero(c, k - 1, r[k - 1], r[k - 1].len() as int);
    }
}

proof fn lemma_row_cells_zero(c: Map<(int, int), Tag>, staff: int, row: Seq<i32>, n: int)
    requires
        n <= row.len(),
        forall|d: int|
            0 <= d < row.len() && c.contains_key((staff, d)) ==> !violates(
                c[(staff, d)],
                #[trigger] row[d],
            ),
    ensures
        row_constraint_penalty(c, staff, row, n) == 0,
    decreases n,
{
    if n > 0 {
        lemma_row_cells_zero(c, staff, row, n - 1);
    }
}

proof fn lemma_streak_zero(row: Seq<i32>, n: int)
    requires
        n <= row.len(),
        forall|d: int| 0 <= d < row.len() ==> #[trigger] run_length(row, d) <= 5,
    ensures
        streak_penalty(row, n) == 0,
    decreases n,
{
    if n > 0 {
        lemma_streak_zero(row, n - 1);
    }
}

proof fn lemma_rest_zero(row: Seq<i32>, n: int)
    requires
        n <= row.len(),
        forall|d: int| 0 <= d < row.len() ==> #[trigger] rest_penalty_at(row, d) == 0,
    ensures
        rest_penalty(row, n) == 0,
    decreases n,
{
    if n > 0 {
        lemma_rest_zero(row, n - 1);
    }
}

proof fn lemma_staff_zero(r: Seq<Seq<i32>>, roles: Seq<String>, k: int)
    requires
        k <= r.len(),
        forall|s: int| 0 <= s < r.len() ==> #[trigger] staff_penalty(r[s], roles[s]@) == 0,
    ensures
        staff_penalties(r, roles, k) == 0,
    decreases k,
{
    if k > 0 {
        lemma_staff_zero(r, roles, k - 1);
    }
}

proof fn lemma_days_zero(r: Seq<Seq<i32>>, roles: Seq<String>, n: int)
    requires
        forall|d: int| 0 <= d < n ==> #[trigger] day_penalty(r, roles, d) == 0,
    ensures
        day_penalties(r, roles, n) == 0,
    decreases n,
{
    if n > 0 {
        lemma_days_zero(r, roles, n - 1);
    }
}

/// A roster that breaks no personal constraint, has no run longer than five
/// working days, no morning within two days after a night, every staff
/// member exactly on target, and every day fully staffed with at least two
/// supervisors, scores exactly the baseline.
pub proof fn lemma_perfect_roster_scores_baseline(
    r: Seq<Seq<i32>>,
    roles: Seq<String>,
    c: Map<(int, int), Tag>,
    days: int,
)
    requires
        is_rectangular(r, r.len() as int, days),
        roles.len() == r.len(),
        forall|s: int, d: int|
            0 <= s < r.len() && 0 <= d < days && c.contains_key((s, d)) ==> !violates(
                c[(s, d)],
                #[trigger] r[s][d],
            ),
        forall|s: int, d: int|
            0 <= s < r.len() && 0 <= d < days ==> #[trigger] run_length(r[s], d) <= 5,
        forall|s: int, d: int|
            0 <= s < r.len() && 0 <= d < days && #[trigger] r[s][d] == NIGHT ==> (d + 1 < days
                ==> r[s][d + 1] != MORNING) && (d + 2 < days ==> r[s][d + 2] != MORNING),
        forall|s: int|
            0 <= s < r.len() ==> #[trigger] work_days(r[s], days) == target_days(roles[s]@),
        forall|d: int|
            0 <= d < days ==> {
                &&& #[trigger] shift_count(r, d, MORNING, r.len() as int) >= 5
                &&& shift_count(r, d, NIGHT, r.len() as int) >= 5
                &&& worker_count(r, d, r.len() as int) >= 10
                &&& supervisor_count(r, roles, d, r.len() as int) >= 2
            },
    ensures
        score_of(r, roles, c, days) == BASELINE,
{
    lemma_constraint_zero(c, r, r.len() as int);
    assert forall|s: int| 0 <= s < r.len() implies #[trigger] staff_penalty(r[s], roles[s]@)
        == 0 by {
        let row = r[s];
        assert forall|d: int| 0 <= d < row.len() implies #[trigger] run_length(row, d) <= 5 by {
            assert(run_length(r[s], d) <= 5);
        }
        assert forall|d: int| 0 <= d < row.len() implies #[trigger] rest_penalty_at(row, d)
            == 0 by {
            if row[d] == NIGHT {
                assert(r[s][d] == NIGHT);
            }
        }
        lemma_streak_zero(row, row.len() as int);
        lemma_rest_zero(row, row.len() as int);
        assert(work_days(r[s], days) == target_days(roles[s]@));
    }
    lemma_staff_zero(r, roles, r.len() as int);
    assert forall|d: int| 0 <= d < days implies #[trigger] day_penalty(r, roles, d) == 0 by {
        assert(shift_count(r, d, MORNING, r.len() as int) >= 5);
    }
    lemma_days_zero(r, roles, days);
}

// ---------------------------------------------------------------------------
// A roster that scores the baseline breaks no rule

proof fn lemma_row_cells_zero_back(c: Map<(int, int), Tag>, staff: int, row: Seq<i32>, n: int)
    requires
        row_constraint_penalty(c, staff, row, n) == 0,
    ensures
        forall|d: int| 0 <= d < n ==> #[trigger] cell_constraint_penalty(c, staff, d, row[d]) == 0,
    decreases n,
{
    if n > 0 {
        lemma_row_constraint_nonneg(c, staff, row, n - 1);
        lemma_row_cells_zero_back(c, staff, row, n - 1);
    }
}

proof fn lemma_constraint_zero_back(c: Map<(int, int), Tag>, r: Seq<Seq<i32>>, k: int)
    requires
        constraint_penalty(c, r, k) == 0,
    ensures
        forall|s: int|
            0 <= s < k ==> #[trigger] row_constraint_penalty(c, s, r[s], r[s].len() as int) == 0,
    decreases k,
{
    if k > 0 {
        lemma_constraint_nonneg(c, r, k - 1);
        lemma_row_constraint_nonneg(c, k - 1, r[k - 1], r[k - 1].len() as int);
        lemma_constraint_zero_back(c, r, k - 1);
    }
}

proof fn lemma_streak_zero_back(row: Seq<i32>, n: int)
    requires
        streak_penalty(row, n) == 0,
    ensures
        forall|d: int| 0 <= d < n ==> #[trigger] run_length(row, d) <= 5,
    decreases n,
{
    if n > 0 {
        lemma_streak_nonneg(row, n - 1);
        lemma_streak_zero_back(row, n - 1);
    }
}

proof fn lemma_rest_zero_back(row: Seq<i32>, n: int)
    requires
        rest_penalty(row, n) == 0,
    ensures
        forall|d: int| 0 <= d < n ==> #[trigger] rest_penalty_at(row, d) == 0,
    decreases n,
{
    if n > 0 {
        lemma_rest_nonneg(row, n - 1);
        lemma_rest_zero_back(row, n - 1);
    }
}

proof fn lemma_staff_zero_back(r: Seq<Seq<i32>>, roles: Seq<String>, k: int)
    requires
        staff_penalties(r, roles, k) == 0,
    ensures
        forall|s: int| 0 <= s < k ==> #[trigger] staff_penalty(r[s], roles[s]@) == 0,
    decreases k,
{
    if k > 0 {
        lemma_staff_nonneg(r, roles, k - 1);
        lemma_streak_nonneg(r[k - 1], r[k - 1].len() as int);
        lemma_rest_nonneg(r[k - 1], r[k - 1].len() as int);
        lemma_staff_zero_back(r, roles, k - 1);
    }
}

proof fn lemma_days_zero_back(r: Seq<Seq<i32>>, roles: Seq<String>, n: int)
    requires
        day_penalties(r, roles, n) == 0,
    ensures
        forall|d: int| 0 <= d < n ==> #[trigger] day_penalty(r, roles, d) == 0,
    decreases n,
{
    if n > 0 {
        lemma_days_nonneg(r, roles, n - 1);
        lemma_days_zero_back(r, roles, n - 1);
    }
}

/// A roster that scores exactly the baseline breaks no rule: no personal
/// constraint, no run past five working days, no morning within two days
/// after a night, every staff member on target, and every day fully staffed
/// with at least two supervisors.
pub proof fn lemma_baseline_score_breaks_no_rule(
    r: Seq<Seq<i32>>,
    roles: Seq<String>,
    c: Map<(int, int), Tag>,
    days: int,
)
    requires
        is_rectangular(r, r.len() as int, days),
        roles.len() == r.len(),
        score_of(r, roles, c, days) == BASELINE,
    ensures
        forall|s: int, d: int|
            0 <= s < r.len() && 0 <= d < days && c.contains_key((s, d)) ==> !violates(
                c[(s, d)],
                #[trigger] r[s][d],
            ),
        forall|s: int, d: int|
            0 <= s < r.len() && 0 <= d < days ==> #[trigger] run_length(r[s], d) <= 5,
        forall|s: int, d: int|
            0 <= s < r.len() && 0 <= d < days && #[trigger] r[s][d] == NIGHT ==> (d + 1 < days
                ==> r[s][d + 1] != MORNING) && (d + 2 < days ==> r[s][d + 2] != MORNING),
        forall|s: int|
            0 <= s < r.len() ==> #[trigger] work_days(r[s], days) == target_days(roles[s]@),
        forall|d: int|
            0 <= d < days ==> {
                &&& #[trigger] shift_count(r, d, MORNING, r.len() as int) >= 5
                &&& shift_count(r, d, NIGHT, r.len() as int) >= 5
                &&& worker_count(r, d, r.len() as int) >= 10
                &&& supervisor_count(r, roles, d, r.len() as int) >= 2
            },
{
    lemma_constraint_nonneg(c, r, r.len() as int);
    lemma_staff_nonneg(r, roles, r.len() as int);
    lemma_days_nonneg(r, roles, days);
    lemma_constraint_zero_back(c, r, r.len() as int);
    lemma_staff_zero_back(r, roles, r.len() as int);
    lemma_days_zero_back(r, roles, days);
    assert forall|s: int, d: int|
        0 <= s < r.len() && 0 <= d < days && c.contains_key((s, d)) implies !violates(
        c[(s, d)],
        #[trigger] r[s][d],
    ) by {
        assert(row_constraint_penalty(c, s, r[s], r[s].len() as int) == 0);
        lemma_row_cells_zero_back(c, s, r[s], r[s].len() as int);
        assert(cell_constraint_penalty(c, s, d, r[s][d]) == 0);
    }
    assert forall|s: int| 0 <= s < r.len() implies {
        &&& forall|d: int| 0 <= d < days ==> #[trigger] run_length(r[s], d) <= 5
        &&& forall|d: int| 0 <= d < days ==> #[trigger] rest_penalty_at(r[s], d) == 0
        &&& work_days(r[s], days) == target_days(roles[s]@)
    } by {
        assert(staff_penalty(r[s], roles[s]@) == 0);
        lemma_streak_nonneg(r[s], days);
        lemma_rest_nonneg(r[s], days);
        lemma_streak_zero_back(r[s], days);
        lemma_rest_zero_back(r[s], days);
    }
    assert forall|s: int, d: int|
        0 <= s < r.len() && 0 <= d < days && #[trigger] r[s][d] == NIGHT implies (d + 1 < days
        ==> r[s][d + 1] != MORNING) && (d + 2 < days ==> r[s][d + 2] != MORNING) by {
        assert(rest_penalty_at(r[s], d) == 0);
    }
    assert forall|d: int| 0 <= d < days implies {
        &&& #[trigger] shift_count(r, d, MORNING, r.len() as int) >= 5
        &&& shift_count(r, d, NIGHT, r.len() as int) >= 5
        &&& worker_count(r, d, r.len() as int) >= 10
        &&& supervisor_count(r, roles, d, r.len() as int) >= 2
    } by {
        assert(day_penalty(r, roles, d) == 0);
    }
}

// ---------------------------------------------------------------------------
// Constraints on a staff member who is always off

/// Two constraint sets that agree on every cell outside `staff`'s row.
pub open spec fn agree_except_staff(
    c1: Map<(int, int), Tag>,
    c2: Map<(int, int), Tag>,
    staff: int,
) -> bool {
    forall|a: int, d: int|
        #![trigger c1.contains_key((a, d))]
        #![trigger c2.contains_key((a, d))]
        a != staff ==> (c1.contains_key((a, d)) <==> c2.contains_key((a, d))) && (
        c1.contains_key((a, d)) ==> c1[(a, d)] == c2[(a, d)])
}

proof fn lemma_off_row_same(
    c1: Map<(int, int), Tag>,
    c2: Map<(int, int), Tag>,
    staff: int,
    row_staff: int,
    row: Seq<i32>,
    n: int,
)
    requires
        n <= row.len(),
        agree_except_staff(c1, c2, staff),
        row_staff == staff ==> forall|d: int| 0 <= d < row.len() ==> row[d] == OFF,
    ensures
        row_constraint_penalty(c1, row_staff, row, n) == row_constraint_penalty(
            c2,
            row_staff,
            row,
            n,
        ),
    decreases n,
{
    if n > 0 {
        lemma_off_row_same(c1, c2, staff, row_staff, row, n - 1);
        if row_staff != staff {
            assert(c1.contains_key((row_staff, n - 1)) <==> c2.contains_key((row_staff, n - 1)));
        }
    }
}

proof fn lemma_off_rows_same(
    c1: Map<(int, int), Tag>,
    c2: Map<(int, int), Tag>,
    staff: int,
    r: Seq<Seq<i32>>,
    k: int,
)
    requires
        k <= r.len(),
        0 <= staff < r.len(),
        agree_except_staff(c1, c2, staff),
        forall|d: int| 0 <= d < r[staff].len() ==> r[staff][d] == OFF,
    ensures
        constraint_penalty(c1, r, k) == constraint_penalty(c2, r, k),
    decreases k,
{
    if k > 0 {
        lemma_off_rows_same(c1, c2, staff, r, k - 1);
        lemma_off_row_same(c1, c2, staff, k - 1, r[k - 1], r[k - 1].len() as int);
    }
}

/// Personal constraints on a staff member who is off every day change
/// nothing: two constraint sets that differ only on that staff member's
/// cells give the same score.
pub proof fn lemma_constraints_on_off_staff_change_nothing(
    r: Seq<Seq<i32>>,
    roles: Seq<String>,
    c1: Map<(int, int), Tag>,
    c2: Map<(int, int), Tag>,
    days: int,
    staff: int,
)
    requires
        0 <= staff < r.len(),
        forall|d: int| 0 <= d < r[staff].len() ==> r[staff][d] == OFF,
        agree_except_staff(c1, c2, staff),
    ensures
        score_of(r, roles, c1, days) == score_of(r, roles, c2, days),
{
    lemma_off_rows_same(c1, c2, staff, r, r.len() as int);
}

// ---------------------------------------------------------------------------
// Determinism

proof fn lemma_staff_same_roles(r: Seq<Seq<i32>>, roles1: Seq<String>, roles2: Seq<String>, k: int)
    requires
        forall|s: int| 0 <= s < k ==> (#[trigger] roles1[s])@ == roles2[s]@,
    ensures
        staff_penalties(r, roles1, k) == staff_penalties(r, roles2, k),
    decreases k,
{
    if k > 0 {
        lemma_staff_same_roles(r, roles1, roles2, k - 1);
        assert(roles1[k - 1]@ == roles2[k - 1]@);
    }
}

proof fn lemma_supervisors_same_roles(
    r: Seq<Seq<i32>>,
    roles1: Seq<String>,
    roles2: Seq<String>,
    day: int,
    k: int,
)
    requires
        forall|s: int| 0 <= s < k ==> (#[trigger] roles1[s])@ == roles2[s]@,
    ensures
        supervisor_count(r, roles1, day, k) == supervisor_count(r, roles2, day, k),
    decreases k,
{
    if k > 0 {
        lemma_supervisors_same_roles(r, roles1, roles2, day, k - 1);
        assert(roles1[k - 1]@ == roles2[k - 1]@);
    }
}

proof fn lemma_days_same_roles(r: Seq<Seq<i32>>, roles1: Seq<String>, roles2: Seq<String>, n: int)
    requires
        forall|s: int| 0 <= s < r.len() ==> (#[trigger] roles1[s])@ == roles2[s]@,
    ensures
        day_penalties(r, roles1, n) == day_penalties(r, roles2, n),
    decreases n,
{
    if n > 0 {
        lemma_days_same_roles(r, roles1, roles2, n - 1);
        lemma_supervisors_same_roles(r, roles1, roles2, n - 1, r.len() as int);
    }
}

/// Scoring is a pure function of the inputs: the same roster, constraint set
/// and role names (compared by their text) always give the same score.
pub proof fn lemma_score_deterministic(
    r1: Seq<Seq<i32>>,
    r2: Seq<Seq<i32>>,
    roles1: Seq<String>,
    roles2: Seq<String>,
    c1: Map<(int, int), Tag>,
    c2: Map<(int, int), Tag>,
    days: int,
)
    requires
        r1 == r2,
        c1 == c2,
        roles1.len() == roles2.len(),
        forall|s: int| 0 <= s < roles1.len() ==> (#[trigger] roles1[s])@ == roles2[s]@,
        roles1.len() == r1.len(),
    ensures
        score_of(r1, roles1, c1, days) == score_of(r2, roles2, c2, days),
{
    lemma_staff_same_roles(r1, roles1, roles2, r1.len() as int);
    lemma_days_same_roles(r1, roles1, roles2, days);
}

// ---------------------------------------------------------------------------
// A day-off constraint on a working day

proof fn lemma_row_with_ng(
    c: Map<(int, int), Tag>,
    staff: int,
    day: int,
    row_staff: int,
    row: Seq<i32>,
    n: int,
)
    requires
        !c.contains_key((staff, day)),
        n <= row.len(),
        row_staff == staff && 0 <= day < row.len() ==> row[day] != OFF,
    ensures
        row_constraint_penalty(c.insert((staff, day), Tag::Ng), row_staff, row, n)
            == row_constraint_penalty(c, row_staff, row, n) + if row_staff == staff && 0 <= day
            < n {
            10000int
        } else {
            0int
        },
    decreases n,
{
    if n > 0 {
        lemma_row_with_ng(c, staff, day, row_staff, row, n - 1);
    }
}

proof fn lemma_constraints_with_ng(
    c: Map<(int, int), Tag>,
    r: Seq<Seq<i32>>,
    staff: int,
    day: int,
    k: int,
)
    requires
        !c.contains_key((staff, day)),
        k <= r.len(),
        0 <= staff < r.len(),
        0 <= day < r[staff].len(),
        r[staff][day] != OFF,
    ensures
        constraint_penalty(c.insert((staff, day), Tag::Ng), r, k) == constraint_penalty(c, r, k)
            + if 0 <= staff < k {
            10000int
        } else {
            0int
        },
    decreases k,
{
    if k > 0 {
        lemma_constraints_with_ng(c, r, staff, day, k - 1);
        lemma_row_with_ng(c, staff, day, k - 1, r[k - 1], r[k - 1].len() as int);
    }
}

/// Requiring a day off on a cell that holds a working shift lowers the score
/// by exactly 10000, whatever the other rules charge.
pub proof fn lemma_day_off_on_working_cell(
    r: Seq<Seq<i32>>,
    roles: Seq<String>,
    c: Map<(int, int), Tag>,
    days: int,
    staff: int,
    day: int,
)
    requires
        !c.contains_key((staff, day)),
        0 <= staff < r.len(),
        0 <= day < r[staff].len(),
        r[staff][day] != OFF,
    ensures
        cell_constraint_penalty(c.insert((staff, day), Tag::Ng), staff, day, r[staff][day])
            == 10000,
        score_of(r, roles, c.insert((staff, day), Tag::Ng), days) == score_of(r, roles, c, days)
            - 10000,
{
    lemma_constraints_with_ng(c, r, staff, day, r.len() as int);
}

// ---------------------------------------------------------------------------
// The driver's stop check

/// When some candidate scores the baseline, any ranking of the population
/// puts a baseline score first, so the driver stops in that generation.
pub proof fn lemma_perfect_candidate_ranked_first(
    population: Seq<Seq<Seq<i32>>>,
    roles: Seq<String>,
    c: Map<(int, int), Tag>,
    days: int,
    ranked: Seq<(i32, usize)>,
    i: int,
)
    requires
        is_ranking(ranked, population, roles, c, days),
        0 <= i < population.len(),
        score_of(population[i], roles, c, days) == BASELINE,
    ensures
        ranked.len() > 0,
        ranked[0].0 == BASELINE,
{
    let sc = scored(population, roles, c, days);
    sc.to_multiset_ensures();
    ranked.to_multiset_ensures();
    assert(sc[i] == (BASELINE, i as usize));
    assert(sc.contains(sc[i]));
    assert(ranked.to_multiset().count(sc[i]) > 0);
    assert(ranked.contains(sc[i]));
    let k = choose|k: int| 0 <= k < ranked.len() && ranked[k] == sc[i];
    assert(ranked[0].0 >= ranked[k].0);
    lemma_score_at_most_baseline(population[ranked[0].1 as int], roles, c, days);
}

/// The search stops at the first generation holding a roster that scores
/// the baseline: no earlier generation of a run holds one.
pub proof fn lemma_search_stops_at_first_perfect(
    trace: Seq<Seq<Seq<Seq<i32>>>>,
    rankings: Seq<Seq<(i32, usize)>>,
    roles: Seq<String>,
    c: Map<(int, int), Tag>,
    days: int,
    staff_count: int,
    population_size: int,
    generations: int,
    roster: Seq<Seq<i32>>,
    score: int,
    g: int,
    i: int,
)
    requires
        is_search_result(
            trace,
            rankings,
            roles,
            c,
            days,
            staff_count,
            population_size,
            generations,
            roster,
            score,
        ),
        0 <= g < trace.len() - 1,
        0 <= i < trace[g].len(),
    ensures
        score_of(trace[g][i], roles, c, days) != BASELINE,
{
    if score_of(trace[g][i], roles, c, days) == BASELINE {
        lemma_perfect_candidate_ranked_first(trace[g], roles, c, days, rankings[g], i);
    }
}

} // verus!
