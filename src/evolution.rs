//! The evolutionary driver: evolves a population of rosters toward a
//! higher score.
use crate::constraints::{ConstraintSet, Tag};
use crate::entropy::{draw_below, draw_ratio, fresh_rng};
use crate::fitness::{
    calculate_single_score,
    grid,
    is_rectangular,
    penalty_fits,
    score_of,
    BASELINE,
    NIGHT,
    OFF,
};
use crate::laws::lemma_score_at_most_baseline;
use crate::ranking::{descending, rank};
use rand::rngs::ThreadRng;
use vstd::prelude::*;

verus! {

pub open spec fn is_shift(x: i32) -> bool {
    OFF <= x <= NIGHT
}

/// A rectangular roster whose every cell is a shift code.
pub open spec fn is_roster(r: Seq<Seq<i32>>, staff_count: int, days: int) -> bool {
    &&& is_rectangular(r, staff_count, days)
    &&& forall|s: int, d: int|
        0 <= s < staff_count && 0 <= d < days ==> is_shift(#[trigger] r[s][d])
}

pub open spec fn all_rosters(p: Seq<Vec<Vec<i32>>>, staff_count: int, days: int) -> bool {
    forall|i: int| 0 <= i < p.len() ==> is_roster(#[trigger] grid(p[i]@), staff_count, days)
}

/// The rosters of a population, each as a sequence of rows.
pub open spec fn pop_grid(p: Seq<Vec<Vec<i32>>>) -> Seq<Seq<Seq<i32>>> {
    p.map_values(|r: Vec<Vec<i32>>| grid(r@))
}

/// Each candidate paired with its score and its index.
pub open spec fn scored(
    p: Seq<Seq<Seq<i32>>>,
    roles: Seq<String>,
    c: Map<(int, int), Tag>,
    days: int,
) -> Seq<(i32, usize)> {
    Seq::new(p.len(), |i: int| (score_of(p[i], roles, c, days) as i32, i as usize))
}

/// `ranked` holds every candidate's (score, index) pair once, best first.
pub open spec fn is_ranking(
    ranked: Seq<(i32, usize)>,
    p: Seq<Seq<Seq<i32>>>,
    roles: Seq<String>,
    c: Map<(int, int), Tag>,
    days: int,
) -> bool {
    &&& ranked.to_multiset() == scored(p, roles, c, days).to_multiset()
    &&& descending(ranked)
    &&& ranked.len() == p.len()
    &&& forall|k: int|
        0 <= k < ranked.len() ==> {
            &&& (#[trigger] ranked[k]).1 < p.len()
            &&& ranked[k].0 == score_of(p[ranked[k].1 as int], roles, c, days)
        }
}

/// `a` equals `b`, or differs from it in a single cell.
pub open spec fn within_one_cell(a: Seq<Seq<i32>>, b: Seq<Seq<i32>>) -> bool {
    ||| a == b
    ||| exists|s: int, d: int|
        0 <= s < b.len() && 0 <= d < b[s].len() && a == #[trigger] b.update(
            s,
            b[s].update(d, a[s][d]),
        )
}

/// `child` is a crossover of `p1` and `p2` at a split point in
/// `[1, staff_count)`, with at most one cell changed afterwards.
pub open spec fn is_child_of(
    child: Seq<Seq<i32>>,
    p1: Seq<Seq<i32>>,
    p2: Seq<Seq<i32>>,
    staff_count: int,
) -> bool {
    exists|split: int|
        1 <= split < staff_count && #[trigger] within_one_cell(
            child,
            p1.take(split) + p2.skip(split),
        )
}

/// `child` is a child of two parents from the better half of `prev` ranked
/// as `ranked`.
pub open spec fn bred_from(
    child: Seq<Seq<i32>>,
    prev: Seq<Seq<Seq<i32>>>,
    ranked: Seq<(i32, usize)>,
    staff_count: int,
) -> bool {
    exists|a: int, b: int|
        0 <= a < prev.len() / 2 && 0 <= b < prev.len() / 2 && #[trigger] is_child_of(
            child,
            prev[ranked[a].1 as int],
            prev[ranked[b].1 as int],
            staff_count,
        )
}

/// `next` follows `prev` ranked as `ranked`: the elite copied in rank order,
/// then children of two parents from the better half of the ranking.
pub open spec fn is_next_generation(
    prev: Seq<Seq<Seq<i32>>>,
    next: Seq<Seq<Seq<i32>>>,
    ranked: Seq<(i32, usize)>,
    staff_count: int,
) -> bool {
    &&& next.len() == prev.len()
    &&& forall|k: int|
        0 <= k < elite_count(prev.len() as int) ==> #[trigger] next[k] == prev[ranked[k].1 as int]
    &&& forall|k: int|
        elite_count(prev.len() as int) <= k < next.len() ==> #[trigger] bred_from(
            next[k],
            prev,
            ranked,
            staff_count,
        )
}

/// A run of the search: `trace[g]` is the population of generation `g` and
/// `rankings[g]` its ranking. Each generation but the last was ranked
/// without a baseline score at its top and bred the next one. With no
/// generation to run, the result is the first roster of the initial
/// population; otherwise it is the top of the last ranking, which either
/// reached the baseline or was the last generation allowed.
pub open spec fn is_search_result(
    trace: Seq<Seq<Seq<Seq<i32>>>>,
    rankings: Seq<Seq<(i32, usize)>>,
    roles: Seq<String>,
    c: Map<(int, int), Tag>,
    days: int,
    staff_count: int,
    population_size: int,
    generations: int,
    roster: Seq<Seq<i32>>,
    score: int,
) -> bool {
    &&& 1 <= trace.len()
    &&& forall|g: int| 0 <= g < trace.len() ==> (#[trigger] trace[g]).len() == population_size
    &&& forall|g: int|
        0 <= g < trace.len() - 1 ==> {
            &&& is_ranking(#[trigger] rankings[g], trace[g], roles, c, days)
            &&& rankings[g][0].0 != BASELINE
            &&& is_next_generation(trace[g], trace[g + 1], rankings[g], staff_count)
        }
    &&& if generations == 0 {
        &&& trace.len() == 1
        &&& rankings.len() == 0
        &&& roster == trace[0][0]
    } else {
        let last = trace.len() - 1;
        &&& rankings.len() == trace.len() <= generations
        &&& is_ranking(rankings[last], trace[last], roles, c, days)
        &&& roster == trace[last][rankings[last][0].1 as int]
        &&& score == rankings[last][0].0
        &&& (score == BASELINE || trace.len() == generations)
    }
}

/// Number of top-ranked candidates carried over unchanged: a fifth of the
/// population, rounded down.
pub open spec fn elite_count(population_size: int) -> int {
    population_size / 5
}

/// Inputs on which the driver runs.
/// Breeding needs two staff rows to split between and a better half of at
/// least one candidate, so both are needed only when a second generation can
/// be bred.
pub open spec fn valid_run(
    roles_len: int,
    staff_count: int,
    days: int,
    population_size: int,
    generations: int,
) -> bool {
    &&& roles_len == staff_count
    &&& 1 <= staff_count
    &&& 1 <= days
    &&& 1 <= population_size
    &&& (generations >= 2 ==> 2 <= staff_count && 2 <= population_size)
    &&& penalty_fits(staff_count, days)
}

fn copy_row(row: &Vec<i32>) -> (r: Vec<i32>)
    ensures
        r@ == row@,
{
    let r = row.clone();
    proof {
        assert(r@ =~= row@);
    }
    r
}

fn copy_roster(v: &Vec<Vec<i32>>) -> (r: Vec<Vec<i32>>)
    ensures
        grid(r@) == grid(v@),
{
    let mut r: Vec<Vec<i32>> = Vec::new();
    let mut i: usize = 0;
    while i < v.len()
        invariant
            i <= v.len(),
            r.len() == i,
            forall|k: int| 0 <= k < i ==> (#[trigger] r@[k])@ == v@[k]@,
        decreases v.len() - i,
    {
        r.push(copy_row(&v[i]));
        i = i + 1;
    }
    assert(grid(r@) =~= grid(v@));
    r
}

fn random_shift(rng: &mut ThreadRng) -> (x: i32)
    ensures
        is_shift(x),
{
    draw_below(rng, 0, 3) as i32
}

/// A roster whose cells are drawn independently and uniformly.
fn random_roster(rng: &mut ThreadRng, staff_count: usize, days: usize) -> (r: Vec<Vec<i32>>)
    ensures
        is_roster(grid(r@), staff_count as int, days as int),
{
    let mut schedule: Vec<Vec<i32>> = Vec::new();
    let mut s: usize = 0;
    while s < staff_count
        invariant
            s <= staff_count,
            schedule.len() == s,
            is_roster(grid(schedule@), s as int, days as int),
        decreases staff_count - s,
    {
        let mut row: Vec<i32> = Vec::new();
        let mut d: usize = 0;
        while d < days
            invariant
                d <= days,
                row.len() == d,
                forall|j: int| 0 <= j < d ==> is_shift(#[trigger] row@[j]),
            decreases days - d,
        {
            let x = random_shift(rng);
            row.push(x);
            d = d + 1;
        }
        let ghost before = schedule@;
        let ghost row_view = row@;
        schedule.push(row);
        assert(grid(schedule@) =~= grid(before).push(row_view));
        s = s + 1;
    }
    schedule
}

/// Single-point crossover over staff rows: rows before `split` come from
/// `parent1`, the rest from `parent2`.
pub fn crossover(parent1: &Vec<Vec<i32>>, parent2: &Vec<Vec<i32>>, split: usize) -> (child: Vec<
    Vec<i32>,
>)
    requires
        parent1.len() == parent2.len(),
        split <= parent1.len(),
    ensures
        grid(child@) == grid(parent1@).take(split as int) + grid(parent2@).skip(split as int),
{
    let mut child: Vec<Vec<i32>> = Vec::new();
    let mut i: usize = 0;
    while i < parent1.len()
        invariant
            i <= parent1.len() == parent2.len(),
            split <= parent1.len(),
            child.len() == i,
            forall|k: int|
                0 <= k < i ==> (#[trigger] child@[k])@ == (if k < split {
                    parent1@[k]@
                } else {
                    parent2@[k]@
                }),
        decreases parent1.len() - i,
    {
        let row = if i < split {
            copy_row(&parent1[i])
        } else {
            copy_row(&parent2[i])
        };
        child.push(row);
        i = i + 1;
    }
    assert(grid(child@) =~= grid(parent1@).take(split as int) + grid(parent2@).skip(split as int));
    child
}

/// Overwrites one cell of a roster.
pub fn mutate(child: &mut Vec<Vec<i32>>, staff: usize, day: usize, shift: i32)
    requires
        staff < old(child).len(),
        day < old(child)@[staff as int].len(),
    ensures
        grid(final(child)@) == grid(old(child)@).update(
            staff as int,
            grid(old(child)@)[staff as int].update(day as int, shift),
        ),
{
    let ghost before = grid(child@);
    let mut row = copy_row(&child[staff]);
    row.set(day, shift);
    child.set(staff, row);
    assert(grid(child@) =~= before.update(staff as int, before[staff as int].update(day as int, shift)));
}

/// Scores every candidate and orders the (score, index) pairs best first.
/// Candidates with equal scores come in an unspecified order.
pub fn rank_population(
    population: &Vec<Vec<Vec<i32>>>,
    roles: &Vec<String>,
    constraints: &ConstraintSet,
    days: usize,
    staff_count: usize,
) -> (ranked: Vec<(i32, usize)>)
    requires
        forall|i: int|
            0 <= i < population.len() ==> is_rectangular(
                #[trigger] grid(population@[i]@),
                staff_count as int,
                days as int,
            ),
        roles.len() == staff_count,
        penalty_fits(staff_count as int, days as int),
    ensures
        is_ranking(ranked@, pop_grid(population@), roles@, constraints@, days as int),
{
    let ghost target = scored(pop_grid(population@), roles@, constraints@, days as int);
    let mut scores: Vec<(i32, usize)> = Vec::new();
    let mut i: usize = 0;
    while i < population.len()
        invariant
            i <= population.len(),
            target == scored(pop_grid(population@), roles@, constraints@, days as int),
            forall|j: int|
                0 <= j < population.len() ==> is_rectangular(
                    #[trigger] grid(population@[j]@),
                    staff_count as int,
                    days as int,
                ),
            roles.len() == staff_count,
            penalty_fits(staff_count as int, days as int),
            scores@ == target.take(i as int),
            forall|j: int|
                0 <= j < i ==> (#[trigger] scores@[j]).0 == score_of(
                    grid(population@[j]@),
                    roles@,
                    constraints@,
                    days as int,
                ),
        decreases population.len() - i,
    {
        assert(is_rectangular(grid(population@[i as int]@), staff_count as int, days as int));
        let sc = calculate_single_score(&population[i], roles, constraints, days, staff_count);
        scores.push((sc, i));
        assert(scores@ =~= target.take(i + 1));
        i = i + 1;
    }
    assert(scores@ =~= target);
    let ghost sv = scores@;
    let ranked = rank(scores);
    assert forall|k: int| 0 <= k < ranked@.len() implies {
        &&& (#[trigger] ranked@[k]).1 < population.len()
        &&& ranked@[k].0 == score_of(
            pop_grid(population@)[ranked@[k].1 as int],
            roles@,
            constraints@,
            days as int,
        )
    } by {
        assert(sv.contains(ranked@[k]));
        let j = choose|j: int| 0 <= j < sv.len() && sv[j] == ranked@[k];
        assert(sv[j].0 == score_of(grid(population@[j]@), roles@, constraints@, days as int));
        assert(pop_grid(population@)[j] == grid(population@[j]@));
    }
    ranked
}

fn initial_population(
    rng: &mut ThreadRng,
    population_size: usize,
    staff_count: usize,
    days: usize,
) -> (p: Vec<Vec<Vec<i32>>>)
    ensures
        p.len() == population_size,
        all_rosters(p@, staff_count as int, days as int),
{
    let mut p: Vec<Vec<Vec<i32>>> = Vec::new();
    while p.len() < population_size
        invariant
            p.len() <= population_size,
            all_rosters(p@, staff_count as int, days as int),
        decreases population_size - p.len(),
    {
        let r = random_roster(rng, staff_count, days);
        p.push(r);
    }
    p
}

/// A child of two rosters of the same shape, by crossover and, one time in
/// five, a mutation of one random cell.
fn breed(
    rng: &mut ThreadRng,
    parent1: &Vec<Vec<i32>>,
    parent2: &Vec<Vec<i32>>,
    staff_count: usize,
    days: usize,
) -> (child: Vec<Vec<i32>>)
    requires
        is_roster(grid(parent1@), staff_count as int, days as int),
        is_roster(grid(parent2@), staff_count as int, days as int),
        2 <= staff_count,
        1 <= days,
    ensures
        is_roster(grid(child@), staff_count as int, days as int),
        is_child_of(grid(child@), grid(parent1@), grid(parent2@), staff_count as int),
{
    let split = draw_below(rng, 1, staff_count);
    let mut child = crossover(parent1, parent2, split);
    let ghost crossed = grid(parent1@).take(split as int) + grid(parent2@).skip(split as int);
    assert(is_roster(grid(child@), staff_count as int, days as int)) by {
        let g = grid(child@);
        assert forall|s: int| 0 <= s < staff_count implies #[trigger] g[s] == (if s < split {
            grid(parent1@)[s]
        } else {
            grid(parent2@)[s]
        }) by {}
    }
    if draw_ratio(rng, 1, 5) {
        let staff = draw_below(rng, 0, staff_count);
        let day = draw_below(rng, 0, days);
        let x = random_shift(rng);
        assert(child@[staff as int]@ == grid(child@)[staff as int]);
        let ghost before = grid(child@);
        mutate(&mut child, staff, day, x);
        assert(is_roster(grid(child@), staff_count as int, days as int)) by {
            let g = grid(child@);
            assert forall|s: int, d: int|
                0 <= s < staff_count && 0 <= d < days implies is_shift(#[trigger] g[s][d]) by {
                if s != staff {
                    assert(g[s] == before[s]);
                }
            }
        }
        let ghost g = grid(child@);
        assert(g[staff as int][day as int] == x);
        assert(g == crossed.update(staff as int, crossed[staff as int].update(day as int, g[staff as int][day as int])));
        assert(within_one_cell(g, crossed));
    }
    assert(within_one_cell(grid(child@), grid(parent1@).take(split as int) + grid(parent2@).skip(split as int)));
    child
}

/// The next generation: the elite copied unchanged, then children of
/// parents drawn from the better half of the ranking.
fn next_generation(
    rng: &mut ThreadRng,
    population: &Vec<Vec<Vec<i32>>>,
    ranked: &Vec<(i32, usize)>,
    staff_count: usize,
    days: usize,
) -> (next: Vec<Vec<Vec<i32>>>)
    requires
        2 <= population.len(),
        ranked.len() == population.len(),
        forall|k: int| 0 <= k < ranked.len() ==> (#[trigger] ranked@[k]).1 < population.len(),
        all_rosters(population@, staff_count as int, days as int),
        2 <= staff_count,
        1 <= days,
    ensures
        next.len() == population.len(),
        all_rosters(next@, staff_count as int, days as int),
        is_next_generation(pop_grid(population@), pop_grid(next@), ranked@, staff_count as int),
{
    let population_size = population.len();
    let elite = population_size / 5;
    let half = population_size / 2;
    let mut next: Vec<Vec<Vec<i32>>> = Vec::new();
    while next.len() < elite
        invariant
            next.len() <= elite == population_size / 5,
            population_size == population.len() == ranked.len(),
            forall|k: int| 0 <= k < ranked.len() ==> (#[trigger] ranked@[k]).1 < population.len(),
            all_rosters(population@, staff_count as int, days as int),
            all_rosters(next@, staff_count as int, days as int),
            forall|k: int|
                0 <= k < next.len() ==> grid(#[trigger] next@[k]@) == grid(
                    population@[ranked@[k].1 as int]@,
                ),
        decreases elite - next.len(),
    {
        let k = next.len();
        let idx = ranked[k].1;
        assert(is_roster(grid(population@[idx as int]@), staff_count as int, days as int));
        let r = copy_roster(&population[idx]);
        next.push(r);
    }
    let ghost pp = pop_grid(population@);
    assert(pp.len() == population.len());
    assert(half == pp.len() / 2);
    assert forall|k: int| 0 <= k < next.len() implies #[trigger] pop_grid(next@)[k]
        == pp[ranked@[k].1 as int] by {
        assert(grid(next@[k]@) == grid(population@[ranked@[k].1 as int]@));
    }
    while next.len() < population_size
        invariant
            elite <= next.len() <= population_size,
            elite == population_size / 5,
            half == population_size / 2,
            2 <= population_size,
            2 <= staff_count,
            1 <= days,
            population_size == population.len() == ranked.len(),
            pp == pop_grid(population@),
            half == pp.len() / 2,
            forall|k: int| 0 <= k < ranked.len() ==> (#[trigger] ranked@[k]).1 < population.len(),
            all_rosters(population@, staff_count as int, days as int),
            all_rosters(next@, staff_count as int, days as int),
            forall|k: int|
                0 <= k < elite ==> #[trigger] pop_grid(next@)[k] == pp[ranked@[k].1 as int],
            forall|k: int|
                elite <= k < next.len() ==> #[trigger] bred_from(
                    pop_grid(next@)[k],
                    pp,
                    ranked@,
                    staff_count as int,
                ),
        decreases population_size - next.len(),
    {
        let a = draw_below(rng, 0, half);
        let b = draw_below(rng, 0, half);
        let i1 = ranked[a].1;
        let i2 = ranked[b].1;
        assert(is_roster(grid(population@[i1 as int]@), staff_count as int, days as int));
        assert(is_roster(grid(population@[i2 as int]@), staff_count as int, days as int));
        let child = breed(rng, &population[i1], &population[i2], staff_count, days);
        let ghost before = next@;
        let ghost cv = grid(child@);
        assert(pp[i1 as int] == grid(population@[i1 as int]@));
        assert(pp[i2 as int] == grid(population@[i2 as int]@));
        assert(is_child_of(cv, pp[ranked@[a as int].1 as int], pp[ranked@[b as int].1 as int], staff_count as int));
        assert(bred_from(cv, pp, ranked@, staff_count as int));
        next.push(child);
        assert(pop_grid(next@) =~= pop_grid(before).push(cv));
    }
    next
}

/// Decides, once a generation is ranked, whether the search ends: it ends
/// with the top-ranked roster and its score when that score is the baseline
/// or when this was the last generation allowed.
pub fn pick_result(
    population: &Vec<Vec<Vec<i32>>>,
    ranked: &Vec<(i32, usize)>,
    generation: usize,
    generations: usize,
) -> (r: Option<(Vec<Vec<i32>>, i32)>)
    requires
        0 < ranked.len(),
        ranked@[0].1 < population.len(),
        generation < generations,
    ensures
        r.is_some() <==> (ranked@[0].0 == BASELINE || generation + 1 == generations),
        r matches Some(found) ==> grid(found.0@) == grid(population@[ranked@[0].1 as int]@)
            && found.1 == ranked@[0].0,
{
    let best = ranked[0];
    if best.0 == BASELINE || generation + 1 == generations {
        Some((copy_roster(&population[best.1]), best.0))
    } else {
        None
    }
}

/// Evolves a population of random rosters for at most `generations`
/// generations and returns the best roster with its score. The search stops
/// at the first generation whose best candidate reaches the baseline;
/// otherwise it returns the best candidate of the last generation ranked.
/// With no generation to run, the first random roster is returned with its
/// score.
pub fn run_genetic_algorithm(
    roles: Vec<String>,
    constraints: ConstraintSet,
    days: usize,
    staff_count: usize,
    population_size: usize,
    generations: usize,
) -> (result: (Vec<Vec<i32>>, i32))
    requires
        valid_run(
            roles.len() as int,
            staff_count as int,
            days as int,
            population_size as int,
            generations as int,
        ),
    ensures
        is_roster(grid(result.0@), staff_count as int, days as int),
        result.1 == score_of(grid(result.0@), roles@, constraints@, days as int),
        result.1 <= BASELINE,
        exists|trace: Seq<Seq<Seq<Seq<i32>>>>, rankings: Seq<Seq<(i32, usize)>>|
            #[trigger] is_search_result(
                trace,
                rankings,
                roles@,
                constraints@,
                days as int,
                staff_count as int,
                population_size as int,
                generations as int,
                grid(result.0@),
                result.1 as int,
            ),
{
    let mut rng = fresh_rng();
    let mut population = initial_population(&mut rng, population_size, staff_count, days);
    let ghost mut trace: Seq<Seq<Seq<Seq<i32>>>> = seq![pop_grid(population@)];
    let ghost mut rankings: Seq<Seq<(i32, usize)>> = Seq::empty();
    let mut generation: usize = 0;
    while generation < generations
        invariant
            valid_run(
                roles.len() as int,
                staff_count as int,
                days as int,
                population_size as int,
                generations as int,
            ),
            population.len() == population_size,
            all_rosters(population@, staff_count as int, days as int),
            generation <= generations,
            generations > 0 ==> generation < generations,
            trace.len() == generation + 1,
            rankings.len() == generation,
            trace[generation as int] == pop_grid(population@),
            forall|g: int| 0 <= g < trace.len() ==> (#[trigger] trace[g]).len() == population_size,
            forall|g: int|
                0 <= g < trace.len() - 1 ==> {
                    &&& is_ranking(#[trigger] rankings[g], trace[g], roles@, constraints@, days as int)
                    &&& rankings[g][0].0 != BASELINE
                    &&& is_next_generation(trace[g], trace[g + 1], rankings[g], staff_count as int)
                },
        decreases generations - generation,
    {
        let ranked = rank_population(&population, &roles, &constraints, days, staff_count);
        assert(ranked@[0].1 < population.len());
        let picked = pick_result(&population, &ranked, generation, generations);
        match picked {
            Some(found) => {
                proof {
                    let old_rankings = rankings;
                    rankings = rankings.push(ranked@);
                    let i = ranked@[0].1 as int;
                    assert(pop_grid(population@)[i] == grid(population@[i]@));
                    assert(is_roster(grid(population@[i]@), staff_count as int, days as int));
                    lemma_score_at_most_baseline(grid(found.0@), roles@, constraints@, days as int);
                    assert forall|g: int| 0 <= g < trace.len() - 1 implies {
                        &&& is_ranking(#[trigger] rankings[g], trace[g], roles@, constraints@, days as int)
                        &&& rankings[g][0].0 != BASELINE
                        &&& is_next_generation(trace[g], trace[g + 1], rankings[g], staff_count as int)
                    } by {
                        assert(rankings[g] == old_rankings[g]);
                    }
                    assert(is_search_result(
                        trace,
                        rankings,
                        roles@,
                        constraints@,
                        days as int,
                        staff_count as int,
                        population_size as int,
                        generations as int,
                        grid(found.0@),
                        found.1 as int,
                    ));
                }
                return found;
            },
            None => {},
        }
        let next = next_generation(&mut rng, &population, &ranked, staff_count, days);
        proof {
            let old_rankings = rankings;
            let old_trace = trace;
            rankings = rankings.push(ranked@);
            trace = trace.push(pop_grid(next@));
            assert forall|g: int| 0 <= g < trace.len() - 1 implies {
                &&& is_ranking(#[trigger] rankings[g], trace[g], roles@, constraints@, days as int)
                &&& rankings[g][0].0 != BASELINE
                &&& is_next_generation(trace[g], trace[g + 1], rankings[g], staff_count as int)
            } by {
                if g < old_trace.len() - 1 {
                    assert(rankings[g] == old_rankings[g]);
                    assert(trace[g] == old_trace[g]);
                    assert(trace[g + 1] == old_trace[g + 1]);
                }
            }
            assert forall|g: int| 0 <= g < trace.len() implies (#[trigger] trace[g]).len()
                == population_size by {
                if g < old_trace.len() {
                    assert(trace[g] == old_trace[g]);
                }
            }
        }
        population = next;
        generation = generation + 1;
    }
    let first = copy_roster(&population[0]);
    let score = calculate_single_score(&first, &roles, &constraints, days, staff_count);
    proof {
        assert(is_roster(grid(population@[0]@), staff_count as int, days as int));
        assert(pop_grid(population@)[0] == grid(population@[0]@));
        lemma_score_at_most_baseline(grid(first@), roles@, constraints@, days as int);
        assert(is_search_result(
            trace,
            rankings,
            roles@,
            constraints@,
            days as int,
            staff_count as int,
            population_size as int,
            generations as int,
            grid(first@),
            score as int,
        ));
    }
    (first, score)
}

} // verus!
