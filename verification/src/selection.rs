//! Ranking and parent selection.
//!
//! A population is ranked best-first: strictly better score first, equal
//! scores kept in their original order.  Parents for the non-elite slots
//! are then drawn with replacement, fitness-proportionally over the whole
//! ranked population, falling back to uniform draws when every score is
//! the same or no score is positive.

use vstd::prelude::*;
use crate::fitness::{fit_at_least, fit_better, Fitness};
use crate::genome::{pop_view, Genome, GenomeV};
use crate::rng::{draw_below, rng_next_state, Rng};

verus! {

/// The score a genome is ranked by: an unevaluated genome ranks as failed.
pub open spec fn fit_of(g: GenomeV) -> Fitness {
    match g.fitness {
        Some(f) => f,
        None => Fitness::Failed,
    }
}

/// Strict ranking order on positions of `pop`: strictly better score
/// first; equal scores keep their original order (stable ties).
pub open spec fn ranks_before(pop: Seq<GenomeV>, i: int, j: int) -> bool {
    ||| fit_better(fit_of(pop[i]), fit_of(pop[j]))
    ||| (fit_of(pop[i]) == fit_of(pop[j]) && i < j)
}

/// The ranking order is transitive.
proof fn lemma_ranks_before_trans(pop: Seq<GenomeV>, a: int, b: int, c: int)
    requires
        ranks_before(pop, a, b),
        ranks_before(pop, b, c),
    ensures
        ranks_before(pop, a, c),
{
}

/// Distinct positions are always ordered one way or the other.
proof fn lemma_ranks_before_total(pop: Seq<GenomeV>, i: int, j: int)
    requires
        i != j,
    ensures
        ranks_before(pop, i, j) || ranks_before(pop, j, i),
{
}

/// First position of `r` whose element ranks after `x`; `r.len()` if none.
pub open spec fn insert_pos(pop: Seq<GenomeV>, r: Seq<usize>, x: usize) -> int
    decreases r.len(),
{
    if r.len() == 0 {
        0
    } else if ranks_before(pop, x as int, r[0] as int) {
        0
    } else {
        1 + insert_pos(pop, r.subrange(1, r.len() as int), x)
    }
}

/// One stable insertion into a ranked prefix.
pub open spec fn rank_insert(pop: Seq<GenomeV>, r: Seq<usize>, x: usize) -> Seq<usize> {
    r.insert(insert_pos(pop, r, x), x)
}

/// Ranking of the first `k` positions, built by stable insertion.
pub open spec fn rank_prefix(pop: Seq<GenomeV>, k: int) -> Seq<usize>
    decreases k,
{
    if k <= 0 {
        Seq::empty()
    } else {
        rank_insert(pop, rank_prefix(pop, k - 1), (k - 1) as usize)
    }
}

/// The ranking of the whole population: its positions, best first.
pub open spec fn rank_order(pop: Seq<GenomeV>) -> Seq<usize> {
    rank_prefix(pop, pop.len() as int)
}

/// Where `insert_pos` points: after everything `x` does not outrank,
/// and right before the first element it does outrank.
proof fn lemma_insert_pos_props(pop: Seq<GenomeV>, r: Seq<usize>, x: usize)
    ensures
        0 <= insert_pos(pop, r, x) <= r.len(),
        forall|t: int|
            0 <= t < insert_pos(pop, r, x) ==> !ranks_before(pop, x as int, r[t] as int),
        insert_pos(pop, r, x) < r.len() ==> ranks_before(
            pop,
            x as int,
            r[insert_pos(pop, r, x)] as int,
        ),
    decreases r.len(),
{
    if r.len() == 0 {
    } else if ranks_before(pop, x as int, r[0] as int) {
    } else {
        let tail = r.subrange(1, r.len() as int);
        lemma_insert_pos_props(pop, tail, x);
        let p = insert_pos(pop, r, x);
        assert forall|t: int| 0 <= t < p implies !ranks_before(pop, x as int, r[t] as int) by {
            if t > 0 {
                assert(tail[t - 1] == r[t]);
                assert(!ranks_before(pop, x as int, tail[t - 1] as int));
            }
        }
        if p < r.len() {
            assert(tail[p - 1] == r[p]);
        }
    }
}

/// A left-to-right scan that stops at the first element `x` outranks
/// computes exactly `insert_pos`.
proof fn lemma_insert_pos_from_scan(pop: Seq<GenomeV>, r: Seq<usize>, x: usize, p: int)
    requires
        0 <= p <= r.len(),
        forall|t: int| 0 <= t < p ==> !ranks_before(pop, x as int, r[t] as int),
        p < r.len() ==> ranks_before(pop, x as int, r[p] as int),
    ensures
        insert_pos(pop, r, x) == p,
    decreases r.len(),
{
    if r.len() == 0 {
    } else if ranks_before(pop, x as int, r[0] as int) {
        if p > 0 {
            assert(!ranks_before(pop, x as int, r[0] as int));
        }
    } else {
        assert(p > 0) by {
            if p == 0 {
                assert(ranks_before(pop, x as int, r[0] as int));
            }
        }
        let tail = r.subrange(1, r.len() as int);
        assert forall|t: int| 0 <= t < p - 1 implies !ranks_before(
            pop,
            x as int,
            tail[t] as int,
        ) by {
            assert(tail[t] == r[t + 1]);
            assert(!ranks_before(pop, x as int, r[t + 1] as int));
        }
        if p - 1 < tail.len() {
            assert(tail[p - 1] == r[p]);
        }
        lemma_insert_pos_from_scan(pop, tail, x, p - 1);
    }
}

/// Shape of a ranked prefix: it permutes the positions `0 .. k` and is
/// sorted by the ranking order.
pub proof fn lemma_rank_prefix_props(pop: Seq<GenomeV>, k: int)
    requires
        0 <= k <= usize::MAX,
    ensures
        rank_prefix(pop, k).len() == k,
        forall|t: int| 0 <= t < k ==> 0 <= (#[trigger] rank_prefix(pop, k)[t] as int) < k,
        forall|j: usize| 0 <= j < k ==> rank_prefix(pop, k).contains(j),
        forall|a: int, b: int|
            0 <= a < b < k ==> ranks_before(
                pop,
                rank_prefix(pop, k)[a] as int,
                rank_prefix(pop, k)[b] as int,
            ),
    decreases k,
{
    if k <= 0 {
    } else {
        lemma_rank_prefix_props(pop, k - 1);
        let r = rank_prefix(pop, k - 1);
        let x = (k - 1) as usize;
        lemma_insert_pos_props(pop, r, x);
        let p = insert_pos(pop, r, x);
        r.insert_ensures(p, x);
        let r2 = rank_prefix(pop, k);
        assert(r2 == r.insert(p, x));
        assert forall|t: int| 0 <= t < k implies 0 <= (#[trigger] r2[t] as int) < k by {
            if t < p {
                assert(r2[t] == r[t]);
            } else if t == p {
                assert(r2[t] == x);
            } else {
                assert(r2[t] == r[t - 1]);
            }
        }
        assert forall|j: usize| 0 <= j < k implies r2.contains(j) by {
            if j == x {
                assert(r2[p] == j);
            } else {
                assert(r.contains(j));
                let t = choose|t: int| 0 <= t < r.len() && r[t] == j;
                if t < p {
                    assert(r2[t] == j);
                } else {
                    assert(r2[t + 1] == j);
                }
            }
        }
        assert forall|a: int, b: int| 0 <= a < b < k implies ranks_before(
            pop,
            r2[a] as int,
            r2[b] as int,
        ) by {
            if b < p {
                assert(r2[a] == r[a] && r2[b] == r[b]);
            } else if b == p {
                // a < p: x does not outrank r[a], and they are distinct.
                assert(r2[a] == r[a] && r2[b] == x);
                assert(!ranks_before(pop, x as int, r[a] as int));
                assert((r[a] as int) < k - 1);
                lemma_ranks_before_total(pop, r[a] as int, x as int);
            } else if a < p {
                assert(r2[a] == r[a] && r2[b] == r[b - 1]);
                if a < b - 1 {
                    assert(ranks_before(pop, r[a] as int, r[b - 1] as int));
                } else {
                    assert(false);
                }
            } else if a == p {
                assert(r2[a] == x && r2[b] == r[b - 1]);
                assert(p < r.len());
                assert(ranks_before(pop, x as int, r[p] as int));
                if b - 1 > p {
                    assert(ranks_before(pop, r[p] as int, r[b - 1] as int));
                    lemma_ranks_before_trans(pop, x as int, r[p] as int, r[b - 1] as int);
                }
            } else {
                assert(r2[a] == r[a - 1] && r2[b] == r[b - 1]);
            }
        }
    }
}

/// The head of the ranking holds a score at least as good as every
/// genome's score.
pub proof fn lemma_rank_order_top(pop: Seq<GenomeV>)
    requires
        1 <= pop.len() <= usize::MAX,
    ensures
        rank_order(pop).len() == pop.len(),
        forall|t: int|
            0 <= t < pop.len() ==> 0 <= (#[trigger] rank_order(pop)[t] as int) < pop.len(),
        forall|j: int|
            0 <= j < pop.len() ==> fit_at_least(
                fit_of(pop[rank_order(pop)[0] as int]),
                fit_of(#[trigger] pop[j]),
            ),
{
    lemma_rank_prefix_props(pop, pop.len() as int);
    let r = rank_order(pop);
    assert forall|j: int| 0 <= j < pop.len() implies fit_at_least(
        fit_of(pop[r[0] as int]),
        fit_of(#[trigger] pop[j]),
    ) by {
        assert(r.contains(j as usize));
        let t = choose|t: int| 0 <= t < r.len() && r[t] == j as usize;
        if t == 0 {
            assert(pop[r[0] as int] == pop[j]);
        } else {
            assert(ranks_before(pop, r[0] as int, r[t] as int));
        }
    }
}

/// The score a genome is ranked by.
pub fn fitness_key(g: &Genome) -> (f: Fitness)
    ensures
        f == fit_of(g@),
{
    match g.fitness {
        Some(f) => f,
        None => Fitness::Failed,
    }
}

/// Whether position `i` ranks strictly before position `j`.
fn ranks_before_exec(pop: &Vec<Genome>, i: usize, j: usize) -> (r: bool)
    requires
        i < pop.len(),
        j < pop.len(),
    ensures
        r == ranks_before(pop_view(pop@), i as int, j as int),
{
    let fi = fitness_key(&pop[i]);
    let fj = fitness_key(&pop[j]);
    proof {
        assert(pop_view(pop@)[i as int] == pop@[i as int]@);
        assert(pop_view(pop@)[j as int] == pop@[j as int]@);
    }
    if fi.better_than(&fj) {
        true
    } else {
        fi == fj && i < j
    }
}

/// Rank every position of the population, best first, stable on ties.
pub fn rank_indices(pop: &Vec<Genome>) -> (r: Vec<usize>)
    ensures
        r@ == rank_order(pop_view(pop@)),
{
    let ghost pv = pop_view(pop@);
    let mut r: Vec<usize> = Vec::new();
    let mut k: usize = 0;
    while k < pop.len()
        invariant
            k <= pop.len(),
            pv == pop_view(pop@),
            pv.len() == pop.len(),
            r@ == rank_prefix(pv, k as int),
            r@.len() == k,
            forall|t: int| 0 <= t < r@.len() ==> (#[trigger] r@[t] as int) < k,
        decreases pop.len() - k,
    {
        proof {
            lemma_rank_prefix_props(pv, k as int);
        }
        let mut p: usize = 0;
        let mut stop = false;
        while !stop && p < r.len()
            invariant
                p <= r.len(),
                k < pop.len(),
                pv == pop_view(pop@),
                pv.len() == pop.len(),
                r@.len() == k,
                forall|t: int| 0 <= t < r@.len() ==> (#[trigger] r@[t] as int) < k,
                forall|t: int| 0 <= t < p ==> !ranks_before(pv, k as int, r@[t] as int),
                stop ==> p < r.len() && ranks_before(pv, k as int, r@[p as int] as int),
            decreases r.len() - p + (if stop { 0int } else { 1int }),
        {
            if ranks_before_exec(pop, k, r[p]) {
                stop = true;
            } else {
                p = p + 1;
            }
        }
        proof {
            if stop {
                lemma_insert_pos_from_scan(pv, r@, k as usize, p as int);
            } else {
                lemma_insert_pos_from_scan(pv, r@, k as usize, p as int);
            }
            lemma_insert_pos_props(pv, r@, k as usize);
            r@.insert_ensures(p as int, k as usize);
        }
        r.insert(p, k);
        k = k + 1;
    }
    proof {
        assert(rank_prefix(pv, pop@.len() as int) == rank_order(pv));
    }
    r
}

/// The population's genomes in rank order.
pub open spec fn sorted_view(pop: Seq<GenomeV>) -> Seq<GenomeV> {
    rank_order(pop).map_values(|x: usize| pop[x as int])
}

/// Shape of the ranked population: same length, every entry one of the
/// population's genomes, scores weakly decreasing, the head's score at
/// least every genome's score.
pub proof fn lemma_sorted_view_props(pop: Seq<GenomeV>)
    requires
        1 <= pop.len() <= usize::MAX,
    ensures
        sorted_view(pop).len() == pop.len(),
        forall|t: int| 0 <= t < pop.len() ==> pop.contains(#[trigger] sorted_view(pop)[t]),
        forall|j: int|
            0 <= j < pop.len() ==> fit_at_least(
                fit_of(sorted_view(pop)[0]),
                fit_of(#[trigger] pop[j]),
            ),
        forall|a: int, b: int|
            0 <= a < b < pop.len() ==> fit_at_least(
                fit_of(sorted_view(pop)[a]),
                fit_of(sorted_view(pop)[b]),
            ),
{
    lemma_rank_prefix_props(pop, pop.len() as int);
    lemma_rank_order_top(pop);
    let r = rank_order(pop);
    let s = sorted_view(pop);
    assert forall|t: int| 0 <= t < pop.len() implies pop.contains(#[trigger] s[t]) by {
        assert(s[t] == pop[r[t] as int]);
    }
    assert forall|a: int, b: int| 0 <= a < b < pop.len() implies fit_at_least(
        fit_of(s[a]),
        fit_of(s[b]),
    ) by {
        assert(ranks_before(pop, r[a] as int, r[b] as int));
        assert(s[a] == pop[r[a] as int]);
        assert(s[b] == pop[r[b] as int]);
    }
}

/// The population's genomes in rank order, as fresh copies.
pub fn sorted_by_rank(pop: &Vec<Genome>) -> (s: Vec<Genome>)
    ensures
        pop_view(s@) == sorted_view(pop_view(pop@)),
        s@.len() == pop@.len(),
{
    let ghost pv = pop_view(pop@);
    let n = pop.len();
    let ranks = rank_indices(pop);
    proof {
        assert(pv.len() == n as int);
        lemma_rank_prefix_props(pv, pv.len() as int);
    }
    let mut s: Vec<Genome> = Vec::new();
    let mut t: usize = 0;
    while t < ranks.len()
        invariant
            t <= ranks.len(),
            pv == pop_view(pop@),
            pv.len() == pop.len(),
            ranks@ == rank_order(pv),
            ranks@.len() == pv.len(),
            forall|u: int| 0 <= u < ranks@.len() ==> (#[trigger] ranks@[u] as int) < pop.len(),
            s@.len() == t,
            forall|u: int| 0 <= u < t ==> (#[trigger] s@[u])@ == pv[ranks@[u] as int],
        decreases ranks.len() - t,
    {
        let idx = ranks[t];
        s.push(pop[idx].duplicate());
        t = t + 1;
    }
    proof {
        assert(pop_view(s@) =~= sorted_view(pv));
    }
    s
}

/// Roulette weight: the positive part of a finite score, else 0.
pub open spec fn weight_of(g: GenomeV) -> int {
    match fit_of(g) {
        Fitness::Finite(v) => if v > 0 {
            v as int
        } else {
            0
        },
        Fitness::Failed => 0,
    }
}

/// Sum of the weights of the first `k` genomes.
pub open spec fn prefix_weight(s: Seq<GenomeV>, k: int) -> int
    decreases k,
{
    if k <= 0 {
        0
    } else {
        prefix_weight(s, k - 1) + weight_of(s[k - 1])
    }
}

/// Total roulette weight of the population.
pub open spec fn total_weight(s: Seq<GenomeV>) -> int {
    prefix_weight(s, s.len() as int)
}

/// Prefix weights are nonnegative and at most `k` times the largest score.
pub proof fn lemma_prefix_weight_bounds(s: Seq<GenomeV>, k: int)
    ensures
        0 <= prefix_weight(s, k),
        k >= 0 ==> prefix_weight(s, k) <= k * (i64::MAX as int),
    decreases (if k <= 0 { 0int } else { k }),
{
    if k <= 0 {
    } else {
        lemma_prefix_weight_bounds(s, k - 1);
        assert(weight_of(s[k - 1]) <= i64::MAX as int);
        assert((k - 1) * (i64::MAX as int) + (i64::MAX as int) == k * (i64::MAX as int))
            by (nonlinear_arith);
    }
}

/// Prefix weights grow with the prefix.
pub proof fn lemma_prefix_weight_mono(s: Seq<GenomeV>, a: int, b: int)
    requires
        a <= b,
    ensures
        prefix_weight(s, a) <= prefix_weight(s, b),
    decreases b - a,
{
    if a < b {
        lemma_prefix_weight_mono(s, a, b - 1);
        assert(weight_of(s[b - 1]) >= 0);
    }
}

/// The roulette pocket that the draw `r` lands in: the first position
/// whose cumulative weight exceeds `r`.
pub open spec fn pocket_of(s: Seq<GenomeV>, r: int) -> int
    decreases s.len(),
{
    if s.len() == 0 {
        0
    } else if r < weight_of(s[0]) {
        0
    } else {
        1 + pocket_of(s.subrange(1, s.len() as int), r - weight_of(s[0]))
    }
}

/// A prefix weight seen from behind the first element.
proof fn lemma_prefix_weight_shift(s: Seq<GenomeV>, m: int)
    requires
        1 <= m <= s.len(),
    ensures
        prefix_weight(s, m) == weight_of(s[0]) + prefix_weight(
            s.subrange(1, s.len() as int),
            m - 1,
        ),
    decreases m,
{
    let tail = s.subrange(1, s.len() as int);
    if m == 1 {
        assert(prefix_weight(s, 0) == 0);
        assert(prefix_weight(tail, 0) == 0);
    } else {
        lemma_prefix_weight_shift(s, m - 1);
        assert(tail[m - 2] == s[m - 1]);
    }
}

/// A draw below the total weight lands in a real pocket.
pub proof fn lemma_pocket_range(s: Seq<GenomeV>, r: int)
    requires
        0 <= r < total_weight(s),
    ensures
        0 <= pocket_of(s, r) < s.len(),
    decreases s.len(),
{
    if s.len() == 0 {
        assert(prefix_weight(s, 0) == 0);
    } else if r < weight_of(s[0]) {
    } else {
        let tail = s.subrange(1, s.len() as int);
        lemma_prefix_weight_shift(s, s.len() as int);
        lemma_pocket_range(tail, r - weight_of(s[0]));
    }
}

/// A scan of cumulative weights computes exactly the pocket.
pub proof fn lemma_pocket_from_scan(s: Seq<GenomeV>, r: int, p: int)
    requires
        0 <= p < s.len(),
        prefix_weight(s, p) <= r,
        r < prefix_weight(s, p + 1),
    ensures
        pocket_of(s, r) == p,
    decreases s.len(),
{
    if p == 0 {
        assert(prefix_weight(s, 0) == 0);
        assert(prefix_weight(s, 1) == weight_of(s[0]));
    } else {
        lemma_prefix_weight_mono(s, 1, p);
        assert(prefix_weight(s, 0) == 0);
        assert(prefix_weight(s, 1) == weight_of(s[0]));
        let tail = s.subrange(1, s.len() as int);
        lemma_prefix_weight_shift(s, p);
        lemma_prefix_weight_shift(s, p + 1);
        lemma_pocket_from_scan(tail, r - weight_of(s[0]), p - 1);
    }
}

/// Every genome carries the same score.
pub open spec fn all_same_fitness(s: Seq<GenomeV>) -> bool {
    forall|i: int| 0 <= i < s.len() ==> fit_of(#[trigger] s[i]) == fit_of(s[0])
}

/// Roulette has no usable bias: no positive weight, or all scores equal.
/// Selection then falls back to uniform draws.
pub open spec fn degenerate(s: Seq<GenomeV>) -> bool {
    total_weight(s) == 0 || all_same_fitness(s)
}

/// The position one parent pick lands on, from generator state `st`.
pub open spec fn spec_pick1(s: Seq<GenomeV>, st: u64) -> int {
    if degenerate(s) {
        draw_below(st, s.len() as int)
    } else {
        pocket_of(s, draw_below(st, total_weight(s)))
    }
}

/// One pick always lands inside the population.
pub proof fn lemma_pick1_in_range(s: Seq<GenomeV>, st: u64)
    requires
        1 <= s.len(),
    ensures
        0 <= spec_pick1(s, st) < s.len(),
{
    if degenerate(s) {
    } else {
        lemma_prefix_weight_bounds(s, s.len() as int);
        lemma_pocket_range(s, draw_below(st, total_weight(s)));
    }
}

/// The parents picked for `count` slots, with the generator state that
/// remains: one draw per slot, front first.
pub open spec fn spec_picks(s: Seq<GenomeV>, st: u64, count: nat) -> (Seq<GenomeV>, u64)
    decreases count,
{
    if count == 0 {
        (Seq::<GenomeV>::empty(), st)
    } else {
        let t = spec_pick1(s, st);
        let rest = spec_picks(s, rng_next_state(st), (count - 1) as nat);
        (seq![s[t]] + rest.0, rest.1)
    }
}

/// Shape of the picks: one genome of `s` per slot.
pub proof fn lemma_spec_picks_props(s: Seq<GenomeV>, st: u64, count: nat)
    requires
        1 <= s.len(),
    ensures
        spec_picks(s, st, count).0.len() == count,
        forall|t: int| 0 <= t < count ==> s.contains(#[trigger] spec_picks(s, st, count).0[t]),
    decreases count,
{
    if count > 0 {
        lemma_pick1_in_range(s, st);
        lemma_spec_picks_props(s, rng_next_state(st), (count - 1) as nat);
        let picks = spec_picks(s, st, count).0;
        let rest = spec_picks(s, rng_next_state(st), (count - 1) as nat).0;
        assert forall|t: int| 0 <= t < count implies s.contains(#[trigger] picks[t]) by {
            if t == 0 {
                assert(picks[0] == s[spec_pick1(s, st)]);
            } else {
                assert(picks[t] == rest[t - 1]);
            }
        }
    }
}

/// Roulette weight of one genome.
fn weight_key(g: &Genome) -> (w: u64)
    ensures
        w as int == weight_of(g@),
{
    match fitness_key(g) {
        Fitness::Finite(v) => if v > 0 {
            v as u64
        } else {
            0
        },
        Fitness::Failed => 0,
    }
}

/// Total roulette weight of a population.
fn population_weight(s: &Vec<Genome>) -> (t: u128)
    ensures
        t as int == total_weight(pop_view(s@)),
{
    let ghost sv = pop_view(s@);
    let mut acc: u128 = 0;
    let mut i: usize = 0;
    while i < s.len()
        invariant
            i <= s.len(),
            sv == pop_view(s@),
            sv.len() == s.len(),
            acc as int == prefix_weight(sv, i as int),
        decreases s.len() - i,
    {
        let w = weight_key(&s[i]);
        proof {
            assert(sv[i as int] == s@[i as int]@);
            lemma_prefix_weight_bounds(sv, i as int);
            assert((i as int) * (i64::MAX as int) + (i64::MAX as int) == ((i as int) + 1) * (
            i64::MAX as int)) by (nonlinear_arith);
            assert(((i as int) + 1) * (i64::MAX as int) <= u128::MAX as int) by (nonlinear_arith)
                requires
                    0 <= i as int <= usize::MAX as int,
            ;
        }
        acc = acc + (w as u128);
        i = i + 1;
    }
    acc
}

/// Whether every genome carries the same score.
fn all_same_fitness_exec(s: &Vec<Genome>) -> (b: bool)
    ensures
        b == all_same_fitness(pop_view(s@)),
{
    let ghost sv = pop_view(s@);
    if s.len() == 0 {
        return true;
    }
    let f0 = fitness_key(&s[0]);
    proof {
        assert(sv[0] == s@[0]@);
    }
    let mut i: usize = 1;
    while i < s.len()
        invariant
            1 <= i <= s.len(),
            sv == pop_view(s@),
            sv.len() == s.len(),
            s.len() >= 1,
            f0 == fit_of(sv[0]),
            forall|j: int| 0 <= j < i ==> fit_of(#[trigger] sv[j]) == fit_of(sv[0]),
        decreases s.len() - i,
    {
        let fi = fitness_key(&s[i]);
        proof {
            assert(sv[i as int] == s@[i as int]@);
        }
        if !(fi == f0) {
            proof {
                assert(fit_of(sv[i as int]) != fit_of(sv[0]));
            }
            return false;
        }
        i = i + 1;
    }
    true
}

/// One parent pick: roulette over the ranked population, or a uniform
/// draw when the roulette is degenerate.
fn pick_one(s: &Vec<Genome>, total: u128, degen: bool, rng: &mut Rng) -> (t: usize)
    requires
        1 <= s.len(),
        total as int == total_weight(pop_view(s@)),
        degen == degenerate(pop_view(s@)),
    ensures
        t as int == spec_pick1(pop_view(s@), old(rng)@),
        final(rng)@ == rng_next_state(old(rng)@),
        t < s.len(),
{
    let ghost sv = pop_view(s@);
    if degen {
        let x = rng.next_below(s.len() as u128);
        return x as usize;
    }
    proof {
        lemma_prefix_weight_bounds(sv, sv.len() as int);
    }
    let r = rng.next_below(total);
    let mut acc: u128 = 0;
    let mut p: usize = 0;
    while p < s.len()
        invariant
            p <= s.len(),
            sv == pop_view(s@),
            sv.len() == s.len(),
            total as int == total_weight(sv),
            r < total,
            r as int == draw_below(old(rng)@, total as int),
            rng@ == rng_next_state(old(rng)@),
            acc as int == prefix_weight(sv, p as int),
            prefix_weight(sv, p as int) <= r as int,
            !degenerate(sv),
        decreases s.len() - p,
    {
        let w = weight_key(&s[p]);
        proof {
            assert(sv[p as int] == s@[p as int]@);
            lemma_prefix_weight_mono(sv, p + 1, sv.len() as int);
        }
        if r < acc + (w as u128) {
            proof {
                lemma_pocket_from_scan(sv, r as int, p as int);
            }
            return p;
        }
        acc = acc + (w as u128);
        p = p + 1;
    }
    proof {
        assert(false);
    }
    0
}

/// Draw `count` parents with replacement from the ranked population.
pub fn select_parents(s: &Vec<Genome>, count: usize, rng: &mut Rng) -> (picks: Vec<Genome>)
    requires
        1 <= s.len(),
    ensures
        pop_view(picks@) == spec_picks(pop_view(s@), old(rng)@, count as nat).0,
        final(rng)@ == spec_picks(pop_view(s@), old(rng)@, count as nat).1,
        picks@.len() == count,
{
    let ghost sv = pop_view(s@);
    let ghost st0 = rng@;
    let total = population_weight(s);
    let degen = all_same_fitness_exec(s);
    let degen = degen || total == 0;
    let mut picks: Vec<Genome> = Vec::new();
    let mut i: usize = 0;
    proof {
        assert(pop_view(picks@) =~= Seq::<GenomeV>::empty());
    }
    while i < count
        invariant
            i <= count,
            1 <= s.len(),
            sv == pop_view(s@),
            sv.len() == s.len(),
            total as int == total_weight(sv),
            degen == degenerate(sv),
            picks@.len() == i,
            pop_view(picks@) + spec_picks(sv, rng@, (count - i) as nat).0 == spec_picks(
                sv,
                st0,
                count as nat,
            ).0,
            spec_picks(sv, rng@, (count - i) as nat).1 == spec_picks(sv, st0, count as nat).1,
        decreases count - i,
    {
        let ghost st_cur = rng@;
        let ghost before = pop_view(picks@);
        let t = pick_one(s, total, degen, rng);
        picks.push(s[t].duplicate());
        proof {
            let rem = (count - i) as nat;
            let rest = spec_picks(sv, rng_next_state(st_cur), (rem - 1) as nat);
            assert(spec_picks(sv, st_cur, rem).0 == seq![sv[spec_pick1(sv, st_cur)]] + rest.0);
            assert(pop_view(picks@) =~= before.push(sv[t as int]));
            assert(before.push(sv[t as int]) + rest.0 =~= before + (seq![sv[t as int]] + rest.0));
        }
        i = i + 1;
    }
    proof {
        assert(spec_picks(sv, rng@, 0).0 =~= Seq::<GenomeV>::empty());
        assert(pop_view(picks@) + Seq::<GenomeV>::empty() =~= pop_view(picks@));
    }
    picks
}

} // verus!
