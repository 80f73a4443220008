//! The evolution driver.
//!
//! One generation step evaluates the population, ranks it, copies the
//! elites, draws parents, recombines, mutates and replaces, then reports.
//! The driver repeats steps until the target score is reached
//! (`Converged`) or the generation budget is spent (`Exhausted`).  Every
//! step is pinned to a spec-level model of the whole pipeline, so a run
//! is a pure function of the configuration and the evaluator.

use vstd::prelude::*;
use vstd::arithmetic::div_mod::{lemma_div_by_multiple, lemma_div_is_ordered};
use crate::config::{EngineError, EvolutionConfig};
use crate::fitness::{fit_at_least, fit_better, Fitness, FitnessFn};
use crate::genome::{genome_wf, pop_view, pop_wf, Genome, GenomeV};
use crate::report::{hist_view, GenerationReport, ReportV};
use crate::rng::{draw_in_range, rng_next_state, Rng};
use crate::selection::{fit_of, fitness_key, select_parents, sorted_by_rank, sorted_view,
    spec_picks, lemma_sorted_view_props, lemma_spec_picks_props};
use crate::variation::{mutate_offspring, spec_mutate_all, spec_vary, vary_offspring,
    lemma_spec_mutate_all_wf, lemma_spec_vary_wf};

verus! {

/// The genes of one freshly sampled genome, with the state that remains:
/// one draw per gene.
pub open spec fn spec_sample_genes(st: u64, glen: nat, lo: i64, hi: i64) -> (Seq<i64>, u64)
    decreases glen,
{
    if glen == 0 {
        (Seq::<i64>::empty(), st)
    } else {
        let v = draw_in_range(st, lo, hi);
        let rest = spec_sample_genes(rng_next_state(st), (glen - 1) as nat, lo, hi);
        (seq![v] + rest.0, rest.1)
    }
}

/// A freshly sampled population of `n` unevaluated genomes.
pub open spec fn spec_sample_pop(st: u64, n: nat, glen: nat, lo: i64, hi: i64) -> (
    Seq<GenomeV>,
    u64,
)
    decreases n,
{
    if n == 0 {
        (Seq::<GenomeV>::empty(), st)
    } else {
        let g = spec_sample_genes(st, glen, lo, hi);
        let rest = spec_sample_pop(g.1, (n - 1) as nat, glen, lo, hi);
        (seq![GenomeV { genes: g.0, fitness: None }] + rest.0, rest.1)
    }
}

/// Sampled genes have the right count and stay within bounds.
pub proof fn lemma_spec_sample_genes_wf(st: u64, glen: nat, lo: i64, hi: i64)
    requires
        lo <= hi,
    ensures
        spec_sample_genes(st, glen, lo, hi).0.len() == glen,
        forall|j: int|
            0 <= j < glen ==> lo <= #[trigger] spec_sample_genes(st, glen, lo, hi).0[j] <= hi,
    decreases glen,
{
    if glen > 0 {
        lemma_spec_sample_genes_wf(rng_next_state(st), (glen - 1) as nat, lo, hi);
        let out = spec_sample_genes(st, glen, lo, hi).0;
        let rest = spec_sample_genes(rng_next_state(st), (glen - 1) as nat, lo, hi).0;
        assert forall|j: int| 0 <= j < glen implies lo <= #[trigger] out[j] <= hi by {
            if j >= 1 {
                assert(out[j] == rest[j - 1]);
            }
        }
    }
}

/// A sampled population is well-formed and unevaluated.
pub proof fn lemma_spec_sample_pop_wf(st: u64, n: nat, glen: nat, lo: i64, hi: i64)
    requires
        lo <= hi,
    ensures
        spec_sample_pop(st, n, glen, lo, hi).0.len() == n,
        forall|t: int|
            0 <= t < n ==> genome_wf(#[trigger] spec_sample_pop(st, n, glen, lo, hi).0[t], glen, lo, hi)
                && spec_sample_pop(st, n, glen, lo, hi).0[t].fitness is None,
    decreases n,
{
    if n > 0 {
        let g = spec_sample_genes(st, glen, lo, hi);
        lemma_spec_sample_genes_wf(st, glen, lo, hi);
        lemma_spec_sample_pop_wf(g.1, (n - 1) as nat, glen, lo, hi);
        let out = spec_sample_pop(st, n, glen, lo, hi).0;
        let rest = spec_sample_pop(g.1, (n - 1) as nat, glen, lo, hi).0;
        assert forall|t: int| 0 <= t < n implies genome_wf(#[trigger] out[t], glen, lo, hi)
            && out[t].fitness is None by {
            if t >= 1 {
                assert(out[t] == rest[t - 1]);
            }
        }
    }
}

/// One genome after evaluation: genes kept, score cached.
pub open spec fn eval_genome<F: FitnessFn>(f: F, g: GenomeV) -> GenomeV {
    GenomeV { genes: g.genes, fitness: Some(f.fitness_of(g.genes)) }
}

/// The population after the evaluation pass.
pub open spec fn spec_evaluated<F: FitnessFn>(f: F, pop: Seq<GenomeV>) -> Seq<GenomeV> {
    pop.map_values(|g: GenomeV| eval_genome(f, g))
}

/// Sum of the finite scores of the population.
pub open spec fn finite_sum(pop: Seq<GenomeV>) -> int
    decreases pop.len(),
{
    if pop.len() == 0 {
        0
    } else {
        finite_sum(pop.drop_last()) + (match fit_of(pop.last()) {
            Fitness::Finite(v) => v as int,
            Fitness::Failed => 0,
        })
    }
}

/// How many scores are finite.
pub open spec fn finite_count(pop: Seq<GenomeV>) -> int
    decreases pop.len(),
{
    if pop.len() == 0 {
        0
    } else {
        finite_count(pop.drop_last()) + (if fit_of(pop.last()) is Finite {
            1int
        } else {
            0int
        })
    }
}

/// How many evaluations produced no usable score.
pub open spec fn failed_count(pop: Seq<GenomeV>) -> int
    decreases pop.len(),
{
    if pop.len() == 0 {
        0
    } else {
        failed_count(pop.drop_last()) + (if fit_of(pop.last()) is Failed {
            1int
        } else {
            0int
        })
    }
}

/// Division truncated toward zero, as the mean is computed.
pub open spec fn div_trunc(a: int, b: int) -> int
    recommends
        b > 0,
{
    if a >= 0 {
        a / b
    } else {
        -((-a) / b)
    }
}

/// Truncated mean of the finite scores; 0 when none is finite.
pub open spec fn mean_fitness_of(pop: Seq<GenomeV>) -> int {
    if finite_count(pop) == 0 {
        0
    } else {
        div_trunc(finite_sum(pop), finite_count(pop))
    }
}

/// Counts stay within the population size and the sum within the range
/// spanned by the finite scores.
pub proof fn lemma_score_stat_bounds(pop: Seq<GenomeV>)
    ensures
        0 <= finite_count(pop) <= pop.len(),
        0 <= failed_count(pop) <= pop.len(),
        finite_count(pop) + failed_count(pop) == pop.len(),
        finite_count(pop) * (i64::MIN as int) <= finite_sum(pop),
        finite_sum(pop) <= finite_count(pop) * (i64::MAX as int),
    decreases pop.len(),
{
    if pop.len() == 0 {
    } else {
        lemma_score_stat_bounds(pop.drop_last());
        let c = finite_count(pop.drop_last());
        assert(c * (i64::MIN as int) + (i64::MIN as int) == (c + 1) * (i64::MIN as int))
            by (nonlinear_arith);
        assert(c * (i64::MAX as int) + (i64::MAX as int) == (c + 1) * (i64::MAX as int))
            by (nonlinear_arith);
    }
}

/// Evaluate every genome; scores land in their genomes' own slots.
fn evaluate_population<F: FitnessFn>(f: &F, pop: &Vec<Genome>) -> (out: Vec<Genome>)
    ensures
        pop_view(out@) == spec_evaluated(*f, pop_view(pop@)),
        out@.len() == pop@.len(),
{
    let ghost pv = pop_view(pop@);
    let mut out: Vec<Genome> = Vec::new();
    let mut i: usize = 0;
    while i < pop.len()
        invariant
            i <= pop.len(),
            pv == pop_view(pop@),
            pv.len() == pop.len(),
            out@.len() == i,
            forall|j: int| 0 <= j < i ==> (#[trigger] out@[j])@ == eval_genome(*f, pv[j]),
        decreases pop.len() - i,
    {
        let score = f.evaluate(&pop[i].genes);
        let genes = pop[i].copy_genes();
        out.push(Genome { genes, fitness: Some(score) });
        proof {
            assert(pv[i as int] == pop@[i as int]@);
        }
        i = i + 1;
    }
    proof {
        assert(pop_view(out@) =~= spec_evaluated(*f, pv));
    }
    out
}

/// Sample one fresh gene vector.
fn sample_genes(glen: usize, lo: i64, hi: i64, rng: &mut Rng) -> (out: Vec<i64>)
    requires
        lo <= hi,
    ensures
        out@ == spec_sample_genes(old(rng)@, glen as nat, lo, hi).0,
        final(rng)@ == spec_sample_genes(old(rng)@, glen as nat, lo, hi).1,
{
    let ghost st0 = rng@;
    let mut out: Vec<i64> = Vec::new();
    let mut i: usize = 0;
    proof {
        assert(out@ =~= Seq::<i64>::empty());
    }
    while i < glen
        invariant
            i <= glen,
            lo <= hi,
            out@ + spec_sample_genes(rng@, (glen - i) as nat, lo, hi).0 == spec_sample_genes(
                st0,
                glen as nat,
                lo,
                hi,
            ).0,
            spec_sample_genes(rng@, (glen - i) as nat, lo, hi).1 == spec_sample_genes(
                st0,
                glen as nat,
                lo,
                hi,
            ).1,
        decreases glen - i,
    {
        let ghost st_cur = rng@;
        let ghost before = out@;
        let v = rng.next_in_range(lo, hi);
        out.push(v);
        proof {
            let rem = (glen - i) as nat;
            let rest = spec_sample_genes(rng@, (rem - 1) as nat, lo, hi);
            assert(spec_sample_genes(st_cur, rem, lo, hi).0 == seq![
                draw_in_range(st_cur, lo, hi),
            ] + rest.0);
            assert(before.push(v) + rest.0 =~= before + (seq![v] + rest.0));
        }
        i = i + 1;
    }
    proof {
        assert(spec_sample_genes(rng@, 0, lo, hi).0 =~= Seq::<i64>::empty());
        assert(out@ + Seq::<i64>::empty() =~= out@);
    }
    out
}

/// Sample a fresh unevaluated population.
fn sample_population(n: usize, glen: usize, lo: i64, hi: i64, rng: &mut Rng) -> (out: Vec<Genome>)
    requires
        lo <= hi,
    ensures
        pop_view(out@) == spec_sample_pop(old(rng)@, n as nat, glen as nat, lo, hi).0,
        final(rng)@ == spec_sample_pop(old(rng)@, n as nat, glen as nat, lo, hi).1,
{
    let ghost st0 = rng@;
    let mut out: Vec<Genome> = Vec::new();
    let mut i: usize = 0;
    proof {
        assert(pop_view(out@) =~= Seq::<GenomeV>::empty());
    }
    while i < n
        invariant
            i <= n,
            lo <= hi,
            pop_view(out@) + spec_sample_pop(rng@, (n - i) as nat, glen as nat, lo, hi).0
                == spec_sample_pop(st0, n as nat, glen as nat, lo, hi).0,
            spec_sample_pop(rng@, (n - i) as nat, glen as nat, lo, hi).1 == spec_sample_pop(
                st0,
                n as nat,
                glen as nat,
                lo,
                hi,
            ).1,
        decreases n - i,
    {
        let ghost st_cur = rng@;
        let ghost before = pop_view(out@);
        let genes = sample_genes(glen, lo, hi, rng);
        out.push(Genome { genes, fitness: None });
        proof {
            let rem = (n - i) as nat;
            let g = spec_sample_genes(st_cur, glen as nat, lo, hi);
            let rest = spec_sample_pop(g.1, (rem - 1) as nat, glen as nat, lo, hi);
            assert(spec_sample_pop(st_cur, rem, glen as nat, lo, hi).0 == seq![
                GenomeV { genes: g.0, fitness: None },
            ] + rest.0);
            assert(pop_view(out@) =~= before.push(GenomeV { genes: g.0, fitness: None }));
            assert(before.push(GenomeV { genes: g.0, fitness: None }) + rest.0 =~= before + (seq![
                GenomeV { genes: g.0, fitness: None },
            ] + rest.0));
        }
        i = i + 1;
    }
    proof {
        assert(spec_sample_pop(rng@, 0, glen as nat, lo, hi).0 =~= Seq::<GenomeV>::empty());
        assert(pop_view(out@) + Seq::<GenomeV>::empty() =~= pop_view(out@));
    }
    out
}

/// Mean of the finite scores and count of failed evaluations.
fn population_stats(pop: &Vec<Genome>) -> (r: (i64, usize))
    ensures
        r.0 as int == mean_fitness_of(pop_view(pop@)),
        r.1 as int == failed_count(pop_view(pop@)),
{
    let ghost pv = pop_view(pop@);
    let mut sum: i128 = 0;
    let mut fcnt: usize = 0;
    let mut fail: usize = 0;
    let mut i: usize = 0;
    while i < pop.len()
        invariant
            i <= pop.len(),
            pv == pop_view(pop@),
            pv.len() == pop.len(),
            sum as int == finite_sum(pv.take(i as int)),
            fcnt as int == finite_count(pv.take(i as int)),
            fail as int == failed_count(pv.take(i as int)),
        decreases pop.len() - i,
    {
        let sc = fitness_key(&pop[i]);
        proof {
            assert(pv[i as int] == pop@[i as int]@);
            assert(pv.take(i + 1).drop_last() =~= pv.take(i as int));
            assert(pv.take(i + 1).last() == pv[i as int]);
            lemma_score_stat_bounds(pv.take(i as int));
            let c = finite_count(pv.take(i as int));
            assert(c * (i64::MIN as int) - (i64::MIN as int) >= (i128::MIN as int) + i64::MIN)
                by (nonlinear_arith)
                requires
                    0 <= c <= usize::MAX as int,
            ;
            assert(c * (i64::MAX as int) + (i64::MAX as int) <= i128::MAX as int)
                by (nonlinear_arith)
                requires
                    0 <= c <= usize::MAX as int,
            ;
        }
        match sc {
            Fitness::Finite(v) => {
                sum = sum + (v as i128);
                fcnt = fcnt + 1;
            },
            Fitness::Failed => {
                fail = fail + 1;
            },
        }
        i = i + 1;
    }
    proof {
        assert(pv.take(pv.len() as int) =~= pv);
        lemma_score_stat_bounds(pv);
    }
    let mean: i64 = if fcnt == 0 {
        0
    } else if sum >= 0 {
        let q = (sum as u128) / (fcnt as u128);
        proof {
            lemma_div_is_ordered(
                sum as int,
                (fcnt as int) * (i64::MAX as int),
                fcnt as int,
            );
            lemma_div_by_multiple(i64::MAX as int, fcnt as int);
            assert((fcnt as int) * (i64::MAX as int) == (i64::MAX as int) * (fcnt as int));
        }
        q as i64
    } else {
        let mag = (-sum) as u128;
        let q = mag / (fcnt as u128);
        proof {
            assert(mag as int == -(sum as int));
            assert(-(sum as int) <= (fcnt as int) * (-(i64::MIN as int))) by (nonlinear_arith)
                requires
                    (fcnt as int) * (i64::MIN as int) <= sum as int,
            ;
            lemma_div_is_ordered(
                mag as int,
                (fcnt as int) * (-(i64::MIN as int)),
                fcnt as int,
            );
            lemma_div_by_multiple(-(i64::MIN as int), fcnt as int);
            assert((fcnt as int) * (-(i64::MIN as int)) == (-(i64::MIN as int)) * (fcnt as int));
        }
        (-(q as i128)) as i64
    };
    (mean, fail)
}

/// Snapshot of one evaluated generation.
pub open spec fn spec_report(epop: Seq<GenomeV>, generation: u64) -> ReportV
    recommends
        epop.len() >= 1,
{
    ReportV {
        generation: generation,
        best_fitness: fit_of(sorted_view(epop)[0]),
        mean_fitness: mean_fitness_of(epop) as i64,
        failed_evaluations: failed_count(epop) as usize,
        best_genome: sorted_view(epop)[0],
    }
}

/// Result of one spec-level generation step.
pub ghost struct StepV {
    pub pop: Seq<GenomeV>,
    pub st: u64,
    pub report: ReportV,
}

/// One full generation step as a pure function: evaluate, rank, copy
/// the elites, draw parents, recombine, mutate, replace, report.
pub open spec fn spec_step<F: FitnessFn>(
    f: F,
    cfg: EvolutionConfig,
    pop: Seq<GenomeV>,
    st: u64,
    generation: u64,
) -> StepV {
    let epop = spec_evaluated(f, pop);
    let sorted = sorted_view(epop);
    let elites = sorted.take(cfg.elitism_count as int);
    let picks = spec_picks(sorted, st, (cfg.population_size - cfg.elitism_count) as nat);
    let varied = spec_vary(picks.0, picks.1, cfg.genome_length as nat, cfg.crossover_rate);
    let muted = spec_mutate_all(
        varied.0,
        varied.1,
        cfg.gene_bounds.0,
        cfg.gene_bounds.1,
        cfg.mutation_rate,
    );
    StepV { pop: elites + muted.0, st: muted.1, report: spec_report(epop, generation) }
}

/// Evaluation keeps the genes and caches exactly the evaluator's score.
pub proof fn lemma_spec_evaluated_wf<F: FitnessFn>(
    f: F,
    pop: Seq<GenomeV>,
    glen: nat,
    lo: i64,
    hi: i64,
)
    requires
        forall|t: int| 0 <= t < pop.len() ==> genome_wf(#[trigger] pop[t], glen, lo, hi),
    ensures
        spec_evaluated(f, pop).len() == pop.len(),
        forall|t: int|
            0 <= t < pop.len() ==> genome_wf(#[trigger] spec_evaluated(f, pop)[t], glen, lo, hi)
                && spec_evaluated(f, pop)[t] == eval_genome(f, pop[t]),
{
    assert forall|t: int| 0 <= t < pop.len() implies genome_wf(
        #[trigger] spec_evaluated(f, pop)[t],
        glen,
        lo,
        hi,
    ) && spec_evaluated(f, pop)[t] == eval_genome(f, pop[t]) by {
        assert(spec_evaluated(f, pop)[t] == eval_genome(f, pop[t]));
    }
}

/// One step's population is again a well-formed population of the
/// configured size, and the report carries the best genome's own score.
pub proof fn lemma_spec_step_wf<F: FitnessFn>(
    f: F,
    cfg: EvolutionConfig,
    pop: Seq<GenomeV>,
    st: u64,
    generation: u64,
)
    requires
        cfg.valid(),
        pop_wf(
            pop,
            cfg.population_size as nat,
            cfg.genome_length as nat,
            cfg.gene_bounds.0,
            cfg.gene_bounds.1,
        ),
    ensures
        pop_wf(
            spec_step(f, cfg, pop, st, generation).pop,
            cfg.population_size as nat,
            cfg.genome_length as nat,
            cfg.gene_bounds.0,
            cfg.gene_bounds.1,
        ),
        genome_wf(
            spec_step(f, cfg, pop, st, generation).report.best_genome,
            cfg.genome_length as nat,
            cfg.gene_bounds.0,
            cfg.gene_bounds.1,
        ),
        spec_step(f, cfg, pop, st, generation).report.best_fitness == fit_of(
            spec_step(f, cfg, pop, st, generation).report.best_genome,
        ),
{
    let glen = cfg.genome_length as nat;
    let lo = cfg.gene_bounds.0;
    let hi = cfg.gene_bounds.1;
    let epop = spec_evaluated(f, pop);
    lemma_spec_evaluated_wf(f, pop, glen, lo, hi);
    lemma_sorted_view_props(epop);
    let sorted = sorted_view(epop);
    assert forall|t: int| 0 <= t < sorted.len() implies genome_wf(
        #[trigger] sorted[t],
        glen,
        lo,
        hi,
    ) by {
        assert(epop.contains(sorted[t]));
        let u = choose|u: int| 0 <= u < epop.len() && epop[u] == sorted[t];
        assert(genome_wf(epop[u], glen, lo, hi));
    }
    let elites = sorted.take(cfg.elitism_count as int);
    let count = (cfg.population_size - cfg.elitism_count) as nat;
    let picks = spec_picks(sorted, st, count);
    lemma_spec_picks_props(sorted, st, count);
    assert forall|t: int| 0 <= t < picks.0.len() implies genome_wf(
        #[trigger] picks.0[t],
        glen,
        lo,
        hi,
    ) by {
        assert(sorted.contains(picks.0[t]));
        let u = choose|u: int| 0 <= u < sorted.len() && sorted[u] == picks.0[t];
        assert(genome_wf(sorted[u], glen, lo, hi));
    }
    let varied = spec_vary(picks.0, picks.1, glen, cfg.crossover_rate);
    lemma_spec_vary_wf(picks.0, picks.1, glen, cfg.crossover_rate, lo, hi);
    let muted = spec_mutate_all(varied.0, varied.1, lo, hi, cfg.mutation_rate);
    lemma_spec_mutate_all_wf(varied.0, varied.1, lo, hi, cfg.mutation_rate, glen);
    let out = spec_step(f, cfg, pop, st, generation).pop;
    assert(out.len() == cfg.population_size);
    assert forall|t: int| 0 <= t < out.len() implies genome_wf(#[trigger] out[t], glen, lo, hi) by {
        if t < cfg.elitism_count as int {
            assert(out[t] == sorted[t]);
        } else {
            assert(out[t] == muted.0[t - cfg.elitism_count]);
        }
    }
}

/// The driver's state machine.
#[derive(Clone, Copy, Debug, PartialEq, Eq, Structural)]
pub enum EngineStatus {
    /// Freshly sampled, nothing evaluated yet.
    Initialized,
    /// At least one step done, neither stop condition met.
    Running,
    /// The target score was reached.
    Converged,
    /// The generation budget was spent without reaching the target.
    Exhausted,
}

/// Mathematical value of an `Engine`.
pub ghost struct EngineV {
    pub config: EvolutionConfig,
    pub pop: Seq<GenomeV>,
    pub st: u64,
    pub generation: u64,
    pub history: Seq<ReportV>,
    pub status: EngineStatus,
    pub best: Option<GenomeV>,
}

/// Whether the run stops on this report's best score.
pub open spec fn spec_converged(cfg: EvolutionConfig, r: ReportV) -> bool {
    match cfg.target_fitness {
        Some(t) => fit_at_least(r.best_fitness, Fitness::Finite(t)),
        None => false,
    }
}

/// The better of the tracked best and a report's best.
pub open spec fn spec_best_upd(prev: Option<GenomeV>, r: ReportV) -> Option<GenomeV> {
    match prev {
        None => Some(r.best_genome),
        Some(b) => if fit_better(fit_of(r.best_genome), fit_of(b)) {
            Some(r.best_genome)
        } else {
            Some(b)
        },
    }
}

/// The best genome a history has reported, tracked report by report.
pub open spec fn spec_best_of(history: Seq<ReportV>) -> Option<GenomeV>
    decreases history.len(),
{
    if history.len() == 0 {
        None
    } else {
        spec_best_upd(spec_best_of(history.drop_last()), history.last())
    }
}

/// Engine well-formedness: a valid configuration, a population of the
/// configured shape, the generation counter within budget and live only
/// while below it, one report per finished generation, and the tracked
/// best folding the history.
pub open spec fn engine_wf(v: EngineV) -> bool {
    &&& v.config.valid()
    &&& pop_wf(
        v.pop,
        v.config.population_size as nat,
        v.config.genome_length as nat,
        v.config.gene_bounds.0,
        v.config.gene_bounds.1,
    )
    &&& v.generation <= v.config.max_generations
    &&& ((v.status is Initialized || v.status is Running) ==> v.generation
        < v.config.max_generations)
    &&& (v.status is Initialized ==> v.generation == 0)
    &&& (v.status is Converged ==> v.generation > 0)
    &&& v.history.len() == v.generation
    &&& (forall|i: int| 0 <= i < v.history.len() ==> (#[trigger] v.history[i]).generation == i)
    &&& v.best == spec_best_of(v.history)
}

/// The state a fresh engine starts in.
pub open spec fn spec_new_engine(cfg: EvolutionConfig) -> EngineV {
    let s = spec_sample_pop(
        cfg.rng_seed,
        cfg.population_size as nat,
        cfg.genome_length as nat,
        cfg.gene_bounds.0,
        cfg.gene_bounds.1,
    );
    EngineV {
        config: cfg,
        pop: s.0,
        st: s.1,
        generation: 0,
        history: Seq::<ReportV>::empty(),
        status: if cfg.max_generations == 0 {
            EngineStatus::Exhausted
        } else {
            EngineStatus::Initialized
        },
        best: None,
    }
}

/// The engine state after one step from a live state.
pub open spec fn spec_stepped<F: FitnessFn>(f: F, v: EngineV) -> EngineV {
    let sr = spec_step(f, v.config, v.pop, v.st, v.generation);
    EngineV {
        config: v.config,
        pop: sr.pop,
        st: sr.st,
        generation: (v.generation + 1) as u64,
        history: v.history.push(sr.report),
        status: if spec_converged(v.config, sr.report) {
            EngineStatus::Converged
        } else if v.generation + 1 >= v.config.max_generations {
            EngineStatus::Exhausted
        } else {
            EngineStatus::Running
        },
        best: spec_best_upd(v.best, sr.report),
    }
}

/// The evolution driver: owns the population, the generator, the
/// history and the evaluator for the whole run.
pub struct Engine<F: FitnessFn> {
    config: EvolutionConfig,
    fitness: F,
    population: Vec<Genome>,
    rng: Rng,
    generation: u64,
    history: Vec<GenerationReport>,
    status: EngineStatus,
    best: Option<Genome>,
}

impl<F: FitnessFn> View for Engine<F> {
    type V = EngineV;

    closed spec fn view(&self) -> EngineV {
        EngineV {
            config: self.config,
            pop: pop_view(self.population@),
            st: self.rng@,
            generation: self.generation,
            history: hist_view(self.history@),
            status: self.status,
            best: match self.best {
                Some(g) => Some(g@),
                None => None,
            },
        }
    }
}

impl<F: FitnessFn> Engine<F> {
    /// The evaluator this engine runs with.
    pub closed spec fn evaluator(&self) -> F {
        self.fitness
    }

    /// Build an engine: validate the configuration, seed the generator
    /// and sample the initial population within the gene bounds.
    pub fn new(config: EvolutionConfig, fitness: F) -> (r: Result<Engine<F>, EngineError>)
        ensures
            r is Ok <==> config.valid(),
            r is Err ==> r->Err_0 == EngineError::InvalidConfig,
            r is Ok ==> (r->Ok_0)@ == spec_new_engine(config),
            r is Ok ==> (r->Ok_0).evaluator() == fitness,
            r is Ok ==> engine_wf((r->Ok_0)@),
    {
        match config.validate() {
            Err(e) => {
                return Err(e);
            },
            Ok(_) => {},
        }
        let mut rng = Rng::from_seed(config.rng_seed);
        let population = sample_population(
            config.population_size,
            config.genome_length,
            config.gene_bounds.0,
            config.gene_bounds.1,
            &mut rng,
        );
        let status = if config.max_generations == 0 {
            EngineStatus::Exhausted
        } else {
            EngineStatus::Initialized
        };
        let e = Engine {
            config,
            fitness,
            population,
            rng,
            generation: 0,
            history: Vec::new(),
            status,
            best: None,
        };
        proof {
            lemma_spec_sample_pop_wf(
                config.rng_seed,
                config.population_size as nat,
                config.genome_length as nat,
                config.gene_bounds.0,
                config.gene_bounds.1,
            );
            assert(hist_view(Seq::<GenerationReport>::empty()) =~= Seq::<ReportV>::empty());
            assert(e@ == spec_new_engine(config));
        }
        Ok(e)
    }

    /// Advance exactly one generation; refused once a terminal state is
    /// reached.  The report and the whole new state are pinned by the
    /// spec-level step.
    pub fn step(&mut self) -> (r: Result<GenerationReport, EngineError>)
        requires
            engine_wf(old(self)@),
        ensures
            engine_wf(final(self)@),
            final(self).evaluator() == old(self).evaluator(),
            (old(self)@.status is Converged || old(self)@.status is Exhausted) ==> r
                == Result::<GenerationReport, EngineError>::Err(EngineError::EngineTerminated)
                && final(self)@ == old(self)@,
            !(old(self)@.status is Converged || old(self)@.status is Exhausted) ==> r is Ok
                && final(self)@ == spec_stepped(old(self).evaluator(), old(self)@) && (r->Ok_0)@
                == spec_step(
                old(self).evaluator(),
                old(self)@.config,
                old(self)@.pop,
                old(self)@.st,
                old(self)@.generation,
            ).report,
    {
        match self.status {
            EngineStatus::Converged => {
                return Err(EngineError::EngineTerminated);
            },
            EngineStatus::Exhausted => {
                return Err(EngineError::EngineTerminated);
            },
            EngineStatus::Initialized => {},
            EngineStatus::Running => {},
        }
        let ghost f = self.fitness;
        let ghost v0 = self@;
        let ghost sr = spec_step(f, v0.config, v0.pop, v0.st, v0.generation);
        proof {
            lemma_spec_step_wf(f, v0.config, v0.pop, v0.st, v0.generation);
            lemma_spec_evaluated_wf(
                f,
                v0.pop,
                v0.config.genome_length as nat,
                v0.config.gene_bounds.0,
                v0.config.gene_bounds.1,
            );
        }
        // evaluate
        let epop = evaluate_population(&self.fitness, &self.population);
        let ghost ev = spec_evaluated(f, v0.pop);
        proof {
            lemma_sorted_view_props(ev);
        }
        // rank
        let sorted = sorted_by_rank(&epop);
        // report
        let (mean, fail) = population_stats(&epop);
        let best_genome = sorted[0].duplicate();
        let best_fitness = fitness_key(&best_genome);
        let report = GenerationReport {
            generation: self.generation,
            best_fitness,
            mean_fitness: mean,
            failed_evaluations: fail,
            best_genome,
        };
        proof {
            assert(report@ == sr.report);
        }
        // elites
        let ecount = self.config.elitism_count;
        let mut next: Vec<Genome> = Vec::new();
        let mut t: usize = 0;
        while t < ecount
            invariant
                t <= ecount,
                ecount <= sorted.len(),
                pop_view(sorted@) == sorted_view(ev),
                next@.len() == t,
                forall|u: int| 0 <= u < t ==> (#[trigger] next@[u])@ == sorted_view(ev)[u],
            decreases ecount - t,
        {
            next.push(sorted[t].duplicate());
            proof {
                assert(sorted@[t as int]@ == pop_view(sorted@)[t as int]);
            }
            t = t + 1;
        }
        proof {
            assert(pop_view(next@) =~= sorted_view(ev).take(ecount as int));
        }
        // parents
        let count = self.config.population_size - ecount;
        let ghost st_before_picks = self.rng@;
        let picks = select_parents(&sorted, count, &mut self.rng);
        let ghost pk = spec_picks(sorted_view(ev), st_before_picks, count as nat);
        proof {
            lemma_spec_picks_props(sorted_view(ev), st_before_picks, count as nat);
            assert forall|u: int|
                0 <= u < picks@.len() implies (#[trigger] picks@[u]@).genes.len()
                == self.config.genome_length by {
                assert(picks@[u]@ == pop_view(picks@)[u]);
                assert(sorted_view(ev).contains(pop_view(picks@)[u]));
                let w = choose|w: int|
                    0 <= w < sorted_view(ev).len() && sorted_view(ev)[w] == pop_view(picks@)[u];
                assert(ev.contains(sorted_view(ev)[w]));
                let x = choose|x: int| 0 <= x < ev.len() && ev[x] == sorted_view(ev)[w];
                assert(genome_wf(
                    ev[x],
                    v0.config.genome_length as nat,
                    v0.config.gene_bounds.0,
                    v0.config.gene_bounds.1,
                ));
            }
        }
        // recombine
        let varied = vary_offspring(
            &picks,
            self.config.genome_length,
            self.config.crossover_rate,
            &mut self.rng,
        );
        // mutate
        let mut muted = mutate_offspring(
            varied,
            self.config.gene_bounds.0,
            self.config.gene_bounds.1,
            self.config.mutation_rate,
            &mut self.rng,
        );
        proof {
            assert(pop_view(next@ + muted@) =~= pop_view(next@) + pop_view(muted@));
        }
        // replace
        next.append(&mut muted);
        self.population = next;
        self.generation = self.generation + 1;
        self.history.push(report.duplicate());
        // track the best genome seen so far
        let replace = match &self.best {
            None => true,
            Some(b) => report.best_fitness.better_than(&fitness_key(b)),
        };
        if replace {
            self.best = Some(report.best_genome.duplicate());
        }
        // stop conditions
        let hit = match self.config.target_fitness {
            Some(tf) => report.best_fitness.at_least(&Fitness::Finite(tf)),
            None => false,
        };
        self.status = if hit {
            EngineStatus::Converged
        } else if self.generation >= self.config.max_generations {
            EngineStatus::Exhausted
        } else {
            EngineStatus::Running
        };
        proof {
            assert(hist_view(self.history@) =~= v0.history.push(sr.report));
            assert(v0.history.push(sr.report).drop_last() =~= v0.history);
            assert(self@.pop == sr.pop);
            assert(self@ == spec_stepped(f, v0));
        }
        Ok(report)
    }
}

/// The engine state after stepping until a stop condition, or until the
/// step budget `fuel` is spent.
pub open spec fn spec_run_fuel<F: FitnessFn>(f: F, v: EngineV, fuel: nat) -> EngineV
    decreases fuel,
{
    if !(v.status is Initialized || v.status is Running) {
        v
    } else if fuel == 0 {
        v
    } else {
        spec_run_fuel(f, spec_stepped(f, v), (fuel - 1) as nat)
    }
}

/// One step from a live state preserves engine well-formedness.
pub proof fn lemma_spec_stepped_wf<F: FitnessFn>(f: F, v: EngineV)
    requires
        engine_wf(v),
        v.status is Initialized || v.status is Running,
    ensures
        engine_wf(spec_stepped(f, v)),
        spec_stepped(f, v).config == v.config,
        spec_stepped(f, v).generation == v.generation + 1,
        spec_stepped(f, v).history == v.history.push(
            spec_step(f, v.config, v.pop, v.st, v.generation).report,
        ),
{
    lemma_spec_step_wf(f, v.config, v.pop, v.st, v.generation);
    let sr = spec_step(f, v.config, v.pop, v.st, v.generation);
    assert(v.history.push(sr.report).drop_last() =~= v.history);
}

/// How a run ends: the terminal state reached, the best genome found
/// (absent only when no generation ever ran) and the full history.
pub enum RunOutcome {
    /// The target score was reached.
    Converged(Genome, Vec<GenerationReport>),
    /// The generation budget was spent without reaching the target.
    Exhausted(Option<Genome>, Vec<GenerationReport>),
    /// A limited run spent its step budget before either stop condition.
    Cancelled(Option<Genome>, Vec<GenerationReport>),
}

/// Whether an outcome faithfully reports the engine state `v`.
pub open spec fn outcome_matches(o: RunOutcome, v: EngineV) -> bool {
    match o {
        RunOutcome::Converged(best, h) => {
            &&& v.status is Converged
            &&& hist_view(h@) == v.history
            &&& v.best == Some(best@)
        },
        RunOutcome::Exhausted(best, h) => {
            &&& v.status is Exhausted
            &&& hist_view(h@) == v.history
            &&& v.best == (match best {
                Some(b) => Some(b@),
                None => None::<GenomeV>,
            })
        },
        RunOutcome::Cancelled(best, h) => {
            &&& v.status is Initialized || v.status is Running
            &&& hist_view(h@) == v.history
            &&& v.best == (match best {
                Some(b) => Some(b@),
                None => None::<GenomeV>,
            })
        },
    }
}

impl<F: FitnessFn> Engine<F> {
    /// The run configuration.
    pub fn config(&self) -> (c: EvolutionConfig)
        ensures
            c == self@.config,
    {
        self.config
    }

    /// How many generations have been evaluated and replaced.
    pub fn generation(&self) -> (g: u64)
        ensures
            g == self@.generation,
    {
        self.generation
    }

    /// Where the state machine stands.
    pub fn status(&self) -> (s: EngineStatus)
        ensures
            s == self@.status,
    {
        self.status
    }

    /// Read-only view of the live population.
    pub fn current_population(&self) -> (p: &Vec<Genome>)
        ensures
            pop_view(p@) == self@.pop,
    {
        &self.population
    }

    /// A copy of the best genome any generation has reported.
    pub fn best_so_far(&self) -> (b: Option<Genome>)
        ensures
            match b {
                Some(g) => self@.best == Some(g@),
                None => self@.best is None,
            },
    {
        match &self.best {
            None => None,
            Some(g) => Some(g.duplicate()),
        }
    }

    /// A copy of the full history of reports.
    pub fn history(&self) -> (h: Vec<GenerationReport>)
        ensures
            hist_view(h@) == self@.history,
    {
        let mut h: Vec<GenerationReport> = Vec::new();
        let mut i: usize = 0;
        while i < self.history.len()
            invariant
                i <= self.history.len(),
                h@.len() == i,
                forall|j: int| 0 <= j < i ==> (#[trigger] h@[j])@ == self.history@[j]@,
            decreases self.history.len() - i,
        {
            h.push(self.history[i].duplicate());
            i = i + 1;
        }
        proof {
            assert(hist_view(h@) =~= hist_view(self.history@));
        }
        h
    }

    /// Whether the state machine can still step.
    fn live(&self) -> (b: bool)
        ensures
            b == (self@.status is Initialized || self@.status is Running),
    {
        match self.status {
            EngineStatus::Initialized => true,
            EngineStatus::Running => true,
            EngineStatus::Converged => false,
            EngineStatus::Exhausted => false,
        }
    }

    /// Package the terminal state as an outcome; callable only once the
    /// run can no longer step.
    fn terminal_outcome(&self) -> (outcome: RunOutcome)
        requires
            engine_wf(self@),
            self@.status is Converged || self@.status is Exhausted,
        ensures
            outcome_matches(outcome, self@),
            !(outcome is Cancelled),
    {
        let h = self.history();
        match self.status {
            EngineStatus::Converged => {
                proof {
                    assert(self@.history.len() > 0);
                    assert(self@.best is Some);
                }
                match self.best_so_far() {
                    Some(g) => RunOutcome::Converged(g, h),
                    None => {
                        proof {
                            assert(false);
                        }
                        RunOutcome::Exhausted(None, h)
                    },
                }
            },
            _ => RunOutcome::Exhausted(self.best_so_far(), h),
        }
    }

    /// Run to completion: step until the target score is reached or the
    /// generation budget is spent.  Never reports `Cancelled`, and the
    /// history never exceeds the generation budget.
    pub fn run(&mut self) -> (outcome: RunOutcome)
        requires
            engine_wf(old(self)@),
        ensures
            engine_wf(final(self)@),
            final(self).evaluator() == old(self).evaluator(),
            final(self)@ == spec_run_fuel(
                old(self).evaluator(),
                old(self)@,
                (old(self)@.config.max_generations - old(self)@.generation) as nat,
            ),
            final(self)@.status is Converged || final(self)@.status is Exhausted,
            final(self)@.history.len() <= old(self)@.config.max_generations,
            outcome_matches(outcome, final(self)@),
            !(outcome is Cancelled),
    {
        let ghost f = self.fitness;
        let ghost v0 = self@;
        let ghost fuel0 = (v0.config.max_generations - v0.generation) as nat;
        let mut live = self.live();
        while live
            invariant
                engine_wf(self@),
                self.evaluator() == f,
                self@.config == v0.config,
                live == (self@.status is Initialized || self@.status is Running),
                spec_run_fuel(
                    f,
                    self@,
                    (self@.config.max_generations - self@.generation) as nat,
                ) == spec_run_fuel(f, v0, fuel0),
            decreases self@.config.max_generations - self@.generation,
        {
            let ghost vpre = self@;
            let ghost fuelpre = (vpre.config.max_generations - vpre.generation) as nat;
            proof {
                assert(fuelpre > 0);
                lemma_spec_stepped_wf(f, vpre);
                assert(spec_run_fuel(f, vpre, fuelpre) == spec_run_fuel(
                    f,
                    spec_stepped(f, vpre),
                    (fuelpre - 1) as nat,
                ));
            }
            let _ = self.step();
            live = self.live();
        }
        proof {
            assert(spec_run_fuel(
                f,
                self@,
                (self@.config.max_generations - self@.generation) as nat,
            ) == self@);
        }
        self.terminal_outcome()
    }

    /// Run at most `limit` further steps.  If neither stop condition is
    /// reached within the budget, the engine stays steppable and the
    /// outcome is `Cancelled` with the best genome found so far.
    pub fn run_with_limit(&mut self, limit: u64) -> (outcome: RunOutcome)
        requires
            engine_wf(old(self)@),
        ensures
            engine_wf(final(self)@),
            final(self).evaluator() == old(self).evaluator(),
            final(self)@ == spec_run_fuel(old(self).evaluator(), old(self)@, limit as nat),
            outcome_matches(outcome, final(self)@),
    {
        let ghost f = self.fitness;
        let ghost v0 = self@;
        let mut used: u64 = 0;
        let mut live = self.live();
        while live && used < limit
            invariant
                engine_wf(self@),
                self.evaluator() == f,
                used <= limit,
                live == (self@.status is Initialized || self@.status is Running),
                spec_run_fuel(f, self@, (limit - used) as nat) == spec_run_fuel(
                    f,
                    v0,
                    limit as nat,
                ),
            decreases limit - used,
        {
            let ghost vpre = self@;
            let ghost fuelpre = (limit - used) as nat;
            proof {
                assert(fuelpre > 0);
                lemma_spec_stepped_wf(f, vpre);
                assert(spec_run_fuel(f, vpre, fuelpre) == spec_run_fuel(
                    f,
                    spec_stepped(f, vpre),
                    (fuelpre - 1) as nat,
                ));
            }
            let _ = self.step();
            used = used + 1;
            live = self.live();
        }
        proof {
            assert(spec_run_fuel(f, self@, (limit - used) as nat) == self@);
        }
        if self.live() {
            let h = self.history();
            RunOutcome::Cancelled(self.best_so_far(), h)
        } else {
            self.terminal_outcome()
        }
    }
}

} // verus!

