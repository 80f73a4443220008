//! Engine-level laws: what holds of every run.
//!
//! Determinism, the population-size invariant, the gene-bounds
//! invariant, elitism monotonicity and termination, each stated over the
//! spec-level model that the executable engine is pinned to.

use vstd::prelude::*;
use crate::config::EvolutionConfig;
use crate::engine::{engine_wf, spec_evaluated, spec_new_engine, spec_run_fuel, spec_step,
    spec_stepped, EngineV, lemma_spec_evaluated_wf, lemma_spec_sample_pop_wf, lemma_spec_step_wf,
    lemma_spec_stepped_wf};
use crate::fitness::{fit_at_least, FitnessFn};
use crate::genome::genome_wf;
use crate::report::ReportV;
use crate::selection::{fit_of, lemma_sorted_view_props, sorted_view};

verus! {

/// A fresh engine from a valid configuration is well-formed.
pub proof fn lemma_new_engine_wf(cfg: EvolutionConfig)
    requires
        cfg.valid(),
    ensures
        engine_wf(spec_new_engine(cfg)),
        spec_new_engine(cfg).history.len() == 0,
        spec_new_engine(cfg).config == cfg,
{
    lemma_spec_sample_pop_wf(
        cfg.rng_seed,
        cfg.population_size as nat,
        cfg.genome_length as nat,
        cfg.gene_bounds.0,
        cfg.gene_bounds.1,
    );
}

/// Well-formedness and the configuration survive a whole run.
pub proof fn lemma_run_preserves_wf<F: FitnessFn>(f: F, v: EngineV, fuel: nat)
    requires
        engine_wf(v),
    ensures
        engine_wf(spec_run_fuel(f, v, fuel)),
        spec_run_fuel(f, v, fuel).config == v.config,
    decreases fuel,
{
    if (v.status is Initialized || v.status is Running) && fuel > 0 {
        lemma_spec_stepped_wf(f, v);
        lemma_run_preserves_wf(f, spec_stepped(f, v), (fuel - 1) as nat);
    }
}

/// Size invariant: a well-formed engine holds exactly `population_size`
/// genomes, before and after any number of steps.
pub proof fn lemma_population_size<F: FitnessFn>(f: F, v: EngineV, fuel: nat)
    requires
        engine_wf(v),
    ensures
        v.pop.len() == v.config.population_size,
        spec_run_fuel(f, v, fuel).pop.len() == v.config.population_size,
{
    lemma_run_preserves_wf(f, v, fuel);
}

/// Bounds invariant: every gene of every genome stays within the
/// configured closed interval, before and after any number of steps.
pub proof fn lemma_gene_bounds<F: FitnessFn>(f: F, v: EngineV, fuel: nat)
    requires
        engine_wf(v),
    ensures
        forall|t: int, j: int|
            0 <= t < spec_run_fuel(f, v, fuel).pop.len() && 0 <= j < spec_run_fuel(
                f,
                v,
                fuel,
            ).pop[t].genes.len() ==> v.config.gene_bounds.0 <= #[trigger] spec_run_fuel(
                f,
                v,
                fuel,
            ).pop[t].genes[j] <= v.config.gene_bounds.1,
{
    lemma_run_preserves_wf(f, v, fuel);
    let rv = spec_run_fuel(f, v, fuel);
    assert forall|t: int, j: int|
        0 <= t < rv.pop.len() && 0 <= j < rv.pop[t].genes.len() implies v.config.gene_bounds.0
        <= #[trigger] rv.pop[t].genes[j] <= v.config.gene_bounds.1 by {
        assert(genome_wf(
            rv.pop[t],
            rv.config.genome_length as nat,
            rv.config.gene_bounds.0,
            rv.config.gene_bounds.1,
        ));
    }
}

/// Two evaluators that assign every gene vector the same score.
pub open spec fn same_scores<F: FitnessFn>(f1: F, f2: F) -> bool {
    forall|genes: Seq<i64>| #[trigger] f1.fitness_of(genes) == f2.fitness_of(genes)
}

/// Score-equal evaluators evaluate a population identically.
proof fn lemma_evaluated_same<F: FitnessFn>(f1: F, f2: F, pop: Seq<crate::genome::GenomeV>)
    requires
        same_scores(f1, f2),
    ensures
        spec_evaluated(f1, pop) == spec_evaluated(f2, pop),
{
    assert forall|t: int|
        0 <= t < pop.len() implies spec_evaluated(f1, pop)[t] == spec_evaluated(f2, pop)[t] by {
        assert(f1.fitness_of(pop[t].genes) == f2.fitness_of(pop[t].genes));
    }
    assert(spec_evaluated(f1, pop) =~= spec_evaluated(f2, pop));
}

/// Score-equal evaluators step a state identically.
proof fn lemma_stepped_same<F: FitnessFn>(f1: F, f2: F, v: EngineV)
    requires
        same_scores(f1, f2),
    ensures
        spec_stepped(f1, v) == spec_stepped(f2, v),
{
    lemma_evaluated_same(f1, f2, v.pop);
}

/// Determinism: from equal states (same configuration, population,
/// generator state and counters) and evaluators that score every gene
/// vector alike, two runs unfold into identical states, histories
/// included.
pub proof fn lemma_run_deterministic<F: FitnessFn>(f1: F, f2: F, a: EngineV, b: EngineV, fuel: nat)
    requires
        same_scores(f1, f2),
        a == b,
    ensures
        spec_run_fuel(f1, a, fuel) == spec_run_fuel(f2, b, fuel),
    decreases fuel,
{
    if (a.status is Initialized || a.status is Running) && fuel > 0 {
        lemma_stepped_same(f1, f2, a);
        lemma_run_deterministic(f1, f2, spec_stepped(f1, a), spec_stepped(f2, b), (fuel - 1) as nat);
    }
}

/// The head of the population carries the last report's best score: the
/// elite copied there re-evaluates to exactly that score.
pub open spec fn elite_carried<F: FitnessFn>(f: F, v: EngineV) -> bool {
    (v.config.elitism_count >= 1 && v.history.len() > 0) ==> (v.pop.len() > 0
        && v.history.last().best_fitness == f.fitness_of(v.pop[0].genes))
}

/// Scores of consecutive reports never regress.
pub open spec fn history_monotone(h: Seq<ReportV>) -> bool {
    forall|i: int|
        0 <= i && i + 1 < h.len() ==> fit_at_least(
            (#[trigger] h[i + 1]).best_fitness,
            h[i].best_fitness,
        )
}

/// One step from a state whose head carries the last best score reports
/// a best at least that score, and hands the carrying on.
proof fn lemma_step_monotone<F: FitnessFn>(f: F, v: EngineV)
    requires
        engine_wf(v),
        v.config.elitism_count >= 1,
        elite_carried(f, v),
    ensures
        elite_carried(f, spec_stepped(f, v)),
        v.history.len() > 0 ==> fit_at_least(
            spec_step(f, v.config, v.pop, v.st, v.generation).report.best_fitness,
            v.history.last().best_fitness,
        ),
{
    let cfg = v.config;
    let glen = cfg.genome_length as nat;
    let lo = cfg.gene_bounds.0;
    let hi = cfg.gene_bounds.1;
    let epop = spec_evaluated(f, v.pop);
    lemma_spec_evaluated_wf(f, v.pop, glen, lo, hi);
    lemma_sorted_view_props(epop);
    lemma_spec_step_wf(f, cfg, v.pop, v.st, v.generation);
    let sorted = sorted_view(epop);
    let sr = spec_step(f, cfg, v.pop, v.st, v.generation);
    // the reported best is the head's own score
    assert(sr.report.best_fitness == fit_of(sorted[0]));
    // the head is an evaluated genome, so its score is the evaluator's
    assert(epop.contains(sorted[0]));
    let u = choose|u: int| 0 <= u < epop.len() && epop[u] == sorted[0];
    assert(epop[u] == crate::engine::eval_genome(f, v.pop[u]));
    assert(fit_of(sorted[0]) == f.fitness_of(sorted[0].genes));
    // the new population's head is the first elite: the ranked head
    let v2 = spec_stepped(f, v);
    assert(v2.pop[0] == sorted.take(cfg.elitism_count as int)[0]);
    assert(v2.pop[0] == sorted[0]);
    assert(v2.history.last() == sr.report);
    assert(elite_carried(f, v2));
    if v.history.len() > 0 {
        // the previous best was copied in at the head and re-evaluates
        // to the same score; the new head ranks at least as high
        assert(epop[0] == crate::engine::eval_genome(f, v.pop[0]));
        assert(fit_of(epop[0]) == f.fitness_of(v.pop[0].genes));
        assert(fit_at_least(fit_of(sorted[0]), fit_of(epop[0])));
    }
}

/// A pushed report that does not regress keeps a history monotone.
proof fn lemma_history_push_monotone(h: Seq<ReportV>, r: ReportV)
    requires
        history_monotone(h),
        h.len() > 0 ==> fit_at_least(r.best_fitness, h.last().best_fitness),
    ensures
        history_monotone(h.push(r)),
{
    let h2 = h.push(r);
    assert forall|i: int| 0 <= i && i + 1 < h2.len() implies fit_at_least(
        (#[trigger] h2[i + 1]).best_fitness,
        h2[i].best_fitness,
    ) by {
        if i + 1 < h.len() {
            assert(h2[i] == h[i] && h2[i + 1] == h[i + 1]);
            assert(fit_at_least(h[i + 1].best_fitness, h[i].best_fitness));
        } else {
            assert(h2[i] == h[i] && h2[i + 1] == r);
            assert(h[i] == h.last());
        }
    }
}

/// Monotonicity carries through a whole run.
proof fn lemma_run_monotone<F: FitnessFn>(f: F, v: EngineV, fuel: nat)
    requires
        engine_wf(v),
        v.config.elitism_count >= 1,
        elite_carried(f, v),
        history_monotone(v.history),
    ensures
        history_monotone(spec_run_fuel(f, v, fuel).history),
    decreases fuel,
{
    if (v.status is Initialized || v.status is Running) && fuel > 0 {
        let v2 = spec_stepped(f, v);
        lemma_spec_stepped_wf(f, v);
        lemma_step_monotone(f, v);
        lemma_history_push_monotone(
            v.history,
            spec_step(f, v.config, v.pop, v.st, v.generation).report,
        );
        lemma_run_monotone(f, v2, (fuel - 1) as nat);
    }
}

/// Elitism monotonicity: with at least one elite slot, the best score a
/// fresh run reports never regresses from one generation to the next.
pub proof fn lemma_elitism_monotonic<F: FitnessFn>(f: F, cfg: EvolutionConfig, fuel: nat)
    requires
        cfg.valid(),
        cfg.elitism_count >= 1,
    ensures
        history_monotone(spec_run_fuel(f, spec_new_engine(cfg), fuel).history),
{
    lemma_new_engine_wf(cfg);
    lemma_run_monotone(f, spec_new_engine(cfg), fuel);
}

/// Termination: with fuel for the remaining budget, a run always lands
/// in a terminal state, and its history never exceeds the budget.
pub proof fn lemma_run_terminates<F: FitnessFn>(f: F, v: EngineV, fuel: nat)
    requires
        engine_wf(v),
        fuel >= v.config.max_generations - v.generation,
    ensures
        spec_run_fuel(f, v, fuel).status is Converged || spec_run_fuel(f, v, fuel).status
            is Exhausted,
        spec_run_fuel(f, v, fuel).history.len() <= v.config.max_generations,
    decreases fuel,
{
    lemma_run_preserves_wf(f, v, fuel);
    if (v.status is Initialized || v.status is Running) && fuel > 0 {
        lemma_spec_stepped_wf(f, v);
        lemma_run_terminates(f, spec_stepped(f, v), (fuel - 1) as nat);
    }
}

} // verus!
