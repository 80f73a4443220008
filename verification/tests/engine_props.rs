use evoengine::config::{EngineError, EvolutionConfig};
use evoengine::engine::{Engine, EngineStatus, RunOutcome};
use evoengine::fitness::{Fitness, SumFitness};
use evoengine::report::GenerationReport;

fn lively_config() -> EvolutionConfig {
    EvolutionConfig {
        population_size: 8,
        genome_length: 4,
        gene_bounds: (-5, 7),
        mutation_rate: 300_000,
        crossover_rate: 700_000,
        elitism_count: 2,
        max_generations: 12,
        target_fitness: None,
        rng_seed: 2024,
    }
}

fn reports_equal(a: &GenerationReport, b: &GenerationReport) -> bool {
    a.generation == b.generation && a.best_fitness == b.best_fitness
        && a.mean_fitness == b.mean_fitness && a.failed_evaluations == b.failed_evaluations
        && a.best_genome.genes == b.best_genome.genes
        && a.best_genome.fitness == b.best_genome.fitness
}

/// Determinism: two runs from the same seed produce identical histories.
#[test]
fn determinism_identical_histories() {
    let config = lively_config();
    let mut e1 = Engine::new(config, SumFitness).expect("valid config");
    let mut e2 = Engine::new(config, SumFitness).expect("valid config");
    let h1 = match e1.run() {
        RunOutcome::Exhausted(_, h) => h,
        _ => panic!("expected exhaustion"),
    };
    let h2 = match e2.run() {
        RunOutcome::Exhausted(_, h) => h,
        _ => panic!("expected exhaustion"),
    };
    assert_eq!(h1.len(), h2.len());
    for (a, b) in h1.iter().zip(h2.iter()) {
        assert!(reports_equal(a, b));
    }
}

/// A different seed gives a different trajectory.
#[test]
fn determinism_seed_matters() {
    let mut c2 = lively_config();
    c2.rng_seed = 2025;
    let mut e1 = Engine::new(lively_config(), SumFitness).expect("valid config");
    let mut e2 = Engine::new(c2, SumFitness).expect("valid config");
    e1.run();
    e2.run();
    let g1: Vec<Vec<i64>> = e1.current_population().iter().map(|g| g.genes.clone()).collect();
    let g2: Vec<Vec<i64>> = e2.current_population().iter().map(|g| g.genes.clone()).collect();
    assert_ne!(g1, g2);
}

/// Size invariant: the population never grows or shrinks.
#[test]
fn population_size_invariant() {
    let config = lively_config();
    let mut engine = Engine::new(config, SumFitness).expect("valid config");
    assert_eq!(engine.current_population().len(), 8);
    for _ in 0..12 {
        engine.step().expect("live step");
        assert_eq!(engine.current_population().len(), 8);
    }
}

/// Elitism monotonicity: with at least one elite, the best score never
/// regresses from one generation to the next.
#[test]
fn elitism_monotone_best() {
    let config = lively_config();
    let mut engine = Engine::new(config, SumFitness).expect("valid config");
    let history = match engine.run() {
        RunOutcome::Exhausted(_, h) => h,
        _ => panic!("expected exhaustion"),
    };
    assert_eq!(history.len(), 12);
    for w in history.windows(2) {
        let prev = match w[0].best_fitness {
            Fitness::Finite(v) => v,
            Fitness::Failed => panic!("finite scores expected"),
        };
        let next = match w[1].best_fitness {
            Fitness::Finite(v) => v,
            Fitness::Failed => panic!("finite scores expected"),
        };
        assert!(next >= prev, "best fitness regressed: {} then {}", prev, next);
    }
}

/// Bounds invariant: every gene of every generation stays within the
/// configured interval.
#[test]
fn gene_bounds_invariant() {
    let mut config = lively_config();
    config.mutation_rate = 1_000_000;
    let mut engine = Engine::new(config, SumFitness).expect("valid config");
    for _ in 0..12 {
        for genome in engine.current_population() {
            assert_eq!(genome.genes.len(), 4);
            for &gene in &genome.genes {
                assert!((-5..=7).contains(&gene));
            }
        }
        engine.step().expect("live step");
    }
}

/// Termination: a run without a target spends exactly its budget and
/// lands in a terminal state; further steps are refused.
#[test]
fn run_terminates_within_budget() {
    let config = lively_config();
    let mut engine = Engine::new(config, SumFitness).expect("valid config");
    let outcome = engine.run();
    match outcome {
        RunOutcome::Exhausted(best, h) => {
            assert_eq!(h.len(), 12);
            assert!(best.is_some());
        },
        _ => panic!("expected exhaustion"),
    }
    assert_eq!(engine.status(), EngineStatus::Exhausted);
    assert_eq!(engine.generation(), 12);
    assert_eq!(engine.step().unwrap_err(), EngineError::EngineTerminated);
}

/// A zero generation budget is exhausted from the start.
#[test]
fn zero_budget_is_exhausted() {
    let mut config = lively_config();
    config.max_generations = 0;
    let mut engine = Engine::new(config, SumFitness).expect("valid config");
    assert_eq!(engine.status(), EngineStatus::Exhausted);
    match engine.run() {
        RunOutcome::Exhausted(best, h) => {
            assert!(h.is_empty());
            assert!(best.is_none());
        },
        _ => panic!("expected exhaustion"),
    }
    assert_eq!(engine.step().unwrap_err(), EngineError::EngineTerminated);
}

/// A limited run that spends its step budget reports `Cancelled` with
/// the best found so far, and stays steppable.
#[test]
fn limited_run_cancels_cooperatively() {
    let config = lively_config();
    let mut engine = Engine::new(config, SumFitness).expect("valid config");
    match engine.run_with_limit(3) {
        RunOutcome::Cancelled(best, h) => {
            assert_eq!(h.len(), 3);
            assert!(best.is_some());
        },
        _ => panic!("expected cancellation"),
    }
    assert_eq!(engine.status(), EngineStatus::Running);
    assert_eq!(engine.generation(), 3);
    // the engine picks up where it left off
    match engine.run() {
        RunOutcome::Exhausted(_, h) => assert_eq!(h.len(), 12),
        _ => panic!("expected exhaustion"),
    }
}

/// Step reports carry the generation index that was evaluated, starting
/// at zero, and the history accumulates them in order.
#[test]
fn reports_are_indexed_from_zero() {
    let config = lively_config();
    let mut engine = Engine::new(config, SumFitness).expect("valid config");
    let r0 = engine.step().expect("first step");
    let r1 = engine.step().expect("second step");
    assert_eq!(r0.generation, 0);
    assert_eq!(r1.generation, 1);
    let h = engine.history();
    assert_eq!(h.len(), 2);
    assert!(reports_equal(&h[0], &r0));
    assert!(reports_equal(&h[1], &r1));
}

/// The tracked best matches the best report seen so far.
#[test]
fn best_so_far_tracks_reports() {
    let config = lively_config();
    let mut engine = Engine::new(config, SumFitness).expect("valid config");
    assert!(engine.best_so_far().is_none());
    let r = engine.step().expect("first step");
    let best = engine.best_so_far().expect("tracked after a step");
    assert_eq!(best.genes, r.best_genome.genes);
}
