use evoengine::config::EvolutionConfig;
use evoengine::engine::{Engine, EngineStatus, RunOutcome};
use evoengine::fitness::{Fitness, FitnessFn, SumFitness};
use evoengine::rng::RATE_SCALE;

fn base_config() -> EvolutionConfig {
    EvolutionConfig {
        population_size: 4,
        genome_length: 1,
        gene_bounds: (0, 1_000_000),
        mutation_rate: 0,
        crossover_rate: 0,
        elitism_count: 0,
        max_generations: 5,
        target_fitness: None,
        rng_seed: 42,
    }
}

/// With full elitism and no variation, the population carries over
/// unchanged (up to rank order) and the best score never moves.
#[test]
fn scenario_full_elitism_static_population() {
    let config = EvolutionConfig {
        population_size: 4,
        genome_length: 1,
        gene_bounds: (0, 1_000_000),
        mutation_rate: 0,
        crossover_rate: 0,
        elitism_count: 4,
        max_generations: 5,
        target_fitness: None,
        rng_seed: 7,
    };
    let mut engine = Engine::new(config, SumFitness).expect("valid config");
    let mut initial: Vec<i64> = engine
        .current_population()
        .iter()
        .map(|g| g.genes[0])
        .collect();
    initial.sort();
    let outcome = engine.run();
    let history = match outcome {
        RunOutcome::Exhausted(_, h) => h,
        _ => panic!("expected exhaustion"),
    };
    assert_eq!(history.len(), 5);
    let first_best = history[0].best_fitness;
    for report in &history {
        assert_eq!(report.best_fitness, first_best);
        assert_eq!(report.failed_evaluations, 0);
    }
    let mut final_genes: Vec<i64> = engine
        .current_population()
        .iter()
        .map(|g| g.genes[0])
        .collect();
    final_genes.sort();
    assert_eq!(initial, final_genes);
}

/// With certain crossover and no elitism, one step produces two
/// offspring that recombine two picked parents at a single cut.
#[test]
fn scenario_certain_crossover_recombines() {
    let config = EvolutionConfig {
        population_size: 2,
        genome_length: 3,
        gene_bounds: (0, 1_000_000),
        mutation_rate: 0,
        crossover_rate: RATE_SCALE,
        elitism_count: 0,
        max_generations: 1,
        target_fitness: None,
        rng_seed: 12345,
    };
    let mut engine = Engine::new(config, SumFitness).expect("valid config");
    let parents: Vec<Vec<i64>> = engine
        .current_population()
        .iter()
        .map(|g| g.genes.clone())
        .collect();
    engine.step().expect("one step");
    let children: Vec<Vec<i64>> = engine
        .current_population()
        .iter()
        .map(|g| g.genes.clone())
        .collect();
    assert_eq!(children.len(), 2);
    // some pair of (possibly repeated) parents, recombined at some cut
    // in {1, 2}, must reproduce the offspring exactly
    let mut matched = false;
    for a in 0..2 {
        for b in 0..2 {
            for k in 1..3usize {
                let c0: Vec<i64> = parents[a][..k]
                    .iter()
                    .chain(parents[b][k..].iter())
                    .cloned()
                    .collect();
                let c1: Vec<i64> = parents[b][..k]
                    .iter()
                    .chain(parents[a][k..].iter())
                    .cloned()
                    .collect();
                if children[0] == c0 && children[1] == c1 {
                    matched = true;
                }
            }
        }
    }
    assert!(matched, "offspring are not a single-point recombination");
    // every offspring is freshly unevaluated
    for g in engine.current_population() {
        assert!(g.fitness.is_none());
    }
}

/// An evaluator that fails one specific genome: the analogue of a
/// non-finite score.
struct FailOnFirstGene {
    bad: i64,
}

impl FitnessFn for FailOnFirstGene {
    // ghost item of the trait; never called at runtime
    fn fitness_of(&self, _genes: vstd::seq::Seq<i64>) -> Fitness {
        unreachable!()
    }

    fn evaluate(&self, genes: &Vec<i64>) -> Fitness {
        if genes[0] == self.bad {
            Fitness::Failed
        } else {
            Fitness::Finite(genes[0])
        }
    }
}

/// A failed evaluation sinks that genome to the bottom and is counted,
/// and the run completes all the same.
#[test]
fn scenario_failed_evaluation_is_contained() {
    let config = EvolutionConfig {
        population_size: 4,
        genome_length: 1,
        gene_bounds: (0, 1_000_000),
        mutation_rate: 0,
        crossover_rate: 0,
        elitism_count: 4,
        max_generations: 3,
        target_fitness: None,
        rng_seed: 99,
    };
    let probe = Engine::new(config, SumFitness).expect("valid config");
    let bad = probe.current_population()[0].genes[0];
    let mut engine = Engine::new(config, FailOnFirstGene { bad }).expect("valid config");
    let report = engine.step().expect("first step");
    assert_eq!(report.failed_evaluations, 1);
    // the failed genome ranks last: with full elitism the population is
    // the ranked one, so the failed genome sits at the end
    let pop = engine.current_population();
    assert_eq!(pop.len(), 4);
    assert_eq!(pop[3].genes[0], bad);
    // the run completes without aborting
    let outcome = engine.run();
    match outcome {
        RunOutcome::Exhausted(best, h) => {
            assert_eq!(h.len(), 3);
            assert!(best.is_some());
            for report in &h {
                assert_eq!(report.failed_evaluations, 1);
            }
        },
        _ => panic!("expected exhaustion"),
    }
}

/// A reachable target converges before the budget is spent.
#[test]
fn scenario_reachable_target_converges() {
    let mut config = base_config();
    config.max_generations = 50;
    config.target_fitness = Some(0);
    let mut engine = Engine::new(config, SumFitness).expect("valid config");
    let outcome = engine.run();
    match outcome {
        RunOutcome::Converged(best, h) => {
            assert!(h.len() < 50);
            assert_eq!(h.len(), 1);
            match h[0].best_fitness {
                Fitness::Finite(v) => assert!(v >= 0),
                Fitness::Failed => panic!("finite scores expected"),
            }
            assert_eq!(best.genes.len(), 1);
        },
        _ => panic!("expected convergence"),
    }
    assert_eq!(engine.status(), EngineStatus::Converged);
}
