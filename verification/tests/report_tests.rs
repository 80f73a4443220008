use evoengine::config::EvolutionConfig;
use evoengine::engine::{Engine, RunOutcome};
use evoengine::fitness::{Fitness, FitnessFn, SumFitness};

/// An evaluator with a fixed score for every genome.
struct ConstantScore {
    score: i64,
}

impl FitnessFn for ConstantScore {
    // ghost item of the trait; never called at runtime
    fn fitness_of(&self, _genes: vstd::seq::Seq<i64>) -> Fitness {
        unreachable!()
    }

    fn evaluate(&self, _genes: &Vec<i64>) -> Fitness {
        Fitness::Finite(self.score)
    }
}

fn small_config() -> EvolutionConfig {
    EvolutionConfig {
        population_size: 5,
        genome_length: 2,
        gene_bounds: (0, 100),
        mutation_rate: 0,
        crossover_rate: 0,
        elitism_count: 1,
        max_generations: 2,
        target_fitness: None,
        rng_seed: 77,
    }
}

/// With a constant score, mean and best coincide with that score.
#[test]
fn constant_scores_give_exact_mean() {
    let mut engine = Engine::new(small_config(), ConstantScore { score: 41 }).expect("valid");
    let report = engine.step().expect("live step");
    assert_eq!(report.best_fitness, Fitness::Finite(41));
    assert_eq!(report.mean_fitness, 41);
    assert_eq!(report.failed_evaluations, 0);
}

/// A negative constant score truncates the mean toward zero.
#[test]
fn negative_scores_mean_truncates() {
    let mut engine = Engine::new(small_config(), ConstantScore { score: -9 }).expect("valid");
    let report = engine.step().expect("live step");
    assert_eq!(report.mean_fitness, -9);
    assert_eq!(report.best_fitness, Fitness::Finite(-9));
}

/// The engine's retained history equals the history a run hands out.
#[test]
fn outcome_history_matches_engine_history() {
    let mut engine = Engine::new(small_config(), SumFitness).expect("valid");
    let handed = match engine.run() {
        RunOutcome::Exhausted(_, h) => h,
        _ => panic!("expected exhaustion"),
    };
    let kept = engine.history();
    assert_eq!(handed.len(), kept.len());
    for (a, b) in handed.iter().zip(kept.iter()) {
        assert_eq!(a.generation, b.generation);
        assert_eq!(a.best_fitness, b.best_fitness);
        assert_eq!(a.mean_fitness, b.mean_fitness);
        assert_eq!(a.best_genome.genes, b.best_genome.genes);
    }
    assert_eq!(engine.config().population_size, 5);
}

/// When every evaluation fails, the best is failed, the mean defaults
/// to zero and every failure is counted.
#[test]
fn all_failed_evaluations_are_counted() {
    struct AlwaysFailed;

    impl FitnessFn for AlwaysFailed {
        // ghost item of the trait; never called at runtime
        fn fitness_of(&self, _genes: vstd::seq::Seq<i64>) -> Fitness {
            unreachable!()
        }

        fn evaluate(&self, _genes: &Vec<i64>) -> Fitness {
            Fitness::Failed
        }
    }

    let mut engine = Engine::new(small_config(), AlwaysFailed).expect("valid");
    let report = engine.step().expect("live step");
    assert_eq!(report.best_fitness, Fitness::Failed);
    assert_eq!(report.mean_fitness, 0);
    assert_eq!(report.failed_evaluations, 5);
}
