use evoengine::config::{EngineError, EvolutionConfig};
use evoengine::engine::Engine;
use evoengine::fitness::SumFitness;

fn valid_config() -> EvolutionConfig {
    EvolutionConfig {
        population_size: 3,
        genome_length: 2,
        gene_bounds: (0, 10),
        mutation_rate: 10_000,
        crossover_rate: 900_000,
        elitism_count: 1,
        max_generations: 4,
        target_fitness: None,
        rng_seed: 1,
    }
}

#[test]
fn valid_config_is_accepted() {
    assert!(valid_config().validate().is_ok());
    assert!(Engine::new(valid_config(), SumFitness).is_ok());
}

#[test]
fn too_small_population_is_rejected() {
    let mut c = valid_config();
    c.population_size = 1;
    assert_eq!(c.validate().unwrap_err(), EngineError::InvalidConfig);
    assert!(Engine::new(c, SumFitness).is_err());
}

#[test]
fn empty_genome_is_rejected() {
    let mut c = valid_config();
    c.genome_length = 0;
    assert_eq!(c.validate().unwrap_err(), EngineError::InvalidConfig);
}

#[test]
fn out_of_range_mutation_rate_is_rejected() {
    let mut c = valid_config();
    c.mutation_rate = 1_000_001;
    assert_eq!(c.validate().unwrap_err(), EngineError::InvalidConfig);
}

#[test]
fn out_of_range_crossover_rate_is_rejected() {
    let mut c = valid_config();
    c.crossover_rate = 2_000_000;
    assert_eq!(c.validate().unwrap_err(), EngineError::InvalidConfig);
}

#[test]
fn oversized_elitism_is_rejected() {
    let mut c = valid_config();
    c.elitism_count = 4;
    assert_eq!(c.validate().unwrap_err(), EngineError::InvalidConfig);
}

#[test]
fn inverted_gene_bounds_are_rejected() {
    let mut c = valid_config();
    c.gene_bounds = (10, 10);
    assert_eq!(c.validate().unwrap_err(), EngineError::InvalidConfig);
    c.gene_bounds = (11, 10);
    assert_eq!(c.validate().unwrap_err(), EngineError::InvalidConfig);
}

#[test]
fn boundary_rates_are_accepted() {
    let mut c = valid_config();
    c.mutation_rate = 1_000_000;
    c.crossover_rate = 0;
    c.elitism_count = 3;
    assert!(c.validate().is_ok());
}
