//! Run configuration and interface errors.

use vstd::prelude::*;
use crate::rng::RATE_SCALE;

verus! {

/// Errors of the engine's programmatic interface.
#[derive(Clone, Copy, Debug, PartialEq, Eq, Structural)]
pub enum EngineError {
    /// A construction-time parameter violation; the caller must fix the
    /// configuration, a retry cannot succeed.
    InvalidConfig,
    /// A step was requested on an engine that already reached a terminal
    /// state; a programmer error, surfaced immediately.
    EngineTerminated,
}

/// Hyperparameters of one run; immutable for the run's lifetime.
///
/// Rates are parts per million (`RATE_SCALE` is certainty); gene bounds
/// are the closed interval `[gene_bounds.0, gene_bounds.1]` of fixed-point
/// gene values, and `target_fitness` is a fixed-point score.
#[derive(Clone, Copy, Debug)]
pub struct EvolutionConfig {
    /// Number of genomes in every generation.
    pub population_size: usize,
    /// Number of genes in every genome.
    pub genome_length: usize,
    /// Closed interval every gene must stay in.
    pub gene_bounds: (i64, i64),
    /// Chance, per gene of a non-elite offspring, of a reset draw.
    pub mutation_rate: u32,
    /// Chance, per parent pair, of a single-point recombination.
    pub crossover_rate: u32,
    /// How many top genomes pass to the next generation unchanged.
    pub elitism_count: usize,
    /// Generation count after which the run is exhausted.
    pub max_generations: u64,
    /// Score at which the run converges, if any.
    pub target_fitness: Option<i64>,
    /// Seed of the one generator every random draw flows through.
    pub rng_seed: u64,
}

impl EvolutionConfig {
    /// The construction-time parameter rules.
    pub open spec fn valid(self) -> bool {
        &&& self.population_size >= 2
        &&& self.genome_length >= 1
        &&& self.mutation_rate <= RATE_SCALE
        &&& self.crossover_rate <= RATE_SCALE
        &&& self.elitism_count <= self.population_size
        &&& self.gene_bounds.0 < self.gene_bounds.1
    }

    /// Check the rules: `Ok` exactly on valid configurations.
    pub fn validate(&self) -> (r: Result<(), EngineError>)
        ensures
            r is Ok <==> self.valid(),
            r is Err ==> r->Err_0 == EngineError::InvalidConfig,
    {
        if self.population_size < 2 {
            Err(EngineError::InvalidConfig)
        } else if self.genome_length == 0 {
            Err(EngineError::InvalidConfig)
        } else if self.mutation_rate > RATE_SCALE {
            Err(EngineError::InvalidConfig)
        } else if self.crossover_rate > RATE_SCALE {
            Err(EngineError::InvalidConfig)
        } else if self.elitism_count > self.population_size {
            Err(EngineError::InvalidConfig)
        } else if self.gene_bounds.0 >= self.gene_bounds.1 {
            Err(EngineError::InvalidConfig)
        } else {
            Ok(())
        }
    }
}

} // verus!
