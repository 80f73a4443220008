//! Per-generation snapshots.

use vstd::prelude::*;
use crate::fitness::Fitness;
use crate::genome::{Genome, GenomeV};

verus! {

/// Read-only snapshot emitted once per generation step.  It is a copy:
/// the caller may retain it without aliasing live engine state.
#[derive(Debug)]
pub struct GenerationReport {
    /// Index of the generation that was evaluated.
    pub generation: u64,
    /// Best score found in that generation.
    pub best_fitness: Fitness,
    /// Truncated mean of the finite scores; 0 when none is finite.
    pub mean_fitness: i64,
    /// How many evaluations produced no usable score.
    pub failed_evaluations: usize,
    /// Copy of the genome holding the best score.
    pub best_genome: Genome,
}

/// Mathematical value of a `GenerationReport`.
pub ghost struct ReportV {
    pub generation: u64,
    pub best_fitness: Fitness,
    pub mean_fitness: i64,
    pub failed_evaluations: usize,
    pub best_genome: GenomeV,
}

impl View for GenerationReport {
    type V = ReportV;

    open spec fn view(&self) -> ReportV {
        ReportV {
            generation: self.generation,
            best_fitness: self.best_fitness,
            mean_fitness: self.mean_fitness,
            failed_evaluations: self.failed_evaluations,
            best_genome: self.best_genome@,
        }
    }
}

/// Mathematical value of a whole history.
pub open spec fn hist_view(h: Seq<GenerationReport>) -> Seq<ReportV> {
    h.map_values(|r: GenerationReport| r@)
}

impl GenerationReport {
    /// An exact copy.
    pub fn duplicate(&self) -> (r: GenerationReport)
        ensures
            r@ == self@,
    {
        GenerationReport {
            generation: self.generation,
            best_fitness: self.best_fitness,
            mean_fitness: self.mean_fitness,
            failed_evaluations: self.failed_evaluations,
            best_genome: self.best_genome.duplicate(),
        }
    }
}

} // verus!
