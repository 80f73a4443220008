//! Evolutionary optimization engine.
//!
//! A population-based optimizer over fixed-length genomes of fixed-point
//! values: fitness-proportional selection with elitism, single-point
//! crossover, reset-style mutation, and a driver that runs generation
//! steps until convergence or exhaustion.  Every random draw flows through
//! one seeded generator, so a whole run is a deterministic function of the
//! configuration and the fitness function; `laws` states and proves the
//! run-level guarantees.
//!
//! Beside the engine stand small verified companions: descriptive
//! statistics (`analysis`), indicator thresholds (`kpi`) and transfer
//! validation (`ledger`).

pub mod analysis;
pub mod config;
pub mod engine;
pub mod fitness;
pub mod genome;
pub mod kpi;
pub mod laws;
pub mod ledger;
pub mod report;
pub mod rng;
pub mod selection;
pub mod variation;
