//! Fitness values and the evaluator capability.
//!
//! Scores are fixed-point values carried in an `i64`; an evaluation that
//! produced no usable number (the analogue of a non-finite score) is
//! `Failed` and ranks below every finite score.  The engine is generic
//! over any evaluator whose score is a pure function of the genes.

use vstd::prelude::*;

verus! {

/// The outcome of evaluating one genome.
#[derive(Clone, Copy, Debug, PartialEq, Eq, Structural)]
pub enum Fitness {
    /// A usable score, higher is better.
    Finite(i64),
    /// The evaluator produced no usable score; ranks below everything.
    Failed,
}

/// Strict "ranks above": finite beats failed, larger finite beats smaller.
pub open spec fn fit_better(a: Fitness, b: Fitness) -> bool {
    match (a, b) {
        (Fitness::Finite(x), Fitness::Finite(y)) => x > y,
        (Fitness::Finite(_), Fitness::Failed) => true,
        _ => false,
    }
}

/// Non-strict counterpart of `fit_better`.
pub open spec fn fit_at_least(a: Fitness, b: Fitness) -> bool {
    fit_better(a, b) || a == b
}

impl Fitness {
    /// Strict comparison, higher rank first.
    pub fn better_than(&self, other: &Fitness) -> (r: bool)
        ensures
            r == fit_better(*self, *other),
    {
        match (self, other) {
            (Fitness::Finite(x), Fitness::Finite(y)) => *x > *y,
            (Fitness::Finite(_), Fitness::Failed) => true,
            _ => false,
        }
    }

    /// Non-strict comparison, higher rank first.
    pub fn at_least(&self, other: &Fitness) -> (r: bool)
        ensures
            r == fit_at_least(*self, *other),
    {
        self.better_than(other) || *self == *other
    }

    /// Whether this evaluation produced no usable score.
    pub fn is_failed(&self) -> (r: bool)
        ensures
            r == (*self == Fitness::Failed),
    {
        match self {
            Fitness::Failed => true,
            Fitness::Finite(_) => false,
        }
    }
}

/// Addition on scores that clamps at the ends of the `i64` range.
pub open spec fn sat_add_i64(a: i64, b: i64) -> i64 {
    if a + b > i64::MAX {
        i64::MAX
    } else if a + b < i64::MIN {
        i64::MIN
    } else {
        (a + b) as i64
    }
}

/// Left-to-right clamping sum of a sequence of scores.
pub open spec fn sum_sat(s: Seq<i64>) -> i64
    decreases s.len(),
{
    if s.len() == 0 {
        0
    } else {
        sat_add_i64(sum_sat(s.drop_last()), s.last())
    }
}

/// The evaluator capability the engine is generic over: any fitness
/// source whose score is a pure function of the genes.
pub trait FitnessFn {
    /// The score this evaluator assigns: a pure function of the genes.
    spec fn fitness_of(&self, genes: Seq<i64>) -> Fitness;

    /// Evaluate one genome's genes.
    fn evaluate(&self, genes: &Vec<i64>) -> (r: Fitness)
        ensures
            r == self.fitness_of(genes@),
    ;
}

/// The clamping sum of all genes: the library's stock evaluator.
pub struct SumFitness;

impl FitnessFn for SumFitness {
    open spec fn fitness_of(&self, genes: Seq<i64>) -> Fitness {
        Fitness::Finite(sum_sat(genes))
    }

    fn evaluate(&self, genes: &Vec<i64>) -> (r: Fitness) {
        let mut acc: i64 = 0;
        let mut i: usize = 0;
        while i < genes.len()
            invariant
                i <= genes.len(),
                acc == sum_sat(genes@.take(i as int)),
            decreases genes.len() - i,
        {
            let g = genes[i];
            let next = match acc.checked_add(g) {
                Some(v) => v,
                None => {
                    if g > 0 {
                        i64::MAX
                    } else {
                        i64::MIN
                    }
                },
            };
            proof {
                assert(genes@.take(i + 1).drop_last() =~= genes@.take(i as int));
                assert(genes@.take(i + 1).last() == genes@[i as int]);
                assert(next == sat_add_i64(acc, g));
            }
            acc = next;
            i = i + 1;
        }
        proof {
            assert(genes@.take(genes@.len() as int) =~= genes@);
        }
        Fitness::Finite(acc)
    }
}

} // verus!
