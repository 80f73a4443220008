//! Genomes and populations.
//!
//! A genome is a fixed-length vector of fixed-point genes plus a cached
//! score; the cache is `None` until the genome is evaluated and is reset
//! whenever variation produces new genes.

use vstd::prelude::*;
use crate::fitness::Fitness;

verus! {

/// Candidate solution: fixed-length genes plus a cached score.
#[derive(Debug)]
pub struct Genome {
    /// The gene values, fixed-point.
    pub genes: Vec<i64>,
    /// Cached score; `None` until evaluated.
    pub fitness: Option<Fitness>,
}

/// Mathematical value of a `Genome`.
pub ghost struct GenomeV {
    pub genes: Seq<i64>,
    pub fitness: Option<Fitness>,
}

impl View for Genome {
    type V = GenomeV;

    open spec fn view(&self) -> GenomeV {
        GenomeV { genes: self.genes@, fitness: self.fitness }
    }
}

/// Well-formedness of one genome against the configured shape:
/// exactly `glen` genes, each within the closed interval `[lo, hi]`.
pub open spec fn genome_wf(g: GenomeV, glen: nat, lo: i64, hi: i64) -> bool {
    &&& g.genes.len() == glen
    &&& forall|i: int| 0 <= i < g.genes.len() ==> lo <= #[trigger] g.genes[i] <= hi
}

/// Mathematical value of a whole population.
pub open spec fn pop_view(p: Seq<Genome>) -> Seq<GenomeV> {
    p.map_values(|g: Genome| g@)
}

/// Well-formedness of a population: exactly `n` genomes, all well-formed.
pub open spec fn pop_wf(p: Seq<GenomeV>, n: nat, glen: nat, lo: i64, hi: i64) -> bool {
    &&& p.len() == n
    &&& forall|i: int| 0 <= i < p.len() ==> genome_wf(#[trigger] p[i], glen, lo, hi)
}

impl Genome {
    /// A fresh copy of the gene vector.
    pub fn copy_genes(&self) -> (r: Vec<i64>)
        ensures
            r@ == self@.genes,
    {
        let mut out: Vec<i64> = Vec::new();
        let mut i: usize = 0;
        while i < self.genes.len()
            invariant
                i <= self.genes.len(),
                out@ == self.genes@.take(i as int),
            decreases self.genes.len() - i,
        {
            out.push(self.genes[i]);
            proof {
                assert(self.genes@.take(i + 1) =~= self.genes@.take(i as int).push(
                    self.genes@[i as int],
                ));
            }
            i = i + 1;
        }
        proof {
            assert(self.genes@.take(self.genes@.len() as int) =~= self.genes@);
        }
        out
    }

    /// An exact copy, cached score included.
    pub fn duplicate(&self) -> (r: Genome)
        ensures
            r@ == self@,
    {
        Genome { genes: self.copy_genes(), fitness: self.fitness }
    }
}

} // verus!
