//! Variation operators: single-point crossover and reset mutation.
//!
//! Consecutive parent picks are paired; each pair recombines with the
//! configured chance at a uniformly drawn cut, an odd last pick passes
//! through.  Mutation then redraws each gene of each offspring with the
//! configured chance, uniformly within the gene bounds.  Offspring leave
//! both operators unevaluated.

use vstd::prelude::*;
use crate::genome::{genome_wf, pop_view, Genome, GenomeV};
use crate::rng::{draw_bernoulli, draw_below, draw_in_range, rng_next_state, Rng, RATE_SCALE};

verus! {

/// A genome reset to unevaluated, genes kept.
pub open spec fn reset_fitness(g: GenomeV) -> GenomeV {
    GenomeV { genes: g.genes, fitness: None }
}

/// The two children of a single-point recombination at cut `k`.
pub open spec fn cross_genes(a: Seq<i64>, b: Seq<i64>, k: int) -> (Seq<i64>, Seq<i64>) {
    (a.take(k) + b.skip(k), b.take(k) + a.skip(k))
}

/// One parent pair's offspring with the generator state that remains:
/// one chance draw, plus one cut draw when recombination fires.  Genomes
/// of fewer than two genes cannot recombine, so no draw is spent on them.
pub open spec fn spec_vary_pair(a: GenomeV, b: GenomeV, st: u64, glen: nat, rate: u32) -> (
    Seq<GenomeV>,
    u64,
) {
    if glen < 2 {
        (seq![reset_fitness(a), reset_fitness(b)], st)
    } else {
        let fire = draw_bernoulli(st, rate);
        let st1 = rng_next_state(st);
        if fire {
            let k = 1 + draw_below(st1, glen - 1);
            let c = cross_genes(a.genes, b.genes, k);
            (
                seq![
                    GenomeV { genes: c.0, fitness: None },
                    GenomeV { genes: c.1, fitness: None },
                ],
                rng_next_state(st1),
            )
        } else {
            (seq![reset_fitness(a), reset_fitness(b)], st1)
        }
    }
}

/// Offspring of all picked parents: pairs are consumed front first, an
/// odd last pick passes through unevaluated.
pub open spec fn spec_vary(picks: Seq<GenomeV>, st: u64, glen: nat, rate: u32) -> (
    Seq<GenomeV>,
    u64,
)
    decreases picks.len(),
{
    if picks.len() == 0 {
        (Seq::<GenomeV>::empty(), st)
    } else if picks.len() == 1 {
        (seq![reset_fitness(picks[0])], st)
    } else {
        let p = spec_vary_pair(picks[0], picks[1], st, glen, rate);
        let rest = spec_vary(picks.skip(2), p.1, glen, rate);
        (p.0 + rest.0, rest.1)
    }
}

/// One genome's genes after the mutation pass, with the state that
/// remains: one chance draw per gene, one value draw on a trigger.
pub open spec fn spec_mutate_genes(genes: Seq<i64>, st: u64, lo: i64, hi: i64, rate: u32) -> (
    Seq<i64>,
    u64,
)
    decreases genes.len(),
{
    if genes.len() == 0 {
        (Seq::<i64>::empty(), st)
    } else {
        let fire = draw_bernoulli(st, rate);
        let st1 = rng_next_state(st);
        if fire {
            let v = draw_in_range(st1, lo, hi);
            let st2 = rng_next_state(st1);
            let rest = spec_mutate_genes(genes.skip(1), st2, lo, hi, rate);
            (seq![v] + rest.0, rest.1)
        } else {
            let rest = spec_mutate_genes(genes.skip(1), st1, lo, hi, rate);
            (seq![genes[0]] + rest.0, rest.1)
        }
    }
}

/// All offspring after mutation, genome by genome, front first.
pub open spec fn spec_mutate_all(offspring: Seq<GenomeV>, st: u64, lo: i64, hi: i64, rate: u32) -> (
    Seq<GenomeV>,
    u64,
)
    decreases offspring.len(),
{
    if offspring.len() == 0 {
        (Seq::<GenomeV>::empty(), st)
    } else {
        let m = spec_mutate_genes(offspring[0].genes, st, lo, hi, rate);
        let rest = spec_mutate_all(offspring.skip(1), m.1, lo, hi, rate);
        (seq![GenomeV { genes: m.0, fitness: None }] + rest.0, rest.1)
    }
}

/// Appending two pushed elements is appending a two-element sequence.
proof fn lemma_push2_append<A>(before: Seq<A>, x: A, y: A, rest: Seq<A>)
    ensures
        before.push(x).push(y) + rest == before + (seq![x, y] + rest),
{
    assert(before.push(x).push(y) + rest =~= before + (seq![x, y] + rest));
}

/// Appending one pushed element is appending a one-element sequence.
proof fn lemma_push1_append<A>(before: Seq<A>, x: A, rest: Seq<A>)
    ensures
        before.push(x) + rest == before + (seq![x] + rest),
{
    assert(before.push(x) + rest =~= before + (seq![x] + rest));
}

/// One pair's offspring keep the genome shape and bounds, unevaluated.
pub proof fn lemma_spec_vary_pair_wf(
    a: GenomeV,
    b: GenomeV,
    st: u64,
    glen: nat,
    rate: u32,
    lo: i64,
    hi: i64,
)
    requires
        genome_wf(a, glen, lo, hi),
        genome_wf(b, glen, lo, hi),
    ensures
        spec_vary_pair(a, b, st, glen, rate).0.len() == 2,
        forall|t: int|
            0 <= t < 2 ==> genome_wf(
                #[trigger] spec_vary_pair(a, b, st, glen, rate).0[t],
                glen,
                lo,
                hi,
            ) && spec_vary_pair(a, b, st, glen, rate).0[t].fitness is None,
{
    let out = spec_vary_pair(a, b, st, glen, rate).0;
    if glen >= 2 && draw_bernoulli(st, rate) {
        let st1 = rng_next_state(st);
        let k = 1 + draw_below(st1, glen - 1);
        let c = cross_genes(a.genes, b.genes, k);
        assert(0 <= k <= glen) by {
            assert(0 <= draw_below(st1, glen - 1) < glen - 1);
        }
        assert forall|j: int| 0 <= j < c.0.len() implies lo <= #[trigger] c.0[j] <= hi by {
            if j < k {
                assert(c.0[j] == a.genes[j]);
            } else {
                assert(c.0[j] == b.genes[j]);
            }
        }
        assert forall|j: int| 0 <= j < c.1.len() implies lo <= #[trigger] c.1[j] <= hi by {
            if j < k {
                assert(c.1[j] == b.genes[j]);
            } else {
                assert(c.1[j] == a.genes[j]);
            }
        }
        assert(genome_wf(out[0], glen, lo, hi));
        assert(genome_wf(out[1], glen, lo, hi));
    }
}

/// Crossover keeps the count, the genome shape and the gene bounds, and
/// leaves every offspring unevaluated.
pub proof fn lemma_spec_vary_wf(
    picks: Seq<GenomeV>,
    st: u64,
    glen: nat,
    rate: u32,
    lo: i64,
    hi: i64,
)
    requires
        forall|t: int| 0 <= t < picks.len() ==> genome_wf(#[trigger] picks[t], glen, lo, hi),
    ensures
        spec_vary(picks, st, glen, rate).0.len() == picks.len(),
        forall|t: int|
            0 <= t < picks.len() ==> genome_wf(
                #[trigger] spec_vary(picks, st, glen, rate).0[t],
                glen,
                lo,
                hi,
            ) && spec_vary(picks, st, glen, rate).0[t].fitness is None,
    decreases picks.len(),
{
    if picks.len() <= 1 {
    } else {
        let tail = picks.skip(2);
        assert(forall|t: int| 0 <= t < tail.len() ==> tail[t] == picks[t + 2]);
        let p = spec_vary_pair(picks[0], picks[1], st, glen, rate);
        lemma_spec_vary_pair_wf(picks[0], picks[1], st, glen, rate, lo, hi);
        lemma_spec_vary_wf(tail, p.1, glen, rate, lo, hi);
        let rest = spec_vary(tail, p.1, glen, rate).0;
        let out = spec_vary(picks, st, glen, rate).0;
        assert forall|t: int| 0 <= t < picks.len() implies genome_wf(
            #[trigger] out[t],
            glen,
            lo,
            hi,
        ) && out[t].fitness is None by {
            if t < 2 {
                assert(out[t] == p.0[t]);
            } else {
                assert(out[t] == rest[t - 2]);
            }
        }
    }
}

/// Mutation keeps the gene count and the bounds.
pub proof fn lemma_spec_mutate_genes_wf(genes: Seq<i64>, st: u64, lo: i64, hi: i64, rate: u32)
    requires
        lo <= hi,
        forall|j: int| 0 <= j < genes.len() ==> lo <= #[trigger] genes[j] <= hi,
    ensures
        spec_mutate_genes(genes, st, lo, hi, rate).0.len() == genes.len(),
        forall|j: int|
            0 <= j < genes.len() ==> lo <= #[trigger] spec_mutate_genes(
                genes,
                st,
                lo,
                hi,
                rate,
            ).0[j] <= hi,
    decreases genes.len(),
{
    if genes.len() == 0 {
    } else {
        let tail = genes.skip(1);
        assert(forall|j: int| 0 <= j < tail.len() ==> tail[j] == genes[j + 1]);
        let fire = draw_bernoulli(st, rate);
        let st1 = rng_next_state(st);
        let out = spec_mutate_genes(genes, st, lo, hi, rate).0;
        let st_rest = if fire {
            rng_next_state(st1)
        } else {
            st1
        };
        lemma_spec_mutate_genes_wf(tail, st_rest, lo, hi, rate);
        let rest = spec_mutate_genes(tail, st_rest, lo, hi, rate).0;
        assert forall|j: int| 0 <= j < genes.len() implies lo <= #[trigger] out[j] <= hi by {
            if j >= 1 {
                assert(out[j] == rest[j - 1]);
            }
        }
    }
}

/// The mutation pass keeps the population shape and bounds, and leaves
/// every offspring unevaluated.
pub proof fn lemma_spec_mutate_all_wf(
    offspring: Seq<GenomeV>,
    st: u64,
    lo: i64,
    hi: i64,
    rate: u32,
    glen: nat,
)
    requires
        lo <= hi,
        forall|t: int| 0 <= t < offspring.len() ==> genome_wf(#[trigger] offspring[t], glen, lo, hi),
    ensures
        spec_mutate_all(offspring, st, lo, hi, rate).0.len() == offspring.len(),
        forall|t: int|
            0 <= t < offspring.len() ==> genome_wf(
                #[trigger] spec_mutate_all(offspring, st, lo, hi, rate).0[t],
                glen,
                lo,
                hi,
            ) && spec_mutate_all(offspring, st, lo, hi, rate).0[t].fitness is None,
    decreases offspring.len(),
{
    if offspring.len() == 0 {
    } else {
        let tail = offspring.skip(1);
        assert(forall|t: int| 0 <= t < tail.len() ==> tail[t] == offspring[t + 1]);
        let m = spec_mutate_genes(offspring[0].genes, st, lo, hi, rate);
        lemma_spec_mutate_genes_wf(offspring[0].genes, st, lo, hi, rate);
        lemma_spec_mutate_all_wf(tail, m.1, lo, hi, rate, glen);
        let out = spec_mutate_all(offspring, st, lo, hi, rate).0;
        let rest = spec_mutate_all(tail, m.1, lo, hi, rate).0;
        assert forall|t: int| 0 <= t < offspring.len() implies genome_wf(
            #[trigger] out[t],
            glen,
            lo,
            hi,
        ) && out[t].fitness is None by {
            if t >= 1 {
                assert(out[t] == rest[t - 1]);
            }
        }
    }
}

/// The front `k` genes of `x` followed by the rest of `y`.
fn splice_genes(x: &Vec<i64>, y: &Vec<i64>, k: usize) -> (out: Vec<i64>)
    requires
        k <= x.len(),
        k <= y.len(),
    ensures
        out@ == x@.take(k as int) + y@.skip(k as int),
{
    let mut out: Vec<i64> = Vec::new();
    let mut i: usize = 0;
    while i < k
        invariant
            i <= k,
            k <= x.len(),
            out@ == x@.take(i as int),
        decreases k - i,
    {
        out.push(x[i]);
        proof {
            assert(x@.take(i + 1) =~= x@.take(i as int).push(x@[i as int]));
        }
        i = i + 1;
    }
    let mut j: usize = k;
    while j < y.len()
        invariant
            k <= j <= y.len(),
            k <= x.len(),
            out@ == x@.take(k as int) + y@.subrange(k as int, j as int),
        decreases y.len() - j,
    {
        out.push(y[j]);
        proof {
            assert(x@.take(k as int) + y@.subrange(k as int, j + 1) =~= (x@.take(k as int)
                + y@.subrange(k as int, j as int)).push(y@[j as int]));
        }
        j = j + 1;
    }
    proof {
        assert(y@.subrange(k as int, y@.len() as int) =~= y@.skip(k as int));
    }
    out
}

/// One parent pair's offspring: recombine with the configured chance.
fn vary_pair(a: &Genome, b: &Genome, glen: usize, rate: u32, rng: &mut Rng) -> (c: (Genome, Genome))
    requires
        a@.genes.len() == glen,
        b@.genes.len() == glen,
        rate <= RATE_SCALE,
    ensures
        seq![c.0@, c.1@] == spec_vary_pair(a@, b@, old(rng)@, glen as nat, rate).0,
        final(rng)@ == spec_vary_pair(a@, b@, old(rng)@, glen as nat, rate).1,
{
    if glen < 2 {
        let mut c0 = a.duplicate();
        c0.fitness = None;
        let mut c1 = b.duplicate();
        c1.fitness = None;
        proof {
            assert(seq![c0@, c1@] =~= seq![reset_fitness(a@), reset_fitness(b@)]);
        }
        return (c0, c1);
    }
    let fire = rng.next_bernoulli(rate);
    if fire {
        let cut_draw = rng.next_below((glen - 1) as u128);
        let k = (cut_draw as usize) + 1;
        proof {
            assert(1 <= k < glen);
        }
        let g0 = splice_genes(&a.genes, &b.genes, k);
        let g1 = splice_genes(&b.genes, &a.genes, k);
        let c0 = Genome { genes: g0, fitness: None };
        let c1 = Genome { genes: g1, fitness: None };
        proof {
            let kk = 1 + draw_below(rng_next_state(old(rng)@), glen - 1);
            let c = cross_genes(a@.genes, b@.genes, kk);
            assert(k as int == kk);
            assert(seq![c0@, c1@] =~= seq![
                GenomeV { genes: c.0, fitness: None },
                GenomeV { genes: c.1, fitness: None },
            ]);
        }
        (c0, c1)
    } else {
        let mut c0 = a.duplicate();
        c0.fitness = None;
        let mut c1 = b.duplicate();
        c1.fitness = None;
        proof {
            assert(seq![c0@, c1@] =~= seq![reset_fitness(a@), reset_fitness(b@)]);
        }
        (c0, c1)
    }
}

/// Pair the picks and recombine each pair with the configured chance.
pub fn vary_offspring(picks: &Vec<Genome>, glen: usize, rate: u32, rng: &mut Rng) -> (out: Vec<
    Genome,
>)
    requires
        rate <= RATE_SCALE,
        forall|t: int| 0 <= t < picks@.len() ==> (#[trigger] picks@[t]@).genes.len() == glen,
    ensures
        pop_view(out@) == spec_vary(pop_view(picks@), old(rng)@, glen as nat, rate).0,
        final(rng)@ == spec_vary(pop_view(picks@), old(rng)@, glen as nat, rate).1,
{
    let ghost pv = pop_view(picks@);
    let ghost st0 = rng@;
    let mut out: Vec<Genome> = Vec::new();
    let mut i: usize = 0;
    proof {
        assert(pop_view(out@) =~= Seq::<GenomeV>::empty());
        assert(pv.skip(0) =~= pv);
    }
    while i + 1 < picks.len()
        invariant
            i <= picks.len(),
            i % 2 == 0,
            rate <= RATE_SCALE,
            pv == pop_view(picks@),
            pv.len() == picks.len(),
            forall|t: int| 0 <= t < picks@.len() ==> (#[trigger] picks@[t]@).genes.len() == glen,
            pop_view(out@) + spec_vary(pv.skip(i as int), rng@, glen as nat, rate).0 == spec_vary(
                pv,
                st0,
                glen as nat,
                rate,
            ).0,
            spec_vary(pv.skip(i as int), rng@, glen as nat, rate).1 == spec_vary(
                pv,
                st0,
                glen as nat,
                rate,
            ).1,
        decreases picks.len() - i,
    {
        let ghost st_cur = rng@;
        let ghost before = pop_view(out@);
        let ghost rem = pv.skip(i as int);
        proof {
            assert(rem.len() >= 2);
            assert(rem[0] == pv[i as int] && pv[i as int] == picks@[i as int]@);
            assert(rem[1] == pv[i + 1] && pv[i + 1] == picks@[i + 1]@);
            assert(rem.skip(2) =~= pv.skip(i + 2));
        }
        let (c0, c1) = vary_pair(&picks[i], &picks[i + 1], glen, rate, rng);
        let ghost p = spec_vary_pair(rem[0], rem[1], st_cur, glen as nat, rate);
        out.push(c0);
        out.push(c1);
        proof {
            assert(spec_vary(rem, st_cur, glen as nat, rate).0 == p.0 + spec_vary(
                rem.skip(2),
                p.1,
                glen as nat,
                rate,
            ).0);
            assert(pop_view(out@) =~= before.push(p.0[0]).push(p.0[1]));
            lemma_push2_append(before, p.0[0], p.0[1], spec_vary(
                rem.skip(2),
                p.1,
                glen as nat,
                rate,
            ).0);
            assert(seq![p.0[0], p.0[1]] =~= p.0);
        }
        i = i + 2;
    }
    if i < picks.len() {
        // odd tail: pass through unevaluated
        let ghost st_cur = rng@;
        let ghost before = pop_view(out@);
        let ghost rem = pv.skip(i as int);
        proof {
            assert(rem.len() == 1);
            assert(rem[0] == pv[i as int] && pv[i as int] == picks@[i as int]@);
        }
        let mut last = picks[i].duplicate();
        last.fitness = None;
        out.push(last);
        proof {
            assert(spec_vary(rem, st_cur, glen as nat, rate).0 =~= seq![reset_fitness(rem[0])]);
            assert(pop_view(out@) =~= before.push(reset_fitness(rem[0])));
            assert(before.push(reset_fitness(rem[0])) =~= before + seq![reset_fitness(rem[0])]);
        }
    } else {
        proof {
            assert(pv.skip(i as int) =~= Seq::<GenomeV>::empty());
            assert(pop_view(out@) + Seq::<GenomeV>::empty() =~= pop_view(out@));
        }
    }
    out
}

/// Mutate one gene vector: each gene is redrawn with the configured
/// chance, uniformly within `[lo, hi]`.
fn mutate_genes(genes: &Vec<i64>, lo: i64, hi: i64, rate: u32, rng: &mut Rng) -> (out: Vec<i64>)
    requires
        lo <= hi,
        rate <= RATE_SCALE,
    ensures
        out@ == spec_mutate_genes(genes@, old(rng)@, lo, hi, rate).0,
        final(rng)@ == spec_mutate_genes(genes@, old(rng)@, lo, hi, rate).1,
{
    let ghost gv = genes@;
    let ghost st0 = rng@;
    let mut out: Vec<i64> = Vec::new();
    let mut i: usize = 0;
    proof {
        assert(gv.skip(0) =~= gv);
        assert(out@ =~= Seq::<i64>::empty());
    }
    while i < genes.len()
        invariant
            i <= genes.len(),
            lo <= hi,
            rate <= RATE_SCALE,
            gv == genes@,
            out@ + spec_mutate_genes(gv.skip(i as int), rng@, lo, hi, rate).0 == spec_mutate_genes(
                gv,
                st0,
                lo,
                hi,
                rate,
            ).0,
            spec_mutate_genes(gv.skip(i as int), rng@, lo, hi, rate).1 == spec_mutate_genes(
                gv,
                st0,
                lo,
                hi,
                rate,
            ).1,
        decreases genes.len() - i,
    {
        let ghost st_cur = rng@;
        let ghost before = out@;
        let ghost rem = gv.skip(i as int);
        proof {
            assert(rem.len() > 0);
            assert(rem[0] == gv[i as int]);
            assert(rem.skip(1) =~= gv.skip(i + 1));
        }
        let fire = rng.next_bernoulli(rate);
        if fire {
            let v = rng.next_in_range(lo, hi);
            out.push(v);
            proof {
                assert(spec_mutate_genes(rem, st_cur, lo, hi, rate).0 == seq![
                    draw_in_range(rng_next_state(st_cur), lo, hi),
                ] + spec_mutate_genes(rem.skip(1), rng@, lo, hi, rate).0);
                lemma_push1_append(before, v, spec_mutate_genes(rem.skip(1), rng@, lo, hi, rate).0);
            }
        } else {
            out.push(genes[i]);
            proof {
                assert(spec_mutate_genes(rem, st_cur, lo, hi, rate).0 == seq![rem[0]]
                    + spec_mutate_genes(rem.skip(1), rng@, lo, hi, rate).0);
                lemma_push1_append(
                    before,
                    gv[i as int],
                    spec_mutate_genes(rem.skip(1), rng@, lo, hi, rate).0,
                );
            }
        }
        i = i + 1;
    }
    proof {
        assert(gv.skip(gv.len() as int) =~= Seq::<i64>::empty());
        assert(out@ + Seq::<i64>::empty() =~= out@);
    }
    out
}

/// Mutate every offspring, genome by genome.
pub fn mutate_offspring(offspring: Vec<Genome>, lo: i64, hi: i64, rate: u32, rng: &mut Rng) -> (out:
    Vec<Genome>)
    requires
        lo <= hi,
        rate <= RATE_SCALE,
    ensures
        pop_view(out@) == spec_mutate_all(pop_view(offspring@), old(rng)@, lo, hi, rate).0,
        final(rng)@ == spec_mutate_all(pop_view(offspring@), old(rng)@, lo, hi, rate).1,
{
    let ghost ov = pop_view(offspring@);
    let ghost st0 = rng@;
    let mut out: Vec<Genome> = Vec::new();
    let mut i: usize = 0;
    proof {
        assert(ov.skip(0) =~= ov);
        assert(pop_view(out@) =~= Seq::<GenomeV>::empty());
    }
    while i < offspring.len()
        invariant
            i <= offspring.len(),
            lo <= hi,
            rate <= RATE_SCALE,
            ov == pop_view(offspring@),
            ov.len() == offspring.len(),
            pop_view(out@) + spec_mutate_all(ov.skip(i as int), rng@, lo, hi, rate).0
                == spec_mutate_all(ov, st0, lo, hi, rate).0,
            spec_mutate_all(ov.skip(i as int), rng@, lo, hi, rate).1 == spec_mutate_all(
                ov,
                st0,
                lo,
                hi,
                rate,
            ).1,
        decreases offspring.len() - i,
    {
        let ghost st_cur = rng@;
        let ghost before = pop_view(out@);
        let ghost rem = ov.skip(i as int);
        proof {
            assert(rem.len() > 0);
            assert(rem[0] == ov[i as int]);
            assert(ov[i as int] == offspring@[i as int]@);
            assert(rem.skip(1) =~= ov.skip(i + 1));
        }
        let genes = mutate_genes(&offspring[i].genes, lo, hi, rate, rng);
        out.push(Genome { genes, fitness: None });
        proof {
            let m = spec_mutate_genes(rem[0].genes, st_cur, lo, hi, rate);
            assert(spec_mutate_all(rem, st_cur, lo, hi, rate).0 == seq![
                GenomeV { genes: m.0, fitness: None },
            ] + spec_mutate_all(rem.skip(1), m.1, lo, hi, rate).0);
            assert(pop_view(out@) =~= before.push(GenomeV { genes: m.0, fitness: None }));
            lemma_push1_append(
                before,
                GenomeV { genes: m.0, fitness: None },
                spec_mutate_all(rem.skip(1), rng@, lo, hi, rate).0,
            );
        }
        i = i + 1;
    }
    proof {
        assert(ov.skip(ov.len() as int) =~= Seq::<GenomeV>::empty());
        assert(pop_view(out@) + Seq::<GenomeV>::empty() =~= pop_view(out@));
    }
    out
}

} // verus!
