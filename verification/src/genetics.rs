use crate::bug::{BrainModel, BugBrain};
use crate::constants::{N_DECISIONS, N_SENSES};
use crate::fixed::{clamp_i32, to_i32};
use crate::bug::pairs_fit;
use crate::gene::{limit, link_within, links_fit, Chromosome, ChromosomeModel, Gene};
use crate::rng::{DeterministicRng, Draws};
use vstd::prelude::*;

verus! {

/// A length as the bound of a draw: itself, or `u32::MAX` where it is larger.
pub open spec fn span(len: nat) -> u32 {
    if len > u32::MAX {
        u32::MAX
    } else {
        len as u32
    }
}

fn span_of(len: usize) -> (r: u32)
    ensures
        r == span(len as nat),
{
    if len > u32::MAX as usize {
        u32::MAX
    } else {
        len as u32
    }
}

/// A gene drawn at random, and the stream after it. The first draw picks
/// the kind; the parameters follow in the order given here.
pub open spec fn random_gene(d: Draws) -> (Gene, Draws) {
    let kind = d.range(5);
    let d1 = d.skip(1);
    if kind == 0 {
        (Gene::constant(d1.range_i32(-100i32, 100)), d1.skip(1))
    } else if kind == 1 {
        (Gene::sense(d1.range(N_SENSES as u32) as usize), d1.skip(1))
    } else if kind == 2 {
        let min = d1.range_i32(-100i32, 100);
        let max = d1.skip(1).range_i32(min, 100);
        (Gene::limiting(d1.skip(2).range(N_SENSES as u32) as usize, min, max), d1.skip(3))
    } else if kind == 3 {
        (
            Gene::comparing(
                d1.range(N_SENSES as u32) as usize,
                d1.skip(1).range_i32(-100i32, 100),
            ),
            d1.skip(2),
        )
    } else {
        (Gene::matching(d1.range(N_SENSES as u32) as usize), d1.skip(1))
    }
}

/// A constant after a chance of one half to be nudged by -10 to 10, and the
/// stream after it.
pub open spec fn nudged(c: i32, d: Draws) -> (i32, Draws) {
    if d.coin(50) {
        (clamp_i32(c + d.skip(1).range_i32(-10i32, 11)), d.skip(2))
    } else {
        (c, d.skip(1))
    }
}

/// A gene after its parameters have been mutated, and the stream after it:
/// each constant is nudged with a chance of one half, and the sense index
/// is redrawn with a chance of three in ten.
pub open spec fn mutated_gene(g: Gene, d: Draws) -> (Gene, Draws) {
    let (c1, d1) = nudged(g.c1, d);
    let (c2, d2) = nudged(g.c2, d1);
    if d2.coin(30) {
        (Gene { c1, c2, sense_index: d2.skip(1).range(N_SENSES as u32) as usize, ..g }, d2.skip(2))
    } else {
        (Gene { c1, c2, ..g }, d2.skip(1))
    }
}

/// A link after a chance of one half to be redrawn, and the stream after
/// it: a redrawn link is cut with a chance of three in ten, else it points
/// at a position below `count`.
pub open spec fn rewired(link: Option<usize>, count: u32, d: Draws) -> (Option<usize>, Draws) {
    if d.coin(50) {
        if d.skip(1).coin(30) {
            (None, d.skip(2))
        } else {
            (Some(d.skip(2).range(count) as usize), d.skip(2).after_range(count))
        }
    } else {
        (link, d.skip(1))
    }
}

/// A link as it is kept in a list of `n` genes: cut if it names no position
/// of the list.
pub open spec fn trimmed_link(link: Option<usize>, n: nat) -> Option<usize> {
    if link_within(link, n) {
        link
    } else {
        None
    }
}

/// A gene with its links as they are kept in a list of `n` genes.
pub open spec fn trimmed_gene(g: Gene, n: nat) -> Gene {
    Gene {
        prod_index: trimmed_link(g.prod_index, n),
        sum_index: trimmed_link(g.sum_index, n),
        ..g
    }
}

/// A gene list in which every link that names no position of the list has
/// been cut.
pub open spec fn trimmed(genes: Seq<Gene>) -> Seq<Gene> {
    Seq::new(genes.len(), |i: int| trimmed_gene(genes[i], genes.len()))
}

/// A gene list after one mutation, and the stream after it. An empty list
/// gains a random gene. Otherwise a draw below 100 picks the operator: below
/// 30, and with more than one gene, a gene is deleted and every link that
/// no longer names a position of the list is cut; else below 60 a random
/// gene is inserted; else below 90 one gene's parameters are mutated; else
/// one gene's links are rewired.
pub open spec fn mutated_genes(genes: Seq<Gene>, d: Draws) -> (Seq<Gene>, Draws) {
    if genes.len() == 0 {
        let (g, d1) = random_gene(d);
        (genes.push(g), d1)
    } else {
        let kind = d.range(100);
        let d1 = d.skip(1);
        let count = span(genes.len());
        if kind < 30 && genes.len() > 1 {
            (trimmed(genes.remove(d1.range(count) as int)), d1.skip(1))
        } else if kind < 60 {
            let (g, d2) = random_gene(d1);
            let room = span(genes.len() + 1);
            (genes.insert(d2.range(room) as int, g), d2.skip(1))
        } else if kind < 90 {
            let idx = d1.range(count) as int;
            let (g, d2) = mutated_gene(genes[idx], d1.skip(1));
            (genes.update(idx, g), d2)
        } else {
            let idx = d1.range(count) as int;
            let (prod, d2) = rewired(genes[idx].prod_index, count, d1.skip(1));
            let (sum, d3) = rewired(genes[idx].sum_index, count, d2);
            (genes.update(idx, Gene { prod_index: prod, sum_index: sum, ..genes[idx] }), d3)
        }
    }
}

/// A chromosome after a chance of `percent` in a hundred to undergo one
/// mutation, and the stream after it.
pub open spec fn maybe_mutated(c: ChromosomeModel, percent: u32, d: Draws) -> (
    ChromosomeModel,
    Draws,
) {
    if d.coin(percent) {
        let (genes, d1) = mutated_genes(c.genes, d.skip(1));
        (ChromosomeModel { genes, ..c }, d1)
    } else {
        (c, d.skip(1))
    }
}

/// The chance, in a hundred, that a chromosome of an offspring mutates: 10,
/// and 1 more for each generation, up to 50.
pub open spec fn mutation_percent(generation: u32) -> u32 {
    if generation >= 40 {
        50
    } else {
        (10 + generation) as u32
    }
}

/// The decision pairs after the first `n` of them have had their chance to
/// mutate, copy A before copy B, and the stream after it.
pub open spec fn mutated_pairs(
    pairs: Seq<(ChromosomeModel, ChromosomeModel)>,
    percent: u32,
    d: Draws,
    n: nat,
) -> (Seq<(ChromosomeModel, ChromosomeModel)>, Draws)
    decreases n,
{
    if n == 0 || n > pairs.len() {
        (pairs, d)
    } else {
        let (earlier, d0) = mutated_pairs(pairs, percent, d, (n - 1) as nat);
        let (a, d1) = maybe_mutated(earlier[n - 1].0, percent, d0);
        let (b, d2) = maybe_mutated(earlier[n - 1].1, percent, d1);
        (earlier.update(n - 1, (a, b)), d2)
    }
}

/// A brain after the mutation that an offspring undergoes, and the stream
/// after it: every chromosome has its chance to mutate; with one chance in
/// ten one bit of the expression bitmap flips; with one chance in twenty the
/// divide fan-out moves by -1, 0 or 1 within 2 to 7; the gene count is cached
/// anew.
pub open spec fn mutated_brain(b: BrainModel, d: Draws) -> (BrainModel, Draws) {
    let (decisions, d1) = mutated_pairs(
        b.decisions,
        mutation_percent(b.generation),
        d,
        N_DECISIONS as nat,
    );
    let (expression, d2) = if d1.coin(10) {
        ((b.expression ^ (1u16 << (d1.skip(1).range(16) as u16))) as u16, d1.skip(2))
    } else {
        (b.expression, d1.skip(1))
    };
    let (divide_count, d3) = if d2.coin(5) {
        (limit(b.divide_count + d2.skip(1).range_i32(-1i32, 2), 2, 7) as u8, d2.skip(2))
    } else {
        (b.divide_count, d2.skip(1))
    };
    let mutant = BrainModel { decisions, expression, divide_count, ..b };
    (BrainModel { n_genes: mutant.counted(), ..mutant }, d3)
}

/// One mutation keeps the links of a gene list within the list, and
/// changes its length by one at most.
pub proof fn lemma_mutated_genes(genes: Seq<Gene>, d: Draws)
    requires
        links_fit(genes),
    ensures
        links_fit(mutated_genes(genes, d).0),
        mutated_genes(genes, d).0.len() >= 1,
        genes.len() - 1 <= mutated_genes(genes, d).0.len() <= genes.len() + 1,
{
    let after = mutated_genes(genes, d).0;
    if genes.len() == 0 {
        assert forall|i: int| 0 <= i < after.len() implies (#[trigger] after[i]).links_within(
            after.len(),
        ) by {}
    } else {
        let kind = d.range(100);
        let d1 = d.skip(1);
        let count = span(genes.len());
        if kind < 30 && genes.len() > 1 {
        } else if kind < 60 {
            let (g, d2) = random_gene(d1);
            let at = d2.range(span(genes.len() + 1)) as int;
            assert forall|i: int| 0 <= i < after.len() implies (#[trigger] after[i]).links_within(
                after.len(),
            ) by {
                if i < at {
                    assert(after[i] == genes[i]);
                } else if i > at {
                    assert(after[i] == genes[i - 1]);
                }
            }
        } else if kind < 90 {
            let idx = d1.range(count) as int;
            assert forall|i: int| 0 <= i < after.len() implies (#[trigger] after[i]).links_within(
                after.len(),
            ) by {
                assert(genes[i].links_within(genes.len()));
            }
        } else {
            let idx = d1.range(count) as int;
            assert forall|i: int| 0 <= i < after.len() implies (#[trigger] after[i]).links_within(
                after.len(),
            ) by {
                assert(genes[i].links_within(genes.len()));
            }
        }
    }
}

/// Mutation leaves the number of decision pairs as it is, and their
/// chromosomes well-formed.
pub proof fn lemma_mutated_pairs_len(
    pairs: Seq<(ChromosomeModel, ChromosomeModel)>,
    percent: u32,
    d: Draws,
    n: nat,
)
    ensures
        mutated_pairs(pairs, percent, d, n).0.len() == pairs.len(),
        mutated_pairs(pairs, percent, d, n).1.seed == d.seed,
        forall|k: int| n <= k < pairs.len() ==> mutated_pairs(pairs, percent, d, n).0[k] == pairs[k],
        pairs_fit(pairs) ==> pairs_fit(mutated_pairs(pairs, percent, d, n).0),
    decreases n,
{
    if n > 0 && n <= pairs.len() {
        lemma_mutated_pairs_len(pairs, percent, d, (n - 1) as nat);
        if pairs_fit(pairs) {
            let (earlier, d0) = mutated_pairs(pairs, percent, d, (n - 1) as nat);
            let now = mutated_pairs(pairs, percent, d, n).0;
            assert(earlier[n - 1].0.wf() && earlier[n - 1].1.wf());
            let (a, d1) = maybe_mutated(earlier[n - 1].0, percent, d0);
            lemma_mutated_genes(earlier[n - 1].0.genes, d0.skip(1));
            lemma_mutated_genes(earlier[n - 1].1.genes, d1.skip(1));
            assert forall|i: int| 0 <= i < now.len() implies (#[trigger] now[i]).0.wf()
                && now[i].1.wf() by {
                if i != n - 1 {
                    assert(earlier[i].0.wf());
                }
            }
        }
    }
}

/// A mutated brain is a well-formed brain of the same generation.
pub proof fn lemma_mutated_brain_wf(b: BrainModel, d: Draws)
    requires
        b.wf(),
    ensures
        mutated_brain(b, d).0.wf(),
        mutated_brain(b, d).0.generation == b.generation,
{
    lemma_mutated_pairs_len(b.decisions, mutation_percent(b.generation), d, N_DECISIONS as nat);
}

/// Draws a random gene.
pub fn create_random_gene(rng: &mut DeterministicRng) -> (g: Gene)
    ensures
        (g, final(rng)@) == random_gene(old(rng)@),
{
    let kind: u32 = rng.gen_range(5);
    if kind == 0 {
        Gene::new_constant(rng.gen_range_i32(-100, 100))
    } else if kind == 1 {
        Gene::new_sense(rng.gen_range(N_SENSES as u32) as usize)
    } else if kind == 2 {
        let min: i32 = rng.gen_range_i32(-100, 100);
        let max: i32 = rng.gen_range_i32(min, 100);
        Gene::new_limit(rng.gen_range(N_SENSES as u32) as usize, min, max)
    } else if kind == 3 {
        let sense_index: usize = rng.gen_range(N_SENSES as u32) as usize;
        Gene::new_compare(sense_index, rng.gen_range_i32(-100, 100))
    } else {
        Gene::new_match(rng.gen_range(N_SENSES as u32) as usize)
    }
}

fn nudge(rng: &mut DeterministicRng, c: i32) -> (r: i32)
    ensures
        (r, final(rng)@) == nudged(c, old(rng)@),
{
    if rng.gen_bool(50) {
        let delta: i32 = rng.gen_range_i32(-10, 11);
        to_i32(c as i64 + delta as i64)
    } else {
        c
    }
}

/// Mutates the parameters of a gene.
pub fn mutate_gene(rng: &mut DeterministicRng, gene: &mut Gene)
    ensures
        (*final(gene), final(rng)@) == mutated_gene(*old(gene), old(rng)@),
{
    gene.c1 = nudge(rng, gene.c1);
    gene.c2 = nudge(rng, gene.c2);
    if rng.gen_bool(30) {
        gene.sense_index = rng.gen_range(N_SENSES as u32) as usize;
    }
}

fn rewire(rng: &mut DeterministicRng, link: Option<usize>, count: u32) -> (r: Option<usize>)
    ensures
        (r, final(rng)@) == rewired(link, count, old(rng)@),
{
    if rng.gen_bool(50) {
        if rng.gen_bool(30) {
            None
        } else {
            Some(rng.gen_range(count) as usize)
        }
    } else {
        link
    }
}

/// Cuts every link that names no position of the list.
fn trim_links(genes: &mut Vec<Gene>)
    ensures
        final(genes)@ == trimmed(old(genes)@),
{
    let n: usize = genes.len();
    let mut i: usize = 0;
    while i < n
        invariant
            i <= n,
            genes.len() == n,
            n == old(genes)@.len(),
            forall|k: int| 0 <= k < i ==> genes@[k] == trimmed_gene(old(genes)@[k], n as nat),
            forall|k: int| i <= k < n ==> genes@[k] == old(genes)@[k],
        decreases n - i,
    {
        let mut g: Gene = genes[i];
        g.prod_index = match g.prod_index {
            Some(idx) => if idx < n {
                Some(idx)
            } else {
                None
            },
            None => None,
        };
        g.sum_index = match g.sum_index {
            Some(idx) => if idx < n {
                Some(idx)
            } else {
                None
            },
            None => None,
        };
        genes.set(i, g);
        i = i + 1;
    }
    assert(genes@ =~= trimmed(old(genes)@));
}

/// Applies one mutation to a chromosome.
pub fn mutate_chromosome(rng: &mut DeterministicRng, chromosome: &mut Chromosome)
    ensures
        (final(chromosome)@.genes, final(rng)@) == mutated_genes(old(chromosome)@.genes, old(rng)@),
        final(chromosome)@.ethnicity == old(chromosome)@.ethnicity,
        old(chromosome)@.wf() ==> final(chromosome)@.wf(),
        final(chromosome)@.genes.len() >= 1,
        old(chromosome)@.genes.len() - 1 <= final(chromosome)@.genes.len() <= old(chromosome)@.genes.len() + 1,
{
    proof {
        if old(chromosome)@.wf() {
            lemma_mutated_genes(old(chromosome)@.genes, old(rng)@);
        }
    }
    if chromosome.genes.len() == 0 {
        let g = create_random_gene(rng);
        chromosome.genes.push(g);
        return ;
    }
    let kind: u32 = rng.gen_range(100);
    let count: u32 = span_of(chromosome.genes.len());
    if kind < 30 && chromosome.genes.len() > 1 {
        let idx: usize = rng.gen_range(count) as usize;
        chromosome.genes.remove(idx);
        trim_links(&mut chromosome.genes);
    } else if kind < 60 {
        let g = create_random_gene(rng);
        let room: u32 = if chromosome.genes.len() >= u32::MAX as usize {
            u32::MAX
        } else {
            (chromosome.genes.len() + 1) as u32
        };
        let idx: usize = rng.gen_range(room) as usize;
        chromosome.genes.insert(idx, g);
    } else if kind < 90 {
        let idx: usize = rng.gen_range(count) as usize;
        let mut g: Gene = chromosome.genes[idx];
        mutate_gene(rng, &mut g);
        chromosome.genes.set(idx, g);
    } else {
        let idx: usize = rng.gen_range(count) as usize;
        let mut g: Gene = chromosome.genes[idx];
        g.prod_index = rewire(rng, g.prod_index, count);
        g.sum_index = rewire(rng, g.sum_index, count);
        chromosome.genes.set(idx, g);
    }
}

fn maybe_mutate(rng: &mut DeterministicRng, chromosome: &mut Chromosome, percent: u32)
    ensures
        (final(chromosome)@, final(rng)@) == maybe_mutated(old(chromosome)@, percent, old(rng)@),
{
    if rng.gen_bool(percent) {
        mutate_chromosome(rng, chromosome);
    }
}

/// Applies to a brain the mutation that an offspring undergoes.
pub fn mutate_brain(rng: &mut DeterministicRng, brain: &mut BugBrain)
    requires
        old(brain)@.wf(),
    ensures
        (final(brain)@, final(rng)@) == mutated_brain(old(brain)@, old(rng)@),
        final(brain)@.wf(),
{
    let percent: u32 = if brain.generation >= 40 {
        50
    } else {
        10 + brain.generation
    };
    let ghost start = brain@;
    let ghost d = rng@;
    let mut i: usize = 0;
    while i < N_DECISIONS
        invariant
            i <= N_DECISIONS,
            start.wf(),
            percent == mutation_percent(start.generation),
            (brain@.decisions, rng@) == mutated_pairs(start.decisions, percent, d, i as nat),
            brain@ == (BrainModel { decisions: brain@.decisions, ..start }),
            brain.decisions.len() == N_DECISIONS,
        decreases N_DECISIONS - i,
    {
        let ghost before = brain@.decisions;
        let ghost d0 = rng@;
        maybe_mutate(rng, &mut brain.decisions[i].0, percent);
        maybe_mutate(rng, &mut brain.decisions[i].1, percent);
        proof {
            lemma_mutated_pairs_len(start.decisions, percent, d, i as nat);
            let a = maybe_mutated(before[i as int].0, percent, d0);
            let b = maybe_mutated(before[i as int].1, percent, a.1);
            assert(brain@.decisions =~= before.update(i as int, (a.0, b.0)));
        }
        i = i + 1;
    }
    if rng.gen_bool(10) {
        let bit: u32 = rng.gen_range(16);
        brain.expression = brain.expression ^ (1u16 << (bit as u16));
    }
    if rng.gen_bool(5) {
        let delta: i32 = rng.gen_range_i32(-1, 2);
        let moved: i32 = brain.divide_count as i32 + delta;
        brain.divide_count = if moved < 2 {
            2
        } else if moved > 7 {
            7
        } else {
            moved as u8
        };
    }
    proof {
        lemma_mutated_pairs_len(start.decisions, percent, d, N_DECISIONS as nat);
    }
    brain.update_gene_count();
    proof {
        lemma_mutated_brain_wf(start, d);
    }
}

} // verus!
