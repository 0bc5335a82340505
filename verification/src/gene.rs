use crate::fixed::{clamp_i64, to_i64};
use vstd::prelude::*;

verus! {

/// The kinds of node an expression tree is built from.
#[derive(Debug, Clone, Copy, PartialEq, Eq, Structural)]
pub enum GeneType {
    Constant,
    Sense,
    Limit,
    Compare,
    Match,
}

/// One node of a chromosome's expression tree. Links to other nodes are
/// positions in the same chromosome's gene list.
#[derive(Debug, Clone, Copy)]
pub struct Gene {
    pub gene_type: GeneType,
    pub sense_index: usize,
    pub c1: i32,
    pub c2: i32,
    /// Multiply by the value of the gene at this position.
    pub prod_index: Option<usize>,
    /// Add the value of the gene at this position.
    pub sum_index: Option<usize>,
}

/// `v` held to `[lo, hi]`: `lo` for what lies below it, else `hi` for what lies
/// above it, else `v`.
pub open spec fn limit(v: int, lo: int, hi: int) -> int {
    if v < lo {
        lo
    } else if v > hi {
        hi
    } else {
        v
    }
}

/// What a link contributes: `neutral` where there is none, else the value
/// at the position it names.
pub open spec fn linked(link: Option<usize>, values: Seq<i64>, neutral: int) -> int {
    match link {
        None => neutral,
        Some(idx) => values[idx as int] as int,
    }
}

/// Whether a link is absent or names a position below `n`.
pub open spec fn link_within(link: Option<usize>, n: nat) -> bool {
    match link {
        None => true,
        Some(idx) => idx < n,
    }
}

impl Gene {
    /// Whether both links of the gene name positions of a list of `n`
    /// genes.
    pub open spec fn links_within(self, n: nat) -> bool {
        link_within(self.prod_index, n) && link_within(self.sum_index, n)
    }

    /// The gene that yields `value` whatever is sensed.
    pub open spec fn constant(value: i32) -> Gene {
        Gene {
            gene_type: GeneType::Constant,
            sense_index: 0,
            c1: value,
            c2: 0,
            prod_index: None,
            sum_index: None,
        }
    }

    /// The gene that yields observation `sense_index`.
    pub open spec fn sense(sense_index: usize) -> Gene {
        Gene {
            gene_type: GeneType::Sense,
            sense_index,
            c1: 0,
            c2: 0,
            prod_index: None,
            sum_index: None,
        }
    }

    /// The gene that yields observation `sense_index` held to `[min, max]`.
    pub open spec fn limiting(sense_index: usize, min: i32, max: i32) -> Gene {
        Gene {
            gene_type: GeneType::Limit,
            sense_index,
            c1: min,
            c2: max,
            prod_index: None,
            sum_index: None,
        }
    }

    /// The gene that yields 1 where observation `sense_index` exceeds
    /// `threshold`, else 0.
    pub open spec fn comparing(sense_index: usize, threshold: i32) -> Gene {
        Gene {
            gene_type: GeneType::Compare,
            sense_index,
            c1: threshold,
            c2: 0,
            prod_index: None,
            sum_index: None,
        }
    }

    /// The gene that stands for a similarity measure of observation
    /// `sense_index`; it yields the observation itself.
    pub open spec fn matching(sense_index: usize) -> Gene {
        Gene {
            gene_type: GeneType::Match,
            sense_index,
            c1: 0,
            c2: 0,
            prod_index: None,
            sum_index: None,
        }
    }

    /// The observation this gene reads, 0 where the sense vector is too short.
    pub open spec fn sensed(self, senses: Seq<i32>) -> int {
        if self.sense_index < senses.len() {
            senses[self.sense_index as int] as int
        } else {
            0
        }
    }

    /// The value of the node before its links are applied.
    pub open spec fn base(self, senses: Seq<i32>) -> int {
        match self.gene_type {
            GeneType::Constant => self.c1 as int,
            GeneType::Sense => self.sensed(senses),
            GeneType::Limit => if self.sense_index < senses.len() {
                limit(self.sensed(senses), self.c1 as int, self.c2 as int)
            } else {
                0
            },
            GeneType::Compare => if self.sense_index < senses.len() && self.sensed(senses)
                > self.c1 {
                1
            } else {
                0
            },
            GeneType::Match => self.sensed(senses),
        }
    }

    /// The value of the node: `base * prod + sum`, held to the `i64` range.
    pub open spec fn value(self, senses: Seq<i32>, values: Seq<i64>) -> i64 {
        clamp_i64(
            self.base(senses) * linked(self.prod_index, values, 1) + linked(
                self.sum_index,
                values,
                0,
            ),
        )
    }

    pub fn new_constant(value: i32) -> (g: Self)
        ensures
            g == Gene::constant(value),
    {
        Self {
            gene_type: GeneType::Constant,
            sense_index: 0,
            c1: value,
            c2: 0,
            prod_index: None,
            sum_index: None,
        }
    }

    pub fn new_sense(sense_index: usize) -> (g: Self)
        ensures
            g == Gene::sense(sense_index),
    {
        Self {
            gene_type: GeneType::Sense,
            sense_index,
            c1: 0,
            c2: 0,
            prod_index: None,
            sum_index: None,
        }
    }

    pub fn new_limit(sense_index: usize, min: i32, max: i32) -> (g: Self)
        ensures
            g == Gene::limiting(sense_index, min, max),
    {
        Self {
            gene_type: GeneType::Limit,
            sense_index,
            c1: min,
            c2: max,
            prod_index: None,
            sum_index: None,
        }
    }

    pub fn new_compare(sense_index: usize, threshold: i32) -> (g: Self)
        ensures
            g == Gene::comparing(sense_index, threshold),
    {
        Self {
            gene_type: GeneType::Compare,
            sense_index,
            c1: threshold,
            c2: 0,
            prod_index: None,
            sum_index: None,
        }
    }

    pub fn new_match(sense_index: usize) -> (g: Self)
        ensures
            g == Gene::matching(sense_index),
    {
        Self {
            gene_type: GeneType::Match,
            sense_index,
            c1: 0,
            c2: 0,
            prod_index: None,
            sum_index: None,
        }
    }

    /// Evaluates this gene on a sense vector, given the values of the genes
    /// evaluated so far.
    pub fn evaluate(&self, senses: &[i32], gene_values: &[i64]) -> (r: i64)
        requires
            self.links_within(gene_values@.len()),
        ensures
            r == self.value(senses@, gene_values@),
    {
        let known: bool = self.sense_index < senses.len();
        let base: i64 = match self.gene_type {
            GeneType::Constant => self.c1 as i64,
            GeneType::Sense => if known {
                senses[self.sense_index] as i64
            } else {
                0
            },
            GeneType::Limit => if known {
                let v: i32 = senses[self.sense_index];
                if v < self.c1 {
                    self.c1 as i64
                } else if v > self.c2 {
                    self.c2 as i64
                } else {
                    v as i64
                }
            } else {
                0
            },
            GeneType::Compare => if known && senses[self.sense_index] > self.c1 {
                1
            } else {
                0
            },
            GeneType::Match => if known {
                senses[self.sense_index] as i64
            } else {
                0
            },
        };
        let prod: i64 = match self.prod_index {
            Some(idx) => gene_values[idx],
            None => 1,
        };
        let sum: i64 = match self.sum_index {
            Some(idx) => gene_values[idx],
            None => 0,
        };
        assert(-0x8000_0000 <= base <= 0x7fff_ffff);
        assert(-0x4000_0000_0000_0000_0000_0000 <= base * prod <= 0x4000_0000_0000_0000_0000_0000)
            by (nonlinear_arith)
            requires
                -0x8000_0000 <= base <= 0x7fff_ffff,
                -0x8000_0000_0000_0000 <= prod <= 0x7fff_ffff_ffff_ffff,
        ;
        to_i64((base as i128) * (prod as i128) + (sum as i128))
    }
}

/// A lineage colour.
#[derive(Debug, Clone, Copy, PartialEq, Eq, Structural)]
pub struct Ethnicity {
    pub uid: u64,
    pub r: u8,
    pub g: u8,
    pub b: u8,
}

impl Default for Ethnicity {
    fn default() -> (e: Self)
        ensures
            e == (Ethnicity { uid: 0, r: 0, g: 0, b: 0 }),
    {
        Self { uid: 0, r: 0, g: 0, b: 0 }
    }
}

impl Ethnicity {
    pub fn new(uid: u64, r: u8, g: u8, b: u8) -> (e: Self)
        ensures
            e == (Ethnicity { uid, r, g, b }),
    {
        Self { uid, r, g, b }
    }

    /// The lineage of a pairing: the larger identifier and the mean colour,
    /// each channel rounded down.
    pub open spec fn blended(self, other: Ethnicity) -> Ethnicity {
        Ethnicity {
            uid: if self.uid >= other.uid {
                self.uid
            } else {
                other.uid
            },
            r: ((self.r + other.r) / 2) as u8,
            g: ((self.g + other.g) / 2) as u8,
            b: ((self.b + other.b) / 2) as u8,
        }
    }

    /// Blends two lineages.
    pub fn blend(&self, other: &Ethnicity) -> (e: Self)
        ensures
            e == self.blended(*other),
    {
        Self {
            uid: if self.uid >= other.uid {
                self.uid
            } else {
                other.uid
            },
            r: ((self.r as u16 + other.r as u16) / 2) as u8,
            g: ((self.g as u16 + other.g as u16) / 2) as u8,
            b: ((self.b as u16 + other.b as u16) / 2) as u8,
        }
    }
}

/// What a chromosome is: its genes in order, and its lineage colour.
pub struct ChromosomeModel {
    pub genes: Seq<Gene>,
    pub ethnicity: Ethnicity,
}

/// The values of a gene list after its first `n` genes have been evaluated in
/// ascending order: entry `i < n` holds gene `i`'s value, the others still 0.
pub open spec fn gene_values(genes: Seq<Gene>, senses: Seq<i32>, n: nat) -> Seq<i64>
    decreases n,
{
    if n == 0 || n > genes.len() {
        Seq::new(genes.len(), |i: int| 0i64)
    } else {
        let earlier = gene_values(genes, senses, (n - 1) as nat);
        earlier.update(n - 1, genes[n - 1].value(senses, earlier))
    }
}

/// The output of a gene list on a sense vector: the value of its last gene, 0
/// for an empty list.
pub open spec fn chromosome_output(genes: Seq<Gene>, senses: Seq<i32>) -> i64 {
    if genes.len() == 0 {
        0
    } else {
        gene_values(genes, senses, genes.len())[genes.len() - 1]
    }
}

/// An ordered list of genes that scores one side of one decision.
#[derive(Debug)]
pub struct Chromosome {
    pub genes: Vec<Gene>,
    pub ethnicity: Ethnicity,
}

impl View for Chromosome {
    type V = ChromosomeModel;

    open spec fn view(&self) -> ChromosomeModel {
        ChromosomeModel { genes: self.genes@, ethnicity: self.ethnicity }
    }
}

/// Whether every link in a gene list names a position of that list.
pub open spec fn links_fit(genes: Seq<Gene>) -> bool {
    forall|i: int| 0 <= i < genes.len() ==> (#[trigger] genes[i]).links_within(genes.len())
}

impl ChromosomeModel {
    /// The links of a chromosome stay within its own gene list.
    pub open spec fn wf(self) -> bool {
        links_fit(self.genes)
    }

    /// The output of this chromosome on a sense vector.
    pub open spec fn output(self, senses: Seq<i32>) -> i64 {
        chromosome_output(self.genes, senses)
    }
}

impl Chromosome {
    /// A chromosome without genes.
    pub fn new() -> (c: Self)
        ensures
            c@ == (ChromosomeModel { genes: Seq::empty(), ethnicity: Ethnicity { uid: 0, r: 0, g: 0, b: 0 } }),
    {
        Self { genes: Vec::new(), ethnicity: Ethnicity::default() }
    }

    pub fn with_genes(genes: Vec<Gene>, ethnicity: Ethnicity) -> (c: Self)
        ensures
            c@ == (ChromosomeModel { genes: genes@, ethnicity }),
    {
        Self { genes, ethnicity }
    }

    /// Evaluates the genes once in ascending order and returns the value of
    /// the last one; 0 for a chromosome without genes.
    pub fn evaluate(&self, senses: &[i32]) -> (r: i64)
        requires
            self@.wf(),
        ensures
            r == self@.output(senses@),
    {
        let n: usize = self.genes.len();
        if n == 0 {
            return 0;
        }
        let mut values: Vec<i64> = vec![0i64; n];
        assert(values@ =~= gene_values(self.genes@, senses@, 0));
        let mut i: usize = 0;
        while i < n
            invariant
                i <= n,
                n == self.genes.len(),
                values@ == gene_values(self.genes@, senses@, i as nat),
                values.len() == n,
                links_fit(self.genes@),
            decreases n - i,
        {
            assert(self.genes@[i as int].links_within(n as nat));
            let v: i64 = self.genes[i].evaluate(senses, values.as_slice());
            values.set(i, v);
            i = i + 1;
        }
        values[n - 1]
    }
}

impl Chromosome {
    /// Whether the links of the chromosome stay within its gene list.
    pub fn is_well_formed(&self) -> (ok: bool)
        ensures
            ok == self@.wf(),
    {
        let n: usize = self.genes.len();
        let mut i: usize = 0;
        while i < n
            invariant
                i <= n,
                n == self.genes.len(),
                forall|k: int| 0 <= k < i ==> (#[trigger] self.genes@[k]).links_within(n as nat),
            decreases n - i,
        {
            let fits: bool = (match self.genes[i].prod_index {
                Some(idx) => idx < n,
                None => true,
            }) && (match self.genes[i].sum_index {
                Some(idx) => idx < n,
                None => true,
            });
            if !fits {
                assert(!self.genes@[i as int].links_within(n as nat));
                return false;
            }
            i = i + 1;
        }
        true
    }
}

impl Clone for Chromosome {
    fn clone(&self) -> (c: Self)
        ensures
            c@ == self@,
    {
        Self { genes: self.genes.clone(), ethnicity: self.ethnicity }
    }
}

impl Default for Chromosome {
    fn default() -> (c: Self)
        ensures
            c@ == (ChromosomeModel { genes: Seq::empty(), ethnicity: Ethnicity { uid: 0, r: 0, g: 0, b: 0 } }),
    {
        Self::new()
    }
}

} // verus!
