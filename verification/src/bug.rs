use crate::constants::{ACT_SLEEP, DIR_E, DIR_NE, DIR_NW, DIR_SE, DIR_SW, DIR_W, FAM_HIST, GENE_KNEE, N_DECISIONS, POS_HISTORY, WORLD_X, WORLD_Y};
use crate::fixed::{clamp_i32, tdiv, to_i32};
use crate::gene::{Chromosome, ChromosomeModel, Ethnicity};
use vstd::prelude::*;

verus! {

/// A cell coordinate on the hexagonal grid.
#[derive(Debug, Clone, Copy, PartialEq, Eq, Structural)]
pub struct Pos {
    pub x: i32,
    pub y: i32,
}

impl Pos {
    /// Whether the coordinate names a cell of the world.
    pub open spec fn in_world(self) -> bool {
        0 <= self.x < WORLD_X && 0 <= self.y < WORLD_Y
    }

    /// The neighbour one step along `facing`. Rows are offset: a diagonal step
    /// from an even row leans left, from an odd row right. A value that names
    /// no direction leaves the coordinate as it is.
    pub open spec fn stepped(self, facing: i8) -> Pos {
        let lean_right: int = if self.y % 2 == 0 {
            0
        } else {
            1
        };
        let lean_left: int = if self.y % 2 == 0 {
            -1
        } else {
            0
        };
        if facing == 0 {
            Pos { x: (self.x + 1) as i32, y: self.y }
        } else if facing == 3 {
            Pos { x: (self.x - 1) as i32, y: self.y }
        } else if facing == 1 {
            Pos { x: (self.x + lean_right) as i32, y: (self.y + 1) as i32 }
        } else if facing == 2 {
            Pos { x: (self.x + lean_left) as i32, y: (self.y + 1) as i32 }
        } else if facing == -1 {
            Pos { x: (self.x + lean_right) as i32, y: (self.y - 1) as i32 }
        } else if facing == -2 {
            Pos { x: (self.x + lean_left) as i32, y: (self.y - 1) as i32 }
        } else {
            self
        }
    }

    /// The coordinate brought into the world: a component below 0 becomes the
    /// last index of its axis, one at or beyond the extent becomes 0.
    pub open spec fn wrapped(self) -> Pos {
        Pos {
            x: if self.x < 0 {
                (WORLD_X - 1) as i32
            } else if self.x >= WORLD_X {
                0
            } else {
                self.x
            },
            y: if self.y < 0 {
                (WORLD_Y - 1) as i32
            } else if self.y >= WORLD_Y {
                0
            } else {
                self.y
            },
        }
    }

    pub fn new(x: i32, y: i32) -> (p: Self)
        ensures
            p == (Pos { x, y }),
    {
        Self { x, y }
    }

    /// One step along `facing` on the hexagonal grid.
    pub fn step(&self, facing: i8) -> (p: Self)
        requires
            i32::MIN < self.x < i32::MAX,
            i32::MIN < self.y < i32::MAX,
        ensures
            p == self.stepped(facing),
    {
        let even: bool = self.y % 2 == 0;
        let mut x: i32 = self.x;
        let mut y: i32 = self.y;
        if facing == DIR_E {
            x = x + 1;
        } else if facing == DIR_W {
            x = x - 1;
        } else if facing == DIR_SE {
            x = x + if even {
                0
            } else {
                1
            };
            y = y + 1;
        } else if facing == DIR_SW {
            x = x + if even {
                -1
            } else {
                0
            };
            y = y + 1;
        } else if facing == DIR_NE {
            x = x + if even {
                0
            } else {
                1
            };
            y = y - 1;
        } else if facing == DIR_NW {
            x = x + if even {
                -1
            } else {
                0
            };
            y = y - 1;
        }
        Pos { x, y }
    }

    /// Wraps the coordinate into the world.
    pub fn wrap(&self) -> (p: Self)
        ensures
            p == self.wrapped(),
            p.in_world(),
    {
        let x: i32 = if self.x < 0 {
            WORLD_X as i32 - 1
        } else if self.x >= WORLD_X as i32 {
            0
        } else {
            self.x
        };
        let y: i32 = if self.y < 0 {
            WORLD_Y as i32 - 1
        } else if self.y >= WORLD_Y as i32 {
            0
        } else {
            self.y
        };
        Pos { x, y }
    }
}

/// The physical state of a bug at one moment.
#[derive(Debug, Clone, Copy)]
pub struct BugState {
    pub pos: Pos,
    pub facing: i8,
    pub action: usize,
    /// Fixed point: 1024 per unit of mass.
    pub weight: i32,
    pub hydrate: i32,
}

/// What a brain is: per decision category a diploid pair of chromosomes, and
/// the metadata that travels with them.
pub struct BrainModel {
    pub decisions: Seq<(ChromosomeModel, ChromosomeModel)>,
    pub family: Seq<Ethnicity>,
    pub ethnicity: Ethnicity,
    pub generation: u32,
    pub divide_count: u8,
    pub n_genes: u16,
    pub expression: u16,
}

/// The number of genes in the first `n` decision pairs.
pub open spec fn gene_total(decisions: Seq<(ChromosomeModel, ChromosomeModel)>, n: nat) -> nat
    decreases n,
{
    if n == 0 || n > decisions.len() {
        0
    } else {
        gene_total(decisions, (n - 1) as nat) + decisions[n - 1].0.genes.len() + decisions[n
            - 1].1.genes.len()
    }
}

/// Whether both chromosomes of every pair are well-formed.
pub open spec fn pairs_fit(decisions: Seq<(ChromosomeModel, ChromosomeModel)>) -> bool {
    forall|i: int|
        0 <= i < decisions.len() ==> (#[trigger] decisions[i]).0.wf() && decisions[i].1.wf()
}

impl BrainModel {
    /// A brain has one pair of well-formed chromosomes per decision category
    /// and a divide fan-out between 2 and 7.
    pub open spec fn wf(self) -> bool {
        &&& self.decisions.len() == N_DECISIONS
        &&& 2 <= self.divide_count <= 7
        &&& pairs_fit(self.decisions)
    }

    /// The brain every new bug starts with: no genes, every copy expressed.
    pub open spec fn blank() -> BrainModel {
        let none = ChromosomeModel {
            genes: Seq::empty(),
            ethnicity: Ethnicity { uid: 0, r: 0, g: 0, b: 0 },
        };
        BrainModel {
            decisions: Seq::new(N_DECISIONS as nat, |i: int| (none, none)),
            family: Seq::new(FAM_HIST as nat, |i: int| Ethnicity { uid: 0, r: 0, g: 0, b: 0 }),
            ethnicity: Ethnicity { uid: 0, r: 0, g: 0, b: 0 },
            generation: 0,
            divide_count: 2,
            n_genes: 0,
            expression: 0xFFFF,
        }
    }

    /// Whether the expression bitmap selects copy A of category `idx`.
    pub open spec fn expresses_a(self, idx: usize) -> bool {
        idx < 8 && (self.expression & (1u16 << ((idx * 2) as u16))) != 0
    }

    /// Whether the expression bitmap selects copy B of category `idx`.
    pub open spec fn expresses_b(self, idx: usize) -> bool {
        idx < 8 && (self.expression & (1u16 << ((idx * 2 + 1) as u16))) != 0
    }

    /// The score of category `idx`: the sum of the outputs of its expressed
    /// copies, which is twice their mean with an unexpressed copy counted as
    /// 0. It is 0 for a category the brain does not have.
    pub open spec fn score(self, idx: usize, senses: Seq<i32>) -> int {
        if idx >= self.decisions.len() {
            0
        } else {
            (if self.expresses_a(idx) {
                self.decisions[idx as int].0.output(senses) as int
            } else {
                0
            }) + (if self.expresses_b(idx) {
                self.decisions[idx as int].1.output(senses) as int
            } else {
                0
            })
        }
    }

    /// The category with the highest score among the first `n`, the lowest
    /// such index where several tie.
    pub open spec fn best_of(self, senses: Seq<i32>, n: nat) -> usize
        decreases n,
    {
        if n <= 1 || n > usize::MAX {
            0
        } else {
            let earlier = self.best_of(senses, (n - 1) as nat);
            if self.score((n - 1) as usize, senses) > self.score(earlier, senses) {
                (n - 1) as usize
            } else {
                earlier
            }
        }
    }

    /// The action a brain chooses on a sense vector.
    pub open spec fn choice(self, senses: Seq<i32>) -> usize {
        self.best_of(senses, N_DECISIONS as nat)
    }

    /// The gene count this brain should cache.
    pub open spec fn counted(self) -> u16 {
        (gene_total(self.decisions, self.decisions.len()) % 0x10000) as u16
    }
}

/// `best_of` picks a category of highest score, and no earlier category
/// reaches that score.
pub proof fn lemma_best_of(brain: BrainModel, senses: Seq<i32>, n: nat)
    requires
        1 <= n <= usize::MAX,
    ensures
        brain.best_of(senses, n) < n,
        forall|j: usize| j < n ==> #[trigger] brain.score(j, senses) <= brain.score(brain.best_of(senses, n), senses),
        forall|j: usize| j < brain.best_of(senses, n) ==> #[trigger] brain.score(j, senses) < brain.score(brain.best_of(senses, n), senses),
    decreases n,
{
    if n > 1 {
        lemma_best_of(brain, senses, (n - 1) as nat);
    }
}

pub open spec fn pair_view(pair: (Chromosome, Chromosome)) -> (ChromosomeModel, ChromosomeModel) {
    (pair.0@, pair.1@)
}

/// A bug's decision apparatus.
#[derive(Debug)]
pub struct BugBrain {
    /// Two chromosomes, A and B, for each decision category.
    pub decisions: Vec<(Chromosome, Chromosome)>,
    /// Lineage history.
    pub family: Vec<Ethnicity>,
    pub ethnicity: Ethnicity,
    pub generation: u32,
    /// Number of offspring of one division, between 2 and 7.
    pub divide_count: u8,
    /// Cached total gene count.
    pub n_genes: u16,
    /// Two bits per category: which copies are evaluated.
    pub expression: u16,
}

impl View for BugBrain {
    type V = BrainModel;

    open spec fn view(&self) -> BrainModel {
        BrainModel {
            decisions: Seq::new(self.decisions.len() as nat, |i: int| pair_view(self.decisions[i])),
            family: self.family@,
            ethnicity: self.ethnicity,
            generation: self.generation,
            divide_count: self.divide_count,
            n_genes: self.n_genes,
            expression: self.expression,
        }
    }
}

impl BugBrain {
    pub fn new() -> (brain: Self)
        ensures
            brain@ == BrainModel::blank(),
            brain@.wf(),
    {
        let mut decisions: Vec<(Chromosome, Chromosome)> = Vec::new();
        let mut i: usize = 0;
        while i < N_DECISIONS
            invariant
                i <= N_DECISIONS,
                decisions.len() == i,
                forall|k: int| 0 <= k < i ==> pair_view(#[trigger] decisions[k]) == BrainModel::blank().decisions[k],
            decreases N_DECISIONS - i,
        {
            decisions.push((Chromosome::new(), Chromosome::new()));
            i = i + 1;
        }
        let family: Vec<Ethnicity> = vec![Ethnicity::default(); FAM_HIST];
        let brain = Self {
            decisions,
            family,
            ethnicity: Ethnicity::default(),
            generation: 0,
            divide_count: 2,
            n_genes: 0,
            expression: 0xFFFF,
        };
        assert(brain@.decisions =~= BrainModel::blank().decisions);
        assert(brain@.family =~= BrainModel::blank().family);
        brain
    }

    /// Counts the genes of all chromosomes, as a 16-bit number.
    pub fn count_genes(&self) -> (n: u16)
        requires
            self@.wf(),
        ensures
            n == self@.counted(),
    {
        let mut count: u128 = 0;
        let mut i: usize = 0;
        while i < self.decisions.len()
            invariant
                i <= self.decisions.len(),
                self.decisions.len() == N_DECISIONS,
                count == gene_total(self@.decisions, i as nat),
                count <= i * 0x2_0000_0000_0000_0000,
            decreases self.decisions.len() - i,
        {
            let a: usize = self.decisions[i].0.genes.len();
            let b: usize = self.decisions[i].1.genes.len();
            count = count + a as u128 + b as u128;
            i = i + 1;
        }
        (count % 0x10000) as u16
    }

    /// Refreshes the cached gene count.
    pub fn update_gene_count(&mut self)
        requires
            old(self)@.wf(),
        ensures
            final(self)@ == (BrainModel { n_genes: old(self)@.counted(), ..old(self)@ }),
    {
        self.n_genes = self.count_genes();
    }

    /// Scores one decision category on a sense vector: the sum of the outputs
    /// of the expressed copies, twice their mean.
    pub fn evaluate_decision(&self, decision_idx: usize, senses: &[i32]) -> (r: i128)
        requires
            self@.wf(),
        ensures
            r == self@.score(decision_idx, senses@),
    {
        if decision_idx >= self.decisions.len() {
            return 0;
        }
        assert(self@.decisions[decision_idx as int] == pair_view(self.decisions[decision_idx as int]));
        let use_a: bool = (self.expression & (1u16 << ((decision_idx * 2) as u16))) != 0;
        let use_b: bool = (self.expression & (1u16 << ((decision_idx * 2 + 1) as u16))) != 0;
        let val_a: i64 = if use_a {
            self.decisions[decision_idx].0.evaluate(senses)
        } else {
            0
        };
        let val_b: i64 = if use_b {
            self.decisions[decision_idx].1.evaluate(senses)
        } else {
            0
        };
        val_a as i128 + val_b as i128
    }

    /// The category with the highest score; the lowest index wins a tie.
    pub fn choose_action(&self, senses: &[i32]) -> (action: usize)
        requires
            self@.wf(),
        ensures
            action == self@.choice(senses@),
            action < N_DECISIONS,
            forall|j: usize| j < N_DECISIONS ==> #[trigger] self@.score(j, senses@) <= self@.score(action, senses@),
            forall|j: usize| j < action ==> #[trigger] self@.score(j, senses@) < self@.score(action, senses@),
    {
        let mut best: usize = 0;
        let mut best_score: i128 = self.evaluate_decision(0, senses);
        let mut i: usize = 1;
        while i < N_DECISIONS
            invariant
                1 <= i <= N_DECISIONS,
                self@.wf(),
                best == self@.best_of(senses@, i as nat),
                best_score == self@.score(best, senses@),
            decreases N_DECISIONS - i,
        {
            let s: i128 = self.evaluate_decision(i, senses);
            if s > best_score {
                best = i;
                best_score = s;
            }
            i = i + 1;
        }
        proof {
            lemma_best_of(self@, senses@, N_DECISIONS as nat);
        }
        best
    }
}

impl BugBrain {
    /// Whether the brain is well-formed.
    pub fn is_well_formed(&self) -> (ok: bool)
        ensures
            ok == self@.wf(),
    {
        if self.decisions.len() != N_DECISIONS || self.divide_count < 2 || self.divide_count > 7 {
            return false;
        }
        let mut i: usize = 0;
        while i < N_DECISIONS
            invariant
                i <= N_DECISIONS,
                self.decisions.len() == N_DECISIONS,
                forall|k: int|
                    0 <= k < i ==> (#[trigger] self@.decisions[k]).0.wf() && self@.decisions[k].1.wf(),
            decreases N_DECISIONS - i,
        {
            assert(self@.decisions[i as int] == pair_view(self.decisions[i as int]));
            if !self.decisions[i].0.is_well_formed() || !self.decisions[i].1.is_well_formed() {
                return false;
            }
            i = i + 1;
        }
        true
    }
}

impl Clone for BugBrain {
    fn clone(&self) -> (brain: Self)
        ensures
            brain@ == self@,
    {
        let mut decisions: Vec<(Chromosome, Chromosome)> = Vec::new();
        let mut i: usize = 0;
        while i < self.decisions.len()
            invariant
                i <= self.decisions.len(),
                decisions.len() == i,
                forall|k: int| 0 <= k < i ==> pair_view(#[trigger] decisions[k]) == pair_view(self.decisions[k]),
            decreases self.decisions.len() - i,
        {
            decisions.push((self.decisions[i].0.clone(), self.decisions[i].1.clone()));
            i = i + 1;
        }
        let brain = Self {
            decisions,
            family: self.family.clone(),
            ethnicity: self.ethnicity,
            generation: self.generation,
            divide_count: self.divide_count,
            n_genes: self.n_genes,
            expression: self.expression,
        };
        assert(brain@.decisions =~= self@.decisions);
        brain
    }
}

impl Default for BugBrain {
    fn default() -> (brain: Self)
        ensures
            brain@ == BrainModel::blank(),
    {
        Self::new()
    }
}

/// The life history of a bug.
#[derive(Debug, Clone, Copy)]
pub struct BugData {
    pub birthday: i32,
    pub kills: u32,
    pub defends: u32,
    pub moves: u32,
    pub mate_success: u32,
    pub mate_reject: u32,
    pub children: u32,
    pub food_consumed: i32,
    /// Number of ticks spent under water.
    pub underwater: i32,
}

impl BugData {
    /// The record of a bug born at `birthday` that has done nothing yet.
    pub open spec fn born(birthday: i32) -> BugData {
        BugData {
            birthday,
            kills: 0,
            defends: 0,
            moves: 0,
            mate_success: 0,
            mate_reject: 0,
            children: 0,
            food_consumed: 0,
            underwater: 0,
        }
    }
}

impl Default for BugData {
    fn default() -> (d: Self)
        ensures
            d == BugData::born(0),
    {
        Self {
            birthday: 0,
            kills: 0,
            defends: 0,
            moves: 0,
            mate_success: 0,
            mate_reject: 0,
            children: 0,
            food_consumed: 0,
            underwater: 0,
        }
    }
}

/// What a bug is.
pub struct BugModel {
    pub id: u64,
    pub brain: BrainModel,
    pub data: BugData,
    pub current_state: BugState,
    /// Past states, most recent first.
    pub position_history: Seq<BugState>,
}

impl BugModel {
    /// A bug has a well-formed brain, faces one of the six directions and
    /// has a history of fixed capacity.
    pub open spec fn wf(self) -> bool {
        &&& self.brain.wf()
        &&& -2 <= self.current_state.facing <= 3
        &&& self.position_history.len() == POS_HISTORY
    }

    /// The bug as it is created: facing east, asleep, with ten units of mass,
    /// a blank brain of its own lineage, and a history filled with its first
    /// state.
    pub open spec fn hatched(id: u64, pos: Pos, birthday: i32) -> BugModel {
        let state = BugState { pos, facing: 0, action: 0, weight: 10240, hydrate: 10 };
        BugModel {
            id,
            brain: BrainModel {
                ethnicity: Ethnicity { uid: id, r: 0, g: 0, b: 0 },
                ..BrainModel::blank()
            },
            data: BugData::born(birthday),
            current_state: state,
            position_history: Seq::new(POS_HISTORY as nat, |i: int| state),
        }
    }

    /// The bug after `state` has been pushed onto its history: `state` in
    /// front, the oldest entry dropped.
    pub open spec fn remembering(self, state: BugState) -> BugModel {
        BugModel { position_history: seq![state] + self.position_history.drop_last(), ..self }
    }

    /// The bug after its current state has been pushed onto its history.
    pub open spec fn recorded(self) -> BugModel {
        self.remembering(self.current_state)
    }

    /// The bug with another weight.
    pub open spec fn with_weight(self, weight: i32) -> BugModel {
        BugModel { current_state: BugState { weight, ..self.current_state }, ..self }
    }
}

/// An organism: identity, brain, life history, physical state and a bounded
/// history of past states.
#[derive(Debug)]
pub struct Bug {
    pub id: u64,
    pub brain: BugBrain,
    pub data: BugData,
    pub current_state: BugState,
    pub position_history: Vec<BugState>,
}

impl View for Bug {
    type V = BugModel;

    open spec fn view(&self) -> BugModel {
        BugModel {
            id: self.id,
            brain: self.brain@,
            data: self.data,
            current_state: self.current_state,
            position_history: self.position_history@,
        }
    }
}

impl Bug {
    pub fn new(id: u64, pos: Pos, birthday: i32) -> (bug: Self)
        ensures
            bug@ == BugModel::hatched(id, pos, birthday),
            bug@.wf(),
    {
        let state = BugState { pos, facing: DIR_E, action: ACT_SLEEP, weight: 1024 * 10, hydrate: 10 };
        let mut brain = BugBrain::new();
        brain.ethnicity.uid = id;
        let history: Vec<BugState> = vec![state; POS_HISTORY];
        let bug = Self {
            id,
            brain,
            data: BugData {
                birthday,
                kills: 0,
                defends: 0,
                moves: 0,
                mate_success: 0,
                mate_reject: 0,
                children: 0,
                food_consumed: 0,
                underwater: 0,
            },
            current_state: state,
            position_history: history,
        };
        assert(bug@.position_history =~= BugModel::hatched(id, pos, birthday).position_history);
        bug
    }

    /// Pushes a state onto the history; the oldest entry is lost.
    pub fn remember(&mut self, state: BugState)
        requires
            old(self).position_history.len() > 0,
        ensures
            final(self)@ == old(self)@.remembering(state),
    {
        self.position_history.pop();
        self.position_history.insert(0, state);
        assert(self.position_history@ =~= seq![state] + old(self).position_history@.drop_last());
    }

    /// Pushes the current state onto the history; the oldest entry is lost.
    pub fn record_position(&mut self)
        requires
            old(self).position_history.len() > 0,
        ensures
            final(self)@ == old(self)@.recorded(),
    {
        let state = self.current_state;
        self.remember(state);
    }

    /// Age in ticks at `current_tick`, held to the `i32` range.
    pub fn age(&self, current_tick: i32) -> (a: i32)
        ensures
            a == clamp_i32(current_tick - self.data.birthday),
    {
        to_i32(current_tick as i64 - self.data.birthday as i64)
    }

    /// Mass in whole units.
    pub fn dry_weight(&self) -> (w: i32)
        ensures
            w == tdiv(self.current_state.weight as int, 1024),
    {
        self.current_state.weight / 1024
    }

    /// Whether water of the given depth would drown this bug.
    pub fn would_drown(&self, water_depth: i32) -> (b: bool)
        ensures
            b == (water_depth > tdiv(self.current_state.weight * 10, 1024)),
    {
        water_depth as i64 > (self.current_state.weight as i64 * 10) / 1024
    }

    /// Cost of living from the cached gene count: its cube over the square of
    /// the knee, held to the `i32` range.
    pub fn gene_cost(&self) -> (c: i32)
        ensures
            c == clamp_i32(
                (self.brain.n_genes * self.brain.n_genes * self.brain.n_genes) / (GENE_KNEE
                    * GENE_KNEE),
            ),
    {
        let n: i64 = self.brain.n_genes as i64;
        let knee: i64 = GENE_KNEE as i64;
        assert(0 <= n * n <= 0xffff * 0xffff) by (nonlinear_arith)
            requires
                0 <= n <= 0xffff,
        ;
        assert(0 <= n * n * n <= 0xffff * 0xffff * 0xffff) by (nonlinear_arith)
            requires
                0 <= n <= 0xffff,
        ;
        to_i32((n * n * n) / (knee * knee))
    }
}

impl Clone for Bug {
    fn clone(&self) -> (bug: Self)
        ensures
            bug@ == self@,
    {
        Self {
            id: self.id,
            brain: self.brain.clone(),
            data: self.data,
            current_state: self.current_state,
            position_history: self.position_history.clone(),
        }
    }
}

} // verus!
