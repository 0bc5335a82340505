use crate::bug::{pair_view, BrainModel, Bug, BugData, BugModel, BugState, Pos};
use crate::constants::{
    ACT_DIVIDE, ACT_EAT, ACT_MATE, ACT_MOVE, ACT_SLEEP, ACT_TURN_CCW, ACT_TURN_CW,
    COST_MATE_INITIAL, COST_MOVE, COST_SLEEP, COST_TURN, FOOD_CAP, FOOD_SPREAD, FOOD_START,
    ITEM_FOOD, L_HIST, N_DECISIONS, N_SENSES, POP_HARD_LIMIT, POP_TARGET, SEASON_LENGTH, SELF_AGE,
    THIRST_SENSE, WORLD_X, WORLD_Y,
};
use crate::fixed::{clamp_i32, tdiv, to_i32};
use crate::gene::{Chromosome, ChromosomeModel, Ethnicity, Gene};
use crate::ids::{ascending, fold_ids, folded_to, id_limit, lemma_fold_done, lemma_fold_next};
use crate::laws::lemma_ticked;
use crate::rng::{DeterministicRng, Draws};
use crate::world::{
    lemma_cells_view, lemma_index_size, lemma_with_bug_wf, lemma_wf_frame, lemma_with_cell_wf, lemma_without_wf,
    Cell, World, WorldModel, WorldStats,
};
use std::collections::VecDeque;
use vstd::prelude::*;

verus! {

/// One in the fixed-point scale of the food-growth multiplier.
pub const HUMP_UNIT: i64 = 1_000_000_000;

/// The largest food-growth multiplier that is held; at it the growth per
/// tick has left the `i32` range.
pub const HUMP_MAX: i64 = 214_748_364_800_000_000;

/// Most food a bug takes from its cell in one tick.
pub const BITE: i32 = 100;

/// What a run is configured with.
#[derive(Debug, Clone, Copy)]
pub struct SimConfig {
    pub seed: u64,
    /// The tick at which the run ends, if any.
    pub max_ticks: Option<i32>,
}

impl Default for SimConfig {
    fn default() -> (c: Self)
        ensures
            c == (SimConfig { seed: 42, max_ticks: None }),
    {
        Self { seed: 42, max_ticks: None }
    }
}

/// What a simulation is: the world, the place in the random stream, the
/// configuration, the difficulty parameters and the statistics window.
pub struct SimModel {
    pub world: WorldModel,
    pub rng: Draws,
    pub config: SimConfig,
    pub food_hump: i64,
    pub safety: i32,
    pub leak: i32,
    pub force_mate: u8,
    pub cost_mate: i32,
    pub drink_or_die: i32,
    pub age_div: i32,
    pub target_pop: usize,
    pub stats_history: Seq<WorldStats>,
}

/// The direction of the `i`-th neighbour a bug senses: east, south-east,
/// south-west, west, north-west, north-east.
pub open spec fn sense_dir(i: int) -> i8 {
    if i == 0 {
        0
    } else if i == 1 {
        1
    } else if i == 2 {
        2
    } else if i == 3 {
        3
    } else if i == 4 {
        -2i8
    } else {
        -1i8
    }
}

/// The facing after one hex-step clockwise.
pub open spec fn turned_cw(facing: i8) -> i8 {
    if facing == -2 {
        3
    } else {
        (facing - 1) as i8
    }
}

/// The facing after one hex-step counter-clockwise.
pub open spec fn turned_ccw(facing: i8) -> i8 {
    if facing == 3 {
        -2i8
    } else {
        (facing + 1) as i8
    }
}

impl WorldModel {
    /// Entry `k` of the sense vector of bug `id`. Each of the six neighbour
    /// cells fills four entries: its food, and, where a bug stands on it,
    /// that bug's mass in whole units, its facing relative to the sensing
    /// bug's, and a genetic match that is always 0. Two more entries hold
    /// the bug's own age and hydration. All others are 0.
    pub open spec fn sense_entry(self, id: u64, k: int) -> i32 {
        let me = self.bugs[id];
        if 0 <= k < 24 {
            let there = me.current_state.pos.stepped(sense_dir(k / 4));
            if k % 4 == 0 {
                if self.has_cell(there) {
                    self.cell(there).food
                } else {
                    0
                }
            } else if self.has_bug_at(there) {
                let other = self.bugs[self.occupant(there)];
                if k % 4 == 1 {
                    tdiv(other.current_state.weight as int, 1024) as i32
                } else if k % 4 == 2 {
                    ((other.current_state.facing - me.current_state.facing + 6) % 6) as i32
                } else {
                    0
                }
            } else {
                0
            }
        } else if k == SELF_AGE {
            clamp_i32(self.current_tick - me.data.birthday)
        } else if k == THIRST_SENSE {
            me.current_state.hydrate
        } else {
            0
        }
    }

    /// The sense vector of bug `id`; all 0 if there is no such bug.
    pub open spec fn senses(self, id: u64) -> Seq<i32> {
        Seq::new(
            N_SENSES as nat,
            |k: int|
                if self.bugs.contains_key(id) {
                    self.sense_entry(id, k)
                } else {
                    0
                },
        )
    }
}

impl SimModel {
    /// The world is well-formed and the food-growth multiplier is in range.
    pub open spec fn wf(self) -> bool {
        &&& self.world.wf()
        &&& 0 <= self.food_hump <= HUMP_MAX
    }

    /// Whether bug `id` lives.
    pub open spec fn alive(self, id: u64) -> bool {
        self.world.bugs.contains_key(id)
    }

    /// Bug `id`.
    pub open spec fn bug(self, id: u64) -> BugModel {
        self.world.bugs[id]
    }

    /// The simulation with bug `id` replaced.
    pub open spec fn with_bug(self, id: u64, bug: BugModel) -> SimModel {
        SimModel { world: self.world.with_bug(id, bug), ..self }
    }

    /// Sleeping costs a flat amount of weight.
    pub open spec fn slept(self, id: u64) -> SimModel {
        if !self.alive(id) {
            self
        } else {
            let b = self.bug(id);
            self.with_bug(
                id,
                BugModel {
                    current_state: BugState {
                        weight: clamp_i32(b.current_state.weight - COST_SLEEP),
                        action: ACT_SLEEP,
                        ..b.current_state
                    },
                    ..b
                },
            )
        }
    }

    /// The food a bug at `pos` takes in one bite: what its cell holds, at
    /// most `BITE`.
    pub open spec fn bite(self, pos: Pos) -> i32 {
        let found = if self.world.has_cell(pos) {
            self.world.cell(pos).food
        } else {
            0
        };
        if found < BITE {
            found
        } else {
            BITE
        }
    }

    /// Eating moves one bite of food from the cell into the bug's weight.
    pub open spec fn ate(self, id: u64) -> SimModel {
        if !self.alive(id) {
            self
        } else {
            let b = self.bug(id);
            let pos = b.current_state.pos;
            let bite = self.bite(pos);
            let world = if self.world.has_cell(pos) {
                self.world.with_cell(
                    pos,
                    Cell { food: (self.world.cell(pos).food - bite) as i32, ..self.world.cell(pos) },
                )
            } else {
                self.world
            };
            SimModel {
                world: world.with_bug(
                    id,
                    BugModel {
                        current_state: BugState {
                            weight: clamp_i32(b.current_state.weight + bite),
                            action: ACT_EAT,
                            ..b.current_state
                        },
                        data: BugData {
                            food_consumed: clamp_i32(b.data.food_consumed + bite),
                            ..b.data
                        },
                        ..b
                    },
                ),
                ..self
            }
        }
    }

    /// Turning rotates the facing by one hex-step, clockwise for a positive
    /// `direction`, and costs a flat amount of weight.
    pub open spec fn turned(self, id: u64, direction: i8) -> SimModel {
        if !self.alive(id) {
            self
        } else {
            let b = self.bug(id);
            self.with_bug(
                id,
                BugModel {
                    current_state: BugState {
                        facing: if direction > 0 {
                            turned_cw(b.current_state.facing)
                        } else {
                            turned_ccw(b.current_state.facing)
                        },
                        weight: clamp_i32(b.current_state.weight - COST_TURN),
                        action: if direction > 0 {
                            ACT_TURN_CW
                        } else {
                            ACT_TURN_CCW
                        },
                        ..b.current_state
                    },
                    ..b
                },
            )
        }
    }

    /// Moving takes the bug one cell along its facing if that cell is free:
    /// it then pays the cost, counts the move, and pushes the state it had
    /// before the move onto its history. Nothing changes if the cell is
    /// occupied.
    pub open spec fn stepped_forward(self, id: u64) -> SimModel {
        if !self.alive(id) {
            self
        } else {
            let prior = self.bug(id).current_state;
            let ahead = prior.pos.stepped(prior.facing);
            if !self.world.can_move(id, ahead) {
                self
            } else {
                let world = self.world.moved(id, ahead);
                let b = world.bugs[id];
                let paid = BugModel {
                    current_state: BugState {
                        weight: clamp_i32(b.current_state.weight - COST_MOVE),
                        action: ACT_MOVE,
                        ..b.current_state
                    },
                    data: BugData {
                        moves: if b.data.moves < u32::MAX {
                            (b.data.moves + 1) as u32
                        } else {
                            b.data.moves
                        },
                        ..b.data
                    },
                    ..b
                };
                SimModel { world: world.with_bug(id, paid.remembering(prior)), ..self }
            }
        }
    }
}


/// The forced-mating mask at `tick`: it is set anew at fixed ticks and kept
/// in between.
pub open spec fn staged_force_mate(tick: i32, now: u8) -> u8 {
    if tick == 3000 {
        0x10
    } else if tick == 4000 {
        0x30
    } else if tick == 5000 {
        0x70
    } else if tick == 6000 {
        0x71
    } else if tick == 7000 {
        0x73
    } else if tick == 8000 {
        0x77
    } else if tick == 9000 {
        0x7F
    } else {
        now
    }
}

/// The cost of mating at `tick`.
pub open spec fn staged_cost_mate(tick: i32, now: i32) -> i32 {
    if tick == 10000 {
        24
    } else if tick == 11000 {
        48
    } else if tick == 12000 {
        96
    } else if tick == 13000 {
        144
    } else {
        now
    }
}

/// The dehydration severity at `tick`.
pub open spec fn staged_drink(tick: i32, now: i32) -> i32 {
    if tick == 14000 {
        3
    } else if tick == 15000 {
        2
    } else if tick == 16000 {
        1
    } else {
        now
    }
}

/// The growth multiplier raised by a thousandth, held to `HUMP_MAX`.
pub open spec fn raised(hump: i64) -> i64 {
    if hump * 1001 / 1000 > HUMP_MAX {
        HUMP_MAX
    } else {
        (hump * 1001 / 1000) as i64
    }
}

/// The growth multiplier lowered by the same factor.
pub open spec fn lowered(hump: i64) -> i64 {
    (hump * 1000 / 1001) as i64
}

/// Keeps the earlier of a birthday and that of bug `id`.
pub open spec fn keep_oldest(bugs: Map<u64, BugModel>) -> spec_fn(int, u64) -> int {
    |acc: int, id: u64|
        if bugs[id].data.birthday < acc {
            bugs[id].data.birthday as int
        } else {
            acc
        }
}

/// One step of the pass over the bugs, whose state is the simulation and
/// the list of the starved: bug `id` has its turn, and joins the list if it
/// then lives at a weight of 0 or less.
pub open spec fn pass_step() -> spec_fn((SimModel, Seq<u64>), u64) -> (SimModel, Seq<u64>) {
    |acc: (SimModel, Seq<u64>), id: u64|
        {
            let s = acc.0.processed(id);
            if s.alive(id) && s.bug(id).current_state.weight <= 0 {
                (s, acc.1.push(id))
            } else {
                (s, acc.1)
            }
        }
}

/// The world after the first `n` bugs of `dead` have been removed.
pub open spec fn buried(world: WorldModel, dead: Seq<u64>, n: nat) -> WorldModel
    decreases n,
{
    if n == 0 || n > dead.len() {
        world
    } else {
        buried(world, dead, (n - 1) as nat).without(dead[n - 1])
    }
}

/// The gene with which copy A or B of category `i` of the founder starts:
/// a strong pull to eat where food is sensed, a strong urge to divide, and
/// small constants elsewhere.
pub open spec fn founder_gene(i: int, copy_b: bool) -> Gene {
    if i == ACT_SLEEP {
        Gene::constant(5)
    } else if i == ACT_EAT {
        if copy_b {
            Gene::constant(100)
        } else {
            Gene::sense(ITEM_FOOD)
        }
    } else if i == ACT_TURN_CW || i == ACT_TURN_CCW {
        Gene::constant(20)
    } else if i == ACT_MOVE {
        Gene::constant(40)
    } else if i == ACT_MATE {
        Gene::constant(15)
    } else if i == ACT_DIVIDE {
        Gene::constant(1000)
    } else {
        Gene::constant(10)
    }
}

/// The decision pairs of the founder, of lineage `e`.
pub open spec fn founder_pairs(e: Ethnicity) -> Seq<(ChromosomeModel, ChromosomeModel)> {
    Seq::new(
        N_DECISIONS as nat,
        |i: int|
            (
                ChromosomeModel { genes: seq![founder_gene(i, false)], ethnicity: e },
                ChromosomeModel { genes: seq![founder_gene(i, true)], ethnicity: e },
            ),
    )
}

/// The cell every world starts with.
pub open spec fn seeded_cell() -> Cell {
    Cell { food: FOOD_START, ..Cell::bare() }
}

impl WorldModel {
    /// The earliest birthday among the bugs.
    pub open spec fn oldest_birthday(self) -> int {
        fold_ids(self.bugs.dom(), id_limit(), i32::MAX as int, keep_oldest(self.bugs))
    }
}

impl SimModel {
    /// The simulation after bug `id` has carried out `action`.
    pub open spec fn acted(self, id: u64, action: usize) -> SimModel {
        if action == ACT_SLEEP {
            self.slept(id)
        } else if action == ACT_EAT {
            self.ate(id)
        } else if action == ACT_TURN_CW {
            self.turned(id, 1)
        } else if action == ACT_TURN_CCW {
            self.turned(id, -1i8)
        } else if action == ACT_MOVE {
            self.stepped_forward(id)
        } else if action == ACT_MATE {
            self.mated(id)
        } else if action == ACT_DIVIDE {
            self.divided(id)
        } else {
            self
        }
    }

    /// The simulation after bug `id` has sensed, decided and acted.
    pub open spec fn processed(self, id: u64) -> SimModel {
        if !self.alive(id) {
            self
        } else {
            self.acted(id, self.bug(id).brain.choice(self.world.senses(id)))
        }
    }

    /// The simulation after every bug alive at the start of the pass has been
    /// processed, in ascending order of identifier, and the bugs that then
    /// stood at a weight of 0 or less, in that order.
    pub open spec fn passed(self) -> (SimModel, Seq<u64>) {
        fold_ids(self.world.bugs.dom(), id_limit(), (self, Seq::<u64>::empty()), pass_step())
    }

    /// The simulation after the pass over the bugs and the removal of the
    /// starved.
    pub open spec fn swept(self) -> SimModel {
        let (s, dead) = self.passed();
        SimModel { world: buried(s.world, dead, dead.len()), ..s }
    }

    /// The simulation after the difficulty parameters have been updated for
    /// the current tick.
    pub open spec fn tuned(self) -> SimModel {
        let tick = self.world.current_tick;
        let pop = self.world.bugs.len();
        let tuning = tick > 3000 && tick > SEASON_LENGTH;
        let hump1 = if tuning && tick % 32 == 0 && self.age_div < 30 {
            raised(self.food_hump)
        } else {
            self.food_hump
        };
        let hump2 = if tuning && tick % 32 == 0 && self.age_div > 300 {
            lowered(hump1)
        } else {
            hump1
        };
        let age1 = if tuning && tick % 8 == 0 {
            clamp_i32(self.age_div + 1)
        } else {
            self.age_div
        };
        let age2 = if pop < self.target_pop && age1 > 0 {
            (age1 - 1) as i32
        } else {
            age1
        };
        let age3 = if pop > POP_HARD_LIMIT {
            clamp_i32(tick - self.world.oldest_birthday())
        } else {
            age2
        };
        SimModel {
            force_mate: staged_force_mate(tick, self.force_mate),
            cost_mate: staged_cost_mate(tick, self.cost_mate),
            drink_or_die: staged_drink(tick, self.drink_or_die),
            food_hump: hump2,
            age_div: age3,
            ..self
        }
    }

    /// The food a cell gains per tick.
    pub open spec fn growth(self) -> i32 {
        clamp_i32(FOOD_SPREAD * self.food_hump / (HUMP_UNIT as int))
    }

    /// Cell `(x, y)` after food has grown: up by the growth, at most to
    /// `FOOD_CAP`; unchanged under a bug when the leak is off.
    pub open spec fn grown(self, x: int, y: int) -> Cell {
        let c = self.world.cells[x][y];
        if self.leak == 0 && self.world.has_bug_at(Pos { x: x as i32, y: y as i32 }) {
            c
        } else if c.food + self.growth() < FOOD_CAP {
            Cell { food: (c.food + self.growth()) as i32, ..c }
        } else {
            Cell { food: FOOD_CAP, ..c }
        }
    }

    /// The simulation after food has grown in every cell.
    pub open spec fn fed(self) -> SimModel {
        SimModel {
            world: WorldModel {
                cells: Seq::new(
                    WORLD_X as nat,
                    |x: int| Seq::new(WORLD_Y as nat, |y: int| self.grown(x, y)),
                ),
                ..self.world
            },
            ..self
        }
    }

    /// The simulation after the statistics of the world have been appended
    /// to the window, the oldest record dropped from a full window.
    pub open spec fn recorded(self) -> SimModel {
        SimModel { stats_history: windowed(self.stats_history, self.world.stats()), ..self }
    }

    /// The simulation one tick on: the tick is counted, the difficulty
    /// parameters are updated, the bugs act and the starved are removed, food
    /// grows, and the statistics are recorded.
    pub open spec fn ticked(self) -> SimModel {
        SimModel {
            world: WorldModel {
                current_tick: (self.world.current_tick + 1) as i32,
                ..self.world
            },
            ..self
        }.tuned().swept().fed().recorded()
    }

    /// Whether the run goes on: the tick ceiling has not been reached and
    /// bugs are left.
    pub open spec fn running(self) -> bool {
        &&& match self.config.max_ticks {
            Some(max) => self.world.current_tick < max,
            None => true,
        }
        &&& self.world.bugs.len() > 0
    }

    /// The simulation after `n` ticks.
    pub open spec fn after(self, n: nat) -> SimModel
        decreases n,
    {
        if n == 0 {
            self
        } else {
            self.after((n - 1) as nat).ticked()
        }
    }

    /// The founder: a bug in the middle of the world whose lineage is drawn
    /// from the stream, an identifier first and then the three colour
    /// channels.
    pub open spec fn founder(d: Draws) -> BugModel {
        let e = Ethnicity {
            uid: d.wide(),
            r: (d.skip(2).range(256) % 256) as u8,
            g: (d.skip(3).range(256) % 256) as u8,
            b: (d.skip(4).range(256) % 256) as u8,
        };
        let fresh = BugModel::hatched(0, Pos { x: (WORLD_X / 2) as i32, y: (WORLD_Y / 2) as i32 }, 0);
        let brain = BrainModel { decisions: founder_pairs(e), ethnicity: e, ..fresh.brain };
        BugModel { brain: BrainModel { n_genes: brain.counted(), ..brain }, ..fresh }
    }

    /// The simulation a run starts from: flat dry ground with the starting
    /// food in every cell, the founder as the only bug, and the difficulty
    /// parameters at their first stage.
    pub open spec fn genesis(config: SimConfig) -> SimModel {
        let d = Draws::start(config.seed);
        SimModel {
            world: WorldModel {
                cells: Seq::new(
                    WORLD_X as nat,
                    |x: int| Seq::new(WORLD_Y as nat, |y: int| seeded_cell()),
                ),
                ..WorldModel::empty()
            }.placed(Self::founder(d)),
            rng: d.skip(5),
            config,
            food_hump: HUMP_UNIT,
            safety: 1,
            leak: 1,
            force_mate: 0,
            cost_mate: COST_MATE_INITIAL,
            drink_or_die: 0,
            age_div: 0,
            target_pop: POP_TARGET,
            stats_history: Seq::empty(),
        }
    }
}

/// Removing bugs keeps the world well-formed.
pub proof fn lemma_buried_wf(world: WorldModel, dead: Seq<u64>, n: nat)
    requires
        world.wf(),
    ensures
        buried(world, dead, n).wf(),
    decreases n,
{
    if n > 0 && n <= dead.len() {
        lemma_buried_wf(world, dead, (n - 1) as nat);
        lemma_without_wf(buried(world, dead, (n - 1) as nat), dead[n - 1]);
    }
}

/// The window after `stats` has been appended, the oldest record dropped
/// from a full window.
pub open spec fn windowed(window: Seq<WorldStats>, stats: WorldStats) -> Seq<WorldStats> {
    (if window.len() >= L_HIST {
        window.subrange(1, window.len() as int)
    } else {
        window
    }).push(stats)
}

/// Appends a record to a statistics window of bounded length.
pub fn record_stats(window: &mut VecDeque<WorldStats>, stats: WorldStats)
    ensures
        final(window)@ == windowed(old(window)@, stats),
{
    if window.len() >= L_HIST {
        window.pop_front();
    }
    window.push_back(stats);
}

/// The simulation engine.
pub struct Simulation {
    pub world: World,
    pub rng: DeterministicRng,
    pub config: SimConfig,
    /// Food-growth multiplier, fixed point: `HUMP_UNIT` is one.
    pub food_hump: i64,
    pub safety: i32,
    pub leak: i32,
    pub force_mate: u8,
    pub cost_mate: i32,
    pub drink_or_die: i32,
    pub age_div: i32,
    pub target_pop: usize,
    pub stats_history: VecDeque<WorldStats>,
}

impl View for Simulation {
    type V = SimModel;

    open spec fn view(&self) -> SimModel {
        SimModel {
            world: self.world@,
            rng: self.rng@,
            config: self.config,
            food_hump: self.food_hump,
            safety: self.safety,
            leak: self.leak,
            force_mate: self.force_mate,
            cost_mate: self.cost_mate,
            drink_or_die: self.drink_or_die,
            age_div: self.age_div,
            target_pop: self.target_pop,
            stats_history: self.stats_history@,
        }
    }
}

/// The direction of the `i`-th neighbour a bug senses.
fn dir_of(i: usize) -> (d: i8)
    requires
        i < 6,
    ensures
        d == sense_dir(i as int),
{
    if i == 0 {
        0
    } else if i == 1 {
        1
    } else if i == 2 {
        2
    } else if i == 3 {
        3
    } else if i == 4 {
        -2
    } else {
        -1
    }
}

impl World {
    /// Gathers the sense vector of a bug.
    pub fn gather_senses(&self, bug_id: u64) -> (senses: Vec<i32>)
        requires
            self@.wf(),
        ensures
            senses@ == self@.senses(bug_id),
    {
        let mut senses: Vec<i32> = vec![0i32; N_SENSES];
        let bug = match self.get_bug(bug_id) {
            Some(b) => b,
            None => {
                assert(senses@ =~= self@.senses(bug_id));
                return senses;
            },
        };
        assert(self@.settled(bug_id));
        let pos = bug.current_state.pos;
        let facing = bug.current_state.facing;
        let mut i: usize = 0;
        while i < 6
            invariant
                i <= 6,
                self@.wf(),
                self@.bugs.contains_key(bug_id),
                pos == self@.bugs[bug_id].current_state.pos,
                facing == self@.bugs[bug_id].current_state.facing,
                pos.in_world(),
                senses.len() == N_SENSES,
                forall|k: int| 0 <= k < 4 * i ==> senses[k] == self@.sense_entry(bug_id, k),
                forall|k: int| 4 * i <= k < N_SENSES ==> senses[k] == 0,
            decreases 6 - i,
        {
            let there = pos.step(dir_of(i));
            let base: usize = i * 4;
            match self.get_cell(there) {
                Some(cell) => {
                    senses.set(base, cell.food);
                },
                None => {},
            }
            match self.get_bug_at(there) {
                Some(other) => {
                    assert(self@.settled(self@.occupant(there)));
                    senses.set(base + 1, other.current_state.weight / 1024);
                    senses.set(
                        base + 2,
                        (other.current_state.facing as i32 - facing as i32 + 6) % 6,
                    );
                    senses.set(base + 3, 0);
                },
                None => {},
            }
            assert forall|k: int| 0 <= k < 4 * (i + 1) implies senses[k] == self@.sense_entry(
                bug_id,
                k,
            ) by {
                if k >= 4 * i {
                    assert(k / 4 == i);
                }
            }
            i = i + 1;
        }
        senses.set(SELF_AGE, to_i32(self.current_tick as i64 - bug.data.birthday as i64));
        senses.set(THIRST_SENSE, bug.current_state.hydrate);
        assert(senses@ =~= self@.senses(bug_id));
        senses
    }
}

impl Simulation {
    /// Lets a bug sleep.
    pub fn action_sleep(&mut self, bug_id: u64)
        requires
            old(self)@.wf(),
        ensures
            final(self)@ == old(self)@.slept(bug_id),
            final(self)@.wf(),
    {
        let ghost before = self@;
        match self.world.get_bug_mut(bug_id) {
            Some(bug) => {
                bug.current_state.weight = to_i32(bug.current_state.weight as i64 - COST_SLEEP as i64);
                bug.current_state.action = ACT_SLEEP;
            },
            None => {},
        }
        proof {
            if before.alive(bug_id) {
                assert(before.world.settled(bug_id));
                lemma_with_bug_wf(before.world, bug_id, before.slept(bug_id).bug(bug_id));
            }
        }
    }

    /// Lets a bug eat from its cell.
    pub fn action_eat(&mut self, bug_id: u64)
        requires
            old(self)@.wf(),
        ensures
            final(self)@ == old(self)@.ate(bug_id),
            final(self)@.wf(),
    {
        let ghost before = self@;
        let pos = match self.world.get_bug(bug_id) {
            Some(b) => b.current_state.pos,
            None => {
                return ;
            },
        };
        let found: i32 = match self.world.get_cell(pos) {
            Some(c) => c.food,
            None => 0,
        };
        let bite: i32 = if found < BITE {
            found
        } else {
            BITE
        };
        match self.world.get_cell_mut(pos) {
            Some(cell) => {
                cell.food = cell.food - bite;
            },
            None => {},
        }
        let ghost mid = self@;
        proof {
            lemma_with_cell_wf(before.world, pos, mid.world.cell(pos));
        }
        match self.world.get_bug_mut(bug_id) {
            Some(bug) => {
                bug.current_state.weight = to_i32(bug.current_state.weight as i64 + bite as i64);
                bug.data.food_consumed = to_i32(bug.data.food_consumed as i64 + bite as i64);
                bug.current_state.action = ACT_EAT;
            },
            None => {},
        }
        proof {
            assert(mid.world.settled(bug_id));
            lemma_with_bug_wf(mid.world, bug_id, before.ate(bug_id).bug(bug_id));
        }
    }

    /// Lets a bug turn, clockwise for a positive `direction`.
    pub fn action_turn(&mut self, bug_id: u64, direction: i8)
        requires
            old(self)@.wf(),
        ensures
            final(self)@ == old(self)@.turned(bug_id, direction),
            final(self)@.wf(),
    {
        let ghost before = self@;
        proof {
            if before.alive(bug_id) {
                assert(before.world.settled(bug_id));
            }
        }
        match self.world.get_bug_mut(bug_id) {
            Some(bug) => {
                let facing: i8 = bug.current_state.facing;
                bug.current_state.facing = if direction > 0 {
                    if facing == -2 {
                        3
                    } else {
                        facing - 1
                    }
                } else {
                    if facing == 3 {
                        -2
                    } else {
                        facing + 1
                    }
                };
                bug.current_state.weight = to_i32(bug.current_state.weight as i64 - COST_TURN as i64);
                bug.current_state.action = if direction > 0 {
                    ACT_TURN_CW
                } else {
                    ACT_TURN_CCW
                };
            },
            None => {},
        }
        proof {
            if before.alive(bug_id) {
                lemma_with_bug_wf(before.world, bug_id, before.turned(bug_id, direction).bug(bug_id));
            }
        }
    }

    /// Lets a bug step forward.
    pub fn action_move(&mut self, bug_id: u64)
        requires
            old(self)@.wf(),
        ensures
            final(self)@ == old(self)@.stepped_forward(bug_id),
            final(self)@.wf(),
    {
        let ghost before = self@;
        let prior = match self.world.get_bug(bug_id) {
            Some(b) => b.current_state,
            None => {
                return ;
            },
        };
        assert(before.world.settled(bug_id));
        let new_pos = prior.pos.step(prior.facing);
        if self.world.move_bug(bug_id, new_pos) {
            let ghost mid = self@;
            assert(mid.world.settled(bug_id));
            match self.world.get_bug_mut(bug_id) {
                Some(bug) => {
                    bug.current_state.weight = to_i32(bug.current_state.weight as i64 - COST_MOVE as i64);
                    if bug.data.moves < u32::MAX {
                        bug.data.moves = bug.data.moves + 1;
                    }
                    bug.current_state.action = ACT_MOVE;
                    bug.remember(prior);
                },
                None => {},
            }
            proof {
                lemma_with_bug_wf(mid.world, bug_id, before.stepped_forward(bug_id).bug(bug_id));
            }
        }
    }
}

impl Simulation {
    /// A simulation at tick 0 of a run configured by `config`.
    pub fn new(config: SimConfig) -> (sim: Self)
        ensures
            sim@ == SimModel::genesis(config),
            sim@.wf(),
    {
        let mut sim = Self {
            world: World::new(),
            rng: DeterministicRng::new(config.seed),
            config,
            food_hump: HUMP_UNIT,
            safety: 1,
            leak: 1,
            force_mate: 0,
            cost_mate: COST_MATE_INITIAL,
            drink_or_die: 0,
            age_div: 0,
            target_pop: POP_TARGET,
            stats_history: VecDeque::with_capacity(L_HIST),
        };
        sim.init_world();
        sim
    }

    /// Lays out the starting food and creates the founder.
    fn init_world(&mut self)
        requires
            old(self)@ == (SimModel {
                world: WorldModel::empty(),
                rng: Draws::start(old(self).config.seed),
                ..SimModel::genesis(old(self).config)
            }),
        ensures
            final(self)@ == SimModel::genesis(old(self).config),
            final(self)@.wf(),
    {
        let ghost config = self.config;
        proof {
            lemma_cells_view(&self.world);
            assert forall|cx: int| 0 <= cx < WORLD_X implies (#[trigger] self.world.cells[cx]).len()
                == WORLD_Y by {
                assert(self@.world.cells[cx].len() == WORLD_Y);
            }
            assert forall|cx: int, cy: int|
                0 <= cx < WORLD_X && 0 <= cy < WORLD_Y implies #[trigger] self.world.cells[cx][cy]
                == Cell::bare() by {
                assert(self@.world.cells[cx][cy] == Cell::bare());
            }
        }
        let mut x: usize = 0;
        while x < WORLD_X
            invariant
                x <= WORLD_X,
                self.world.cells.len() == WORLD_X,
                forall|cx: int| 0 <= cx < WORLD_X ==> (#[trigger] self.world.cells[cx]).len() == WORLD_Y,
                forall|cx: int, cy: int|
                    0 <= cx < x && 0 <= cy < WORLD_Y ==> #[trigger] self.world.cells[cx][cy]
                        == seeded_cell(),
                forall|cx: int, cy: int|
                    x <= cx < WORLD_X && 0 <= cy < WORLD_Y ==> #[trigger] self.world.cells[cx][cy]
                        == Cell::bare(),
                self@ == (SimModel {
                    world: WorldModel { cells: self@.world.cells, ..WorldModel::empty() },
                    rng: Draws::start(config.seed),
                    ..SimModel::genesis(config)
                }),
                self.config == config,
            decreases WORLD_X - x,
        {
            let mut y: usize = 0;
            while y < WORLD_Y
                invariant
                    x < WORLD_X,
                    y <= WORLD_Y,
                    self.world.cells.len() == WORLD_X,
                    forall|cx: int| 0 <= cx < WORLD_X ==> (#[trigger] self.world.cells[cx]).len() == WORLD_Y,
                    forall|cx: int, cy: int|
                        0 <= cx < x && 0 <= cy < WORLD_Y ==> #[trigger] self.world.cells[cx][cy]
                            == seeded_cell(),
                    forall|cx: int, cy: int|
                        x < cx < WORLD_X && 0 <= cy < WORLD_Y ==> #[trigger] self.world.cells[cx][cy]
                            == Cell::bare(),
                    forall|cy: int| 0 <= cy < y ==> #[trigger] self.world.cells[x as int][cy] == seeded_cell(),
                    forall|cy: int| y <= cy < WORLD_Y ==> #[trigger] self.world.cells[x as int][cy] == Cell::bare(),
                    self@ == (SimModel {
                        world: WorldModel { cells: self@.world.cells, ..WorldModel::empty() },
                        rng: Draws::start(config.seed),
                        ..SimModel::genesis(config)
                    }),
                    self.config == config,
                decreases WORLD_Y - y,
            {
                self.world.cells[x][y].food = FOOD_START;
                proof {
                    assert(self@.world.bugs =~= WorldModel::empty().bugs);
                }
                y = y + 1;
            }
            x = x + 1;
        }
        proof {
            lemma_cells_view(&self.world);
            assert(self@.world.cells =~= Seq::new(
                WORLD_X as nat,
                |x: int| Seq::new(WORLD_Y as nat, |y: int| seeded_cell()),
            )) by {
                assert forall|cx: int| 0 <= cx < WORLD_X implies #[trigger] self@.world.cells[cx]
                    =~= Seq::new(WORLD_Y as nat, |y: int| seeded_cell()) by {
                    assert forall|cy: int| 0 <= cy < WORLD_Y implies self@.world.cells[cx][cy]
                        == seeded_cell() by {
                        assert(self.world.cells[cx][cy] == seeded_cell());
                    }
                }
            }
        }
        self.create_bug_one();
    }

    /// Creates the founder.
    fn create_bug_one(&mut self)
        requires
            old(self)@.world.wf(),
            old(self)@.world.bugs == Map::<u64, BugModel>::empty(),
            old(self)@.world.index == Map::<u64, u64>::empty(),
            old(self)@.world.next_bug_id == 1,
            old(self)@.world.current_tick == 0,
        ensures
            final(self)@ == (SimModel {
                world: old(self)@.world.placed(SimModel::founder(old(self)@.rng)),
                rng: old(self)@.rng.skip(5),
                ..old(self)@
            }),
            final(self)@.world.wf(),
    {
        let ghost before = self@;
        let start_pos = Pos::new((WORLD_X / 2) as i32, (WORLD_Y / 2) as i32);
        let mut bug = Bug::new(0, start_pos, self.world.current_tick);
        let uid: u64 = self.rng.gen_u64();
        let r: u8 = (self.rng.gen_range(256) % 256) as u8;
        let g: u8 = (self.rng.gen_range(256) % 256) as u8;
        let b: u8 = (self.rng.gen_range(256) % 256) as u8;
        bug.brain.ethnicity = Ethnicity::new(uid, r, g, b);
        let e = bug.brain.ethnicity;
        let mut decisions: Vec<(Chromosome, Chromosome)> = Vec::new();
        let mut i: usize = 0;
        while i < N_DECISIONS
            invariant
                i <= N_DECISIONS,
                decisions.len() == i,
                forall|k: int| 0 <= k < i ==> pair_view(#[trigger] decisions[k]) == founder_pairs(e)[k],
            decreases N_DECISIONS - i,
        {
            let mut genes_a: Vec<Gene> = Vec::new();
            let mut genes_b: Vec<Gene> = Vec::new();
            if i == ACT_SLEEP {
                genes_a.push(Gene::new_constant(5));
                genes_b.push(Gene::new_constant(5));
            } else if i == ACT_EAT {
                genes_a.push(Gene::new_sense(ITEM_FOOD));
                genes_b.push(Gene::new_constant(100));
            } else if i == ACT_TURN_CW || i == ACT_TURN_CCW {
                genes_a.push(Gene::new_constant(20));
                genes_b.push(Gene::new_constant(20));
            } else if i == ACT_MOVE {
                genes_a.push(Gene::new_constant(40));
                genes_b.push(Gene::new_constant(40));
            } else if i == ACT_MATE {
                genes_a.push(Gene::new_constant(15));
                genes_b.push(Gene::new_constant(15));
            } else if i == ACT_DIVIDE {
                genes_a.push(Gene::new_constant(1000));
                genes_b.push(Gene::new_constant(1000));
            } else {
                genes_a.push(Gene::new_constant(10));
                genes_b.push(Gene::new_constant(10));
            }
            assert(genes_a@ =~= seq![founder_gene(i as int, false)]);
            assert(genes_b@ =~= seq![founder_gene(i as int, true)]);
            decisions.push((Chromosome::with_genes(genes_a, e), Chromosome::with_genes(genes_b, e)));
            i = i + 1;
        }
        bug.brain.decisions = decisions;
        assert(bug.brain@.decisions =~= founder_pairs(e));
        bug.brain.update_gene_count();
        proof {
            assert(bug@ == SimModel::founder(before.rng));
            assert(!before.world.occupied(bug.current_state.pos));
        }
        self.world.add_bug(bug);
    }

    /// Runs one tick. The answer says whether the run goes on.
    pub fn step(&mut self) -> (running: bool)
        requires
            old(self)@.wf(),
            old(self).world.current_tick < i32::MAX,
        ensures
            final(self)@ == old(self)@.ticked(),
            final(self)@.wf(),
            running == final(self)@.running(),
            final(self).world.current_tick == old(self).world.current_tick + 1,
            final(self).world.bug_positions@.len() == final(self).world.bugs@.len(),
            forall|id: u64| #[trigger]
                final(self)@.alive(id) ==> final(self)@.bug(id).current_state.weight > 0 && (old(self)@.alive(id) || id >= old(self).world.next_bug_id),
    {
        proof {
            lemma_ticked(old(self)@);
        }
        self.world.current_tick = self.world.current_tick + 1;
        proof {
            assert(self@.world.bugs =~= old(self)@.world.bugs);
            lemma_wf_frame(old(self)@.world, self@.world);
        }
        self.update_dynamics();
        self.process_bugs();
        self.grow_food();
        let stats = self.world.stats();
        record_stats(&mut self.stats_history, stats);
        proof {
            lemma_index_size(&self.world);
        }
        match self.config.max_ticks {
            Some(max_ticks) => {
                if self.world.current_tick >= max_ticks {
                    return false;
                }
            },
            None => {},
        }
        self.world.bug_count() > 0
    }

    /// Runs one tick if the simulation is well-formed and the tick counter
    /// has room to count; does nothing otherwise. The answer, where a tick
    /// was run, says whether the run goes on.
    pub fn checked_step(&mut self) -> (r: Option<bool>)
        ensures
            match r {
                Some(running) => old(self)@.wf() && old(self).world.current_tick < i32::MAX
                    && final(self)@ == old(self)@.ticked() && final(self)@.wf() && running
                    == final(self)@.running(),
                None => !(old(self)@.wf() && old(self).world.current_tick < i32::MAX) && final(self)@ == old(self)@,
            },
    {
        if self.world.current_tick < i32::MAX && self.is_well_formed() {
            Some(self.step())
        } else {
            None
        }
    }

    /// Whether the simulation is well-formed.
    pub fn is_well_formed(&self) -> (ok: bool)
        ensures
            ok == self@.wf(),
    {
        self.world.is_well_formed() && 0 <= self.food_hump && self.food_hump <= HUMP_MAX
    }

    /// Runs up to `ticks` ticks and stops early when the run ends. The
    /// answer is the number of ticks that were run.
    pub fn advance(&mut self, ticks: u32) -> (ran: u32)
        requires
            old(self)@.wf(),
            old(self).world.current_tick + ticks <= i32::MAX,
        ensures
            ran <= ticks,
            ticks > 0 ==> ran > 0,
            final(self)@ == old(self)@.after(ran as nat),
            final(self)@.wf(),
            ran < ticks ==> !final(self)@.running(),
            forall|k: nat| 0 < k < ran ==> #[trigger] old(self)@.after(k).running(),
    {
        let mut ran: u32 = 0;
        while ran < ticks
            invariant_except_break
                forall|k: nat| 0 < k <= ran ==> #[trigger] old(self)@.after(k).running(),
            invariant
                ran <= ticks,
                self@.wf(),
                self@ == old(self)@.after(ran as nat),
                self.world.current_tick == old(self).world.current_tick + ran,
                old(self).world.current_tick + ticks <= i32::MAX,
            ensures
                ran <= ticks,
                ticks > 0 ==> ran > 0,
                self@.wf(),
                self@ == old(self)@.after(ran as nat),
                ran < ticks ==> !self@.running(),
                forall|k: nat| 0 < k < ran ==> #[trigger] old(self)@.after(k).running(),
            decreases ticks - ran,
        {
            let running: bool = self.step();
            ran = ran + 1;
            if !running {
                break ;
            }
        }
        ran
    }

    /// The earliest birthday among the bugs.
    fn oldest_birthday(&self) -> (oldest: i32)
        ensures
            oldest == self@.world.oldest_birthday(),
    {
        let ids = self.world.bug_ids();
        let ghost dom = self@.world.bugs.dom();
        let ghost f = keep_oldest(self@.world.bugs);
        let mut oldest: i32 = i32::MAX;
        let mut i: usize = 0;
        while i < ids.len()
            invariant
                i <= ids.len(),
                ascending(ids@),
                ids@.to_set() == dom,
                dom == self@.world.bugs.dom(),
                f == keep_oldest(self@.world.bugs),
                oldest == fold_ids(dom, folded_to(ids@, i as int), i32::MAX as int, f),
            decreases ids.len() - i,
        {
            let id: u64 = ids[i];
            proof {
                lemma_fold_next(dom, ids@, i as int, i32::MAX as int, f);
            }
            match self.world.get_bug(id) {
                Some(b) => {
                    if b.data.birthday < oldest {
                        oldest = b.data.birthday;
                    }
                },
                None => {},
            }
            i = i + 1;
        }
        proof {
            lemma_fold_done(dom, ids@, i32::MAX as int, f);
        }
        oldest
    }

    /// Updates the difficulty parameters for the current tick.
    pub fn update_dynamics(&mut self)
        requires
            old(self)@.wf(),
        ensures
            final(self)@ == old(self)@.tuned(),
            final(self)@.wf(),
    {
        let tick: i32 = self.world.current_tick;
        let pop: usize = self.world.bug_count();
        if tick == 3000 {
            self.force_mate = 0x10;
        } else if tick == 4000 {
            self.force_mate = 0x30;
        } else if tick == 5000 {
            self.force_mate = 0x70;
        } else if tick == 6000 {
            self.force_mate = 0x71;
        } else if tick == 7000 {
            self.force_mate = 0x73;
        } else if tick == 8000 {
            self.force_mate = 0x77;
        } else if tick == 9000 {
            self.force_mate = 0x7F;
        } else if tick == 10000 {
            self.cost_mate = 24;
        } else if tick == 11000 {
            self.cost_mate = 48;
        } else if tick == 12000 {
            self.cost_mate = 96;
        } else if tick == 13000 {
            self.cost_mate = 144;
        } else if tick == 14000 {
            self.drink_or_die = 3;
        } else if tick == 15000 {
            self.drink_or_die = 2;
        } else if tick == 16000 {
            self.drink_or_die = 1;
        }
        if tick > 3000 && tick > SEASON_LENGTH {
            if tick % 32 == 0 {
                if self.age_div < 30 {
                    let up: i128 = self.food_hump as i128 * 1001 / 1000;
                    self.food_hump = if up > HUMP_MAX as i128 {
                        HUMP_MAX
                    } else {
                        up as i64
                    };
                }
                if self.age_div > 300 {
                    self.food_hump = ((self.food_hump as i128 * 1000) / 1001) as i64;
                }
            }
            if tick % 8 == 0 {
                self.age_div = to_i32(self.age_div as i64 + 1);
            }
        }
        if pop < self.target_pop && self.age_div > 0 {
            self.age_div = self.age_div - 1;
        }
        if pop > POP_HARD_LIMIT {
            let oldest: i32 = self.oldest_birthday();
            self.age_div = to_i32(tick as i64 - oldest as i64);
        }
    }

    /// Carries out one action of a bug.
    pub fn execute_action(&mut self, bug_id: u64, action: usize)
        requires
            old(self)@.wf(),
        ensures
            final(self)@ == old(self)@.acted(bug_id, action),
            final(self)@.wf(),
    {
        if action == ACT_SLEEP {
            self.action_sleep(bug_id);
        } else if action == ACT_EAT {
            self.action_eat(bug_id);
        } else if action == ACT_TURN_CW {
            self.action_turn(bug_id, 1);
        } else if action == ACT_TURN_CCW {
            self.action_turn(bug_id, -1);
        } else if action == ACT_MOVE {
            self.action_move(bug_id);
        } else if action == ACT_MATE {
            self.action_mate(bug_id);
        } else if action == ACT_DIVIDE {
            self.action_divide(bug_id);
        }
    }

    /// Lets one bug sense, decide and act.
    pub fn process_single_bug(&mut self, bug_id: u64)
        requires
            old(self)@.wf(),
        ensures
            final(self)@ == old(self)@.processed(bug_id),
            final(self)@.wf(),
    {
        let senses = self.world.gather_senses(bug_id);
        let action: usize = match self.world.get_bug(bug_id) {
            Some(bug) => {
                assert(self@.world.settled(bug_id));
                bug.brain.choose_action(senses.as_slice())
            },
            None => {
                return ;
            },
        };
        self.execute_action(bug_id, action);
    }

    /// Processes all bugs in ascending order of identifier, then removes
    /// those that starved.
    pub fn process_bugs(&mut self)
        requires
            old(self)@.wf(),
        ensures
            final(self)@ == old(self)@.swept(),
            final(self)@.wf(),
    {
        let ghost before = self@;
        let ids = self.world.bug_ids();
        let ghost dom = before.world.bugs.dom();
        let ghost f = pass_step();
        let ghost init = (before, Seq::<u64>::empty());
        let mut dead: Vec<u64> = Vec::new();
        let mut i: usize = 0;
        while i < ids.len()
            invariant
                i <= ids.len(),
                ascending(ids@),
                ids@.to_set() == dom,
                f == pass_step(),
                init == (before, Seq::<u64>::empty()),
                (self@, dead@) == fold_ids(dom, folded_to(ids@, i as int), init, f),
                self@.wf(),
            decreases ids.len() - i,
        {
            let id: u64 = ids[i];
            proof {
                lemma_fold_next(dom, ids@, i as int, init, f);
            }
            self.process_single_bug(id);
            match self.world.get_bug(id) {
                Some(bug) => {
                    if bug.current_state.weight <= 0 {
                        dead.push(id);
                    }
                },
                None => {},
            }
            i = i + 1;
        }
        proof {
            lemma_fold_done(dom, ids@, init, f);
        }
        let ghost after_pass = self@;
        let mut j: usize = 0;
        while j < dead.len()
            invariant
                j <= dead.len(),
                after_pass.world.wf(),
                self@ == (SimModel { world: buried(after_pass.world, dead@, j as nat), ..after_pass }),
            decreases dead.len() - j,
        {
            proof {
                lemma_buried_wf(after_pass.world, dead@, j as nat);
            }
            self.world.remove_bug(dead[j]);
            j = j + 1;
        }
        proof {
            lemma_buried_wf(after_pass.world, dead@, dead@.len());
        }
    }

    /// Grows food in all cells.
    pub fn grow_food(&mut self)
        requires
            old(self)@.wf(),
        ensures
            final(self)@ == old(self)@.fed(),
            final(self)@.wf(),
    {
        let ghost before = self@;
        let growth: i32 = to_i32(
            ((FOOD_SPREAD as i128 * self.food_hump as i128) / (HUMP_UNIT as i128)) as i64,
        );
        let leak: i32 = self.leak;
        proof {
            lemma_cells_view(&self.world);
            assert forall|cx: int| 0 <= cx < WORLD_X implies (#[trigger] self.world.cells[cx]).len()
                == WORLD_Y by {
                assert(before.world.cells[cx].len() == WORLD_Y);
            }
        }
        let mut x: usize = 0;
        while x < WORLD_X
            invariant
                x <= WORLD_X,
                before.wf(),
                growth == before.growth(),
                growth >= 0,
                leak == before.leak,
                self.world.cells.len() == WORLD_X,
                forall|cx: int| 0 <= cx < WORLD_X ==> (#[trigger] self.world.cells[cx]).len() == WORLD_Y,
                forall|cx: int, cy: int|
                    0 <= cx < x && 0 <= cy < WORLD_Y ==> #[trigger] self.world.cells[cx][cy]
                        == before.grown(cx, cy),
                forall|cx: int, cy: int|
                    x <= cx < WORLD_X && 0 <= cy < WORLD_Y ==> #[trigger] self.world.cells[cx][cy]
                        == before.world.cells[cx][cy],
                self@ == (SimModel {
                    world: WorldModel { cells: self@.world.cells, ..before.world },
                    ..before
                }),
            decreases WORLD_X - x,
        {
            let mut y: usize = 0;
            while y < WORLD_Y
                invariant
                    x < WORLD_X,
                    y <= WORLD_Y,
                    before.wf(),
                    growth == before.growth(),
                    growth >= 0,
                    leak == before.leak,
                    self.world.cells.len() == WORLD_X,
                    forall|cx: int| 0 <= cx < WORLD_X ==> (#[trigger] self.world.cells[cx]).len() == WORLD_Y,
                    forall|cx: int, cy: int|
                        0 <= cx < x && 0 <= cy < WORLD_Y ==> #[trigger] self.world.cells[cx][cy]
                            == before.grown(cx, cy),
                    forall|cx: int, cy: int|
                        x < cx < WORLD_X && 0 <= cy < WORLD_Y ==> #[trigger] self.world.cells[cx][cy]
                            == before.world.cells[cx][cy],
                    forall|cy: int| 0 <= cy < y ==> #[trigger] self.world.cells[x as int][cy] == before.grown(x as int, cy),
                    forall|cy: int| y <= cy < WORLD_Y ==> #[trigger] self.world.cells[x as int][cy] == before.world.cells[x as int][cy],
                    self@ == (SimModel {
                        world: WorldModel { cells: self@.world.cells, ..before.world },
                        ..before
                    }),
                decreases WORLD_Y - y,
            {
                let pos = Pos::new(x as i32, y as i32);
                let shaded: bool = leak == 0 && self.world.get_bug_at(pos).is_some();
                if !shaded {
                    let sum: i64 = self.world.cells[x][y].food as i64 + growth as i64;
                    self.world.cells[x][y].food = if sum < FOOD_CAP as i64 {
                        sum as i32
                    } else {
                        FOOD_CAP
                    };
                }
                proof {
                    assert(self@.world.bugs =~= before.world.bugs);
                }
                y = y + 1;
            }
            x = x + 1;
        }
        proof {
            lemma_cells_view(&self.world);
            assert(self@.world.cells =~= before.fed().world.cells) by {
                assert forall|cx: int| 0 <= cx < WORLD_X implies #[trigger] self@.world.cells[cx]
                    =~= before.fed().world.cells[cx] by {
                    assert forall|cy: int| 0 <= cy < WORLD_Y implies self@.world.cells[cx][cy]
                        == before.grown(cx, cy) by {
                        assert(self.world.cells[cx][cy] == before.grown(cx, cy));
                    }
                }
            }
            lemma_wf_frame(before.world, self@.world);
        }
    }

    /// The statistics of the world as it stands.
    pub fn stats(&self) -> (s: WorldStats)
        requires
            self@.world.sized(),
        ensures
            s == self@.world.stats(),
    {
        self.world.stats()
    }
}

impl Clone for Simulation {
    fn clone(&self) -> (sim: Self)
        ensures
            sim@ == self@,
    {
        Self {
            world: self.world.clone(),
            rng: self.rng.clone(),
            config: self.config,
            food_hump: self.food_hump,
            safety: self.safety,
            leak: self.leak,
            force_mate: self.force_mate,
            cost_mate: self.cost_mate,
            drink_or_die: self.drink_or_die,
            age_div: self.age_div,
            target_pop: self.target_pop,
            stats_history: self.stats_history.clone(),
        }
    }
}

} // verus!
