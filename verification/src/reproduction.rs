use crate::bug::{pair_view, BrainModel, Bug, BugBrain, BugData, BugModel, BugState, Pos};
use crate::constants::{ACT_DIVIDE, ACT_MATE, N_DECISIONS};
use crate::fixed::{clamp_i32, tdiv, to_i32};
use crate::gene::{Chromosome, ChromosomeModel};
use crate::genetics::{lemma_mutated_brain_wf, mutate_brain, mutated_brain};
use crate::rng::Draws;
use crate::simulation::{SimModel, Simulation};
use crate::world::{cell_key, lemma_placed_wf, lemma_with_bug_wf};
use vstd::prelude::*;

verus! {

/// The decision pairs of a bug after an exchange with a partner: slot by
/// slot, copy A and then copy B is taken from the partner on a coin flip of
/// one half, two flips per category in ascending order.
pub open spec fn crossed(
    mine: Seq<(ChromosomeModel, ChromosomeModel)>,
    theirs: Seq<(ChromosomeModel, ChromosomeModel)>,
    d: Draws,
) -> Seq<(ChromosomeModel, ChromosomeModel)> {
    Seq::new(
        N_DECISIONS as nat,
        |i: int|
            (
                if d.skip((2 * i) as nat).coin(50) {
                    theirs[i].0
                } else {
                    mine[i].0
                },
                if d.skip((2 * i + 1) as nat).coin(50) {
                    theirs[i].1
                } else {
                    mine[i].1
                },
            ),
    )
}

/// A count one higher, unless it is at its bound.
pub open spec fn bumped(n: u32) -> u32 {
    if n < u32::MAX {
        (n + 1) as u32
    } else {
        n
    }
}

/// A count `k` higher, held to its bound.
pub open spec fn raised_by(n: u32, k: int) -> u32 {
    if n + k > u32::MAX {
        u32::MAX
    } else {
        (n + k) as u32
    }
}

/// The bug after an exchange in which its decision pairs became `decisions`.
pub open spec fn bred(b: BugModel, decisions: Seq<(ChromosomeModel, ChromosomeModel)>) -> BugModel {
    BugModel {
        brain: BrainModel { decisions, ..b.brain },
        data: BugData { mate_success: bumped(b.data.mate_success), ..b.data },
        ..b
    }
}

/// The direction in which offspring `i` of a bug is placed.
pub open spec fn offspring_dir(facing: i8, i: int) -> i8 {
    ((facing + 2 + i) % 6) as i8
}

impl SimModel {
    /// Two different living bugs exchange genetic material: both see the
    /// same sixteen coin flips, and each counts a successful mating.
    pub open spec fn paired(self, id1: u64, id2: u64) -> SimModel {
        if !self.alive(id1) || !self.alive(id2) {
            self
        } else {
            let b1 = self.bug(id1);
            let b2 = self.bug(id2);
            SimModel {
                world: self.world.with_bug(
                    id1,
                    bred(b1, crossed(b1.brain.decisions, b2.brain.decisions, self.rng)),
                ).with_bug(id2, bred(b2, crossed(b2.brain.decisions, b1.brain.decisions, self.rng))),
                rng: self.rng.skip(2 * N_DECISIONS as nat),
                ..self
            }
        }
    }

    /// Mating: if another bug stands on the cell ahead, the two exchange
    /// genetic material. The cost is paid either way.
    pub open spec fn mated(self, id: u64) -> SimModel {
        if !self.alive(id) {
            self
        } else {
            let ahead = self.bug(id).current_state.pos.stepped(self.bug(id).current_state.facing);
            let s1 = if self.world.occupied(ahead) && self.world.occupant(ahead) != id {
                self.paired(id, self.world.occupant(ahead))
            } else {
                self
            };
            let b = s1.bug(id);
            s1.with_bug(
                id,
                BugModel {
                    current_state: BugState {
                        weight: clamp_i32(b.current_state.weight - self.cost_mate),
                        action: ACT_MATE,
                        ..b.current_state
                    },
                    ..b
                },
            )
        }
    }

    /// Whether bug `id` has the mass to divide.
    pub open spec fn can_divide(self, id: u64) -> bool {
        self.alive(id) && self.bug(id).current_state.weight >= 1024 * self.bug(
            id,
        ).brain.divide_count
    }

    /// Whether the staged age rule is active and bug `id` is too young to
    /// divide.
    pub open spec fn underage(self, id: u64) -> bool {
        (self.force_mate & 1) != 0 && clamp_i32(
            self.world.current_tick - self.bug(id).data.birthday,
        ) < self.age_div
    }

    /// The weight an underage bug loses for trying to divide: the high
    /// bits of the forced-mating mask times the ticks it is short of the
    /// minimum age.
    pub open spec fn penalty(self, id: u64) -> i32 {
        clamp_i32(
            (self.force_mate >> 4) * (self.age_div - clamp_i32(
                self.world.current_tick - self.bug(id).data.birthday,
            )),
        )
    }

    /// The offspring of `parent` placed on `spot` with `brain`: a newly
    /// hatched bug with one share of the weight and its parent's facing.
    pub open spec fn offspring(self, parent: BugModel, share: i32, spot: Pos, brain: BrainModel) -> BugModel {
        let fresh = BugModel::hatched(0, spot, self.world.current_tick);
        BugModel {
            brain,
            current_state: BugState {
                weight: share,
                facing: parent.current_state.facing,
                ..fresh.current_state
            },
            ..fresh
        }
    }

    /// The simulation after the first `n` offspring of `parent` have had
    /// their turn: each is placed on the neighbour cell in its direction,
    /// with a mutated copy of the parent's brain one generation on, unless
    /// that cell is occupied or no identifier is left.
    pub open spec fn spawned(self, parent: BugModel, share: i32, n: nat) -> SimModel
        decreases n,
    {
        if n == 0 {
            self
        } else {
            let s = self.spawned(parent, share, (n - 1) as nat);
            let spot = parent.current_state.pos.stepped(
                offspring_dir(parent.current_state.facing, n - 1),
            ).wrapped();
            if s.world.occupied(spot) || s.world.next_bug_id == u64::MAX {
                s
            } else {
                let (brain, d) = mutated_brain(
                    BrainModel {
                        generation: bumped(parent.brain.generation),
                        ..parent.brain
                    },
                    s.rng,
                );
                SimModel {
                    world: s.world.placed(s.offspring(parent, share, spot, brain)),
                    rng: d,
                    ..s
                }
            }
        }
    }

    /// Division: a bug below the required mass does nothing; an underage
    /// bug pays the penalty; otherwise the weight is split into one share
    /// per offspring and one for the parent, the offspring are placed, and
    /// the parent keeps one share and counts its children.
    pub open spec fn divided(self, id: u64) -> SimModel {
        if !self.can_divide(id) {
            self
        } else if self.underage(id) {
            self.with_bug(
                id,
                self.bug(id).with_weight(
                    clamp_i32(self.bug(id).current_state.weight - self.penalty(id)),
                ),
            )
        } else {
            let parent = self.bug(id);
            let share = tdiv(
                parent.current_state.weight as int,
                parent.brain.divide_count + 1,
            ) as i32;
            let s = self.spawned(parent, share, parent.brain.divide_count as nat);
            let born = s.world.next_bug_id - self.world.next_bug_id;
            s.with_bug(
                id,
                BugModel {
                    current_state: BugState {
                        weight: share,
                        action: ACT_DIVIDE,
                        ..parent.current_state
                    },
                    data: BugData { children: raised_by(parent.data.children, born), ..parent.data },
                    ..parent
                },
            )
        }
    }
}

/// Placing offspring leaves the bugs that were there as they were, keeps the
/// world well-formed, and gives out identifiers in order.
pub proof fn lemma_spawned(s: SimModel, parent: BugModel, share: i32, n: nat)
    requires
        s.wf(),
        parent.wf(),
        parent.current_state.pos.in_world(),
    ensures
        s.spawned(parent, share, n).wf(),
        s.spawned(parent, share, n).world.current_tick == s.world.current_tick,
        s.spawned(parent, share, n).world.cells == s.world.cells,
        s.spawned(parent, share, n) == (SimModel {
            world: s.spawned(parent, share, n).world,
            rng: s.spawned(parent, share, n).rng,
            ..s
        }),
        s.world.next_bug_id <= s.spawned(parent, share, n).world.next_bug_id <= s.world.next_bug_id
            + n,
        forall|id: u64| #[trigger]
            s.alive(id) ==> s.spawned(parent, share, n).alive(id) && s.spawned(
                parent,
                share,
                n,
            ).bug(id) == s.bug(id),
    decreases n,
{
    if n > 0 {
        let prev = s.spawned(parent, share, (n - 1) as nat);
        lemma_spawned(s, parent, share, (n - 1) as nat);
        let spot = parent.current_state.pos.stepped(
            offspring_dir(parent.current_state.facing, n - 1),
        ).wrapped();
        if !(prev.world.occupied(spot) || prev.world.next_bug_id == u64::MAX) {
            let grown = BrainModel {
                generation: bumped(parent.brain.generation),
                ..parent.brain
            };
            lemma_mutated_brain_wf(grown, prev.rng);
            let child = prev.offspring(parent, share, spot, mutated_brain(grown, prev.rng).0);
            lemma_placed_wf(prev.world, child);
            assert forall|id: u64| #[trigger] s.alive(id) implies id != prev.world.next_bug_id by {
                assert(prev.alive(id));
                assert(prev.world.settled(id));
            }
        }
    }
}

/// Every bug that placing offspring adds carries one of the identifiers
/// given out meanwhile, holds one share, and is one generation on from its
/// parent; and every such identifier names a bug.
pub proof fn lemma_offspring(s: SimModel, parent: BugModel, share: i32, n: nat)
    requires
        s.wf(),
        parent.wf(),
        parent.current_state.pos.in_world(),
    ensures
        forall|c: u64|
            s.world.next_bug_id <= c < s.spawned(parent, share, n).world.next_bug_id ==> #[trigger]
            s.spawned(parent, share, n).world.bugs.contains_key(c),
        forall|c: u64| #[trigger]
            s.spawned(parent, share, n).world.bugs.contains_key(c) && !s.world.bugs.contains_key(c)
                ==> s.world.next_bug_id <= c && s.spawned(
                parent,
                share,
                n,
            ).world.bugs[c].current_state.weight == share && s.spawned(
                parent,
                share,
                n,
            ).world.bugs[c].brain.generation == bumped(parent.brain.generation),
    decreases n,
{
    if n > 0 {
        let prev = s.spawned(parent, share, (n - 1) as nat);
        let now = s.spawned(parent, share, n);
        lemma_offspring(s, parent, share, (n - 1) as nat);
        lemma_spawned(s, parent, share, (n - 1) as nat);
        let spot = parent.current_state.pos.stepped(
            offspring_dir(parent.current_state.facing, n - 1),
        ).wrapped();
        if !(prev.world.occupied(spot) || prev.world.next_bug_id == u64::MAX) {
            let grown = BrainModel {
                generation: bumped(parent.brain.generation),
                ..parent.brain
            };
            lemma_mutated_brain_wf(grown, prev.rng);
            let child = prev.offspring(parent, share, spot, mutated_brain(grown, prev.rng).0);
            let fresh = prev.world.next_bug_id;
            assert(now.world.bugs == prev.world.bugs.insert(fresh, prev.world.registered(child)));
            assert forall|c: u64| s.world.next_bug_id <= c < now.world.next_bug_id implies #[trigger]
                now.world.bugs.contains_key(c) by {
                if c != fresh {
                    assert(prev.world.bugs.contains_key(c));
                }
            }
            assert forall|c: u64| #[trigger]
                now.world.bugs.contains_key(c) && !s.world.bugs.contains_key(c) implies s.world.next_bug_id
                <= c && now.world.bugs[c].current_state.weight == share
                && now.world.bugs[c].brain.generation == bumped(parent.brain.generation) by {
                if c != fresh {
                    assert(prev.world.bugs.contains_key(c));
                }
            }
        }
    }
}

/// What holds of a bug that a division of `parent` in `s` has placed among
/// its first `n` offspring: it was born in the current tick and has done
/// nothing yet, faces as its parent does, is well-formed with its gene
/// count cached anew, and stands on a neighbour cell of its parent, in the
/// direction of one of the offspring, that was free before the division.
pub open spec fn born_of(s: SimModel, parent: BugModel, n: nat, c: BugModel) -> bool {
    &&& c.data == BugData::born(s.world.current_tick)
    &&& c.current_state.facing == parent.current_state.facing
    &&& c.wf()
    &&& c.brain.n_genes == c.brain.counted()
    &&& c.current_state.pos.in_world()
    &&& !s.world.occupied(c.current_state.pos)
    &&& exists|i: int|
        0 <= i < n && c.current_state.pos == parent.current_state.pos.stepped(
            #[trigger] offspring_dir(parent.current_state.facing, i),
        ).wrapped()
}

/// Placing offspring keeps every entry of the index, adds one bug for each
/// identifier given out, and every bug it adds is born of the parent.
pub proof fn lemma_offspring_placed(s: SimModel, parent: BugModel, share: i32, n: nat)
    requires
        s.wf(),
        parent.wf(),
        parent.current_state.pos.in_world(),
    ensures
        forall|k: u64| #[trigger]
            s.world.index.contains_key(k) ==> s.spawned(parent, share, n).world.index.contains_key(
                k,
            ),
        forall|c: u64| #[trigger]
            s.spawned(parent, share, n).world.bugs.contains_key(c) && !s.world.bugs.contains_key(c)
                ==> born_of(s, parent, n, s.spawned(parent, share, n).world.bugs[c]),
        s.world.bugs.dom().finite() ==> s.spawned(parent, share, n).world.bugs.dom().finite()
            && s.spawned(parent, share, n).world.bugs.len() == s.world.bugs.len() + (s.spawned(
            parent,
            share,
            n,
        ).world.next_bug_id - s.world.next_bug_id),
    decreases n,
{
    if n > 0 {
        let prev = s.spawned(parent, share, (n - 1) as nat);
        let now = s.spawned(parent, share, n);
        lemma_offspring_placed(s, parent, share, (n - 1) as nat);
        lemma_spawned(s, parent, share, (n - 1) as nat);
        let spot = parent.current_state.pos.stepped(
            offspring_dir(parent.current_state.facing, n - 1),
        ).wrapped();
        if !(prev.world.occupied(spot) || prev.world.next_bug_id == u64::MAX) {
            let grown = BrainModel {
                generation: bumped(parent.brain.generation),
                ..parent.brain
            };
            lemma_mutated_brain_wf(grown, prev.rng);
            let child = prev.offspring(parent, share, spot, mutated_brain(grown, prev.rng).0);
            let fresh = prev.world.next_bug_id;
            let placed = prev.world.registered(child);
            assert(now.world.bugs == prev.world.bugs.insert(fresh, placed));
            assert(!prev.world.bugs.contains_key(fresh)) by {
                if prev.world.bugs.contains_key(fresh) {
                    assert(prev.world.settled(fresh));
                }
            }
            assert(placed.current_state.pos == spot);
            assert(born_of(s, parent, n, placed)) by {
                assert(!s.world.occupied(spot)) by {
                    if s.world.occupied(spot) {
                        assert(s.world.index.contains_key(cell_key(spot.wrapped())));
                    }
                }
                assert(placed.current_state.pos == parent.current_state.pos.stepped(
                    offspring_dir(parent.current_state.facing, n - 1),
                ).wrapped());
            }
            assert forall|c: u64| #[trigger]
                now.world.bugs.contains_key(c) && !s.world.bugs.contains_key(c) implies born_of(
                s,
                parent,
                n,
                now.world.bugs[c],
            ) by {
                if c != fresh {
                    assert(prev.world.bugs.contains_key(c));
                    let b = prev.world.bugs[c];
                    assert(born_of(s, parent, (n - 1) as nat, b));
                    let i = choose|i: int|
                        0 <= i < n - 1 && b.current_state.pos
                            == parent.current_state.pos.stepped(
                            #[trigger] offspring_dir(parent.current_state.facing, i),
                        ).wrapped();
                    assert(0 <= i < n);
                }
            }
            if s.world.bugs.dom().finite() {
                assert(now.world.bugs.dom() =~= prev.world.bugs.dom().insert(fresh));
            }
        } else {
            assert forall|c: u64| #[trigger]
                now.world.bugs.contains_key(c) && !s.world.bugs.contains_key(c) implies born_of(
                s,
                parent,
                n,
                now.world.bugs[c],
            ) by {
                let b = prev.world.bugs[c];
                assert(born_of(s, parent, (n - 1) as nat, b));
                let i = choose|i: int|
                    0 <= i < n - 1 && b.current_state.pos == parent.current_state.pos.stepped(
                        #[trigger] offspring_dir(parent.current_state.facing, i),
                    ).wrapped();
                assert(0 <= i < n);
            }
        }
    }
}

impl Simulation {
    /// Exchanges genetic material between two different bugs.
    pub fn mate_bugs(&mut self, id1: u64, id2: u64)
        requires
            old(self)@.wf(),
            id1 != id2,
        ensures
            final(self)@ == old(self)@.paired(id1, id2),
            final(self)@.wf(),
    {
        let ghost before = self@;
        let brain1: BugBrain = match self.world.get_bug(id1) {
            Some(b) => b.brain.clone(),
            None => {
                return ;
            },
        };
        let brain2: BugBrain = match self.world.get_bug(id2) {
            Some(b) => b.brain.clone(),
            None => {
                return ;
            },
        };
        assert(before.world.settled(id1));
        assert(before.world.settled(id2));
        let ghost d = self.rng@;
        let ghost want1 = crossed(brain1@.decisions, brain2@.decisions, d);
        let ghost want2 = crossed(brain2@.decisions, brain1@.decisions, d);
        let mut mine: Vec<(Chromosome, Chromosome)> = Vec::new();
        let mut theirs: Vec<(Chromosome, Chromosome)> = Vec::new();
        let mut i: usize = 0;
        while i < N_DECISIONS
            invariant
                i <= N_DECISIONS,
                brain1.decisions.len() == N_DECISIONS,
                brain2.decisions.len() == N_DECISIONS,
                mine.len() == i,
                theirs.len() == i,
                self.rng@ == d.skip((2 * i) as nat),
                want1 == crossed(brain1@.decisions, brain2@.decisions, d),
                want2 == crossed(brain2@.decisions, brain1@.decisions, d),
                forall|k: int| 0 <= k < i ==> pair_view(#[trigger] mine[k]) == want1[k],
                forall|k: int| 0 <= k < i ==> pair_view(#[trigger] theirs[k]) == want2[k],
                self@ == (SimModel { rng: self.rng@, ..before }),
            decreases N_DECISIONS - i,
        {
            let swap_a: bool = self.rng.gen_bool(50);
            let swap_b: bool = self.rng.gen_bool(50);
            assert(brain1@.decisions[i as int] == pair_view(brain1.decisions[i as int]));
            assert(brain2@.decisions[i as int] == pair_view(brain2.decisions[i as int]));
            let a1 = if swap_a {
                brain2.decisions[i].0.clone()
            } else {
                brain1.decisions[i].0.clone()
            };
            let a2 = if swap_a {
                brain1.decisions[i].0.clone()
            } else {
                brain2.decisions[i].0.clone()
            };
            let b1 = if swap_b {
                brain2.decisions[i].1.clone()
            } else {
                brain1.decisions[i].1.clone()
            };
            let b2 = if swap_b {
                brain1.decisions[i].1.clone()
            } else {
                brain2.decisions[i].1.clone()
            };
            mine.push((a1, b1));
            theirs.push((a2, b2));
            i = i + 1;
        }
        match self.world.get_bug_mut(id1) {
            Some(bug) => {
                bug.brain.decisions = mine;
                if bug.data.mate_success < u32::MAX {
                    bug.data.mate_success = bug.data.mate_success + 1;
                }
            },
            None => {},
        }
        let ghost mid = self@;
        proof {
            let n1 = bred(before.bug(id1), want1);
            assert(mid.bug(id1).brain.decisions =~= want1);
            assert(mid.bug(id1) == n1);
            lemma_with_bug_wf(before.world, id1, n1);
            assert(mid.world.settled(id2));
        }
        match self.world.get_bug_mut(id2) {
            Some(bug) => {
                bug.brain.decisions = theirs;
                if bug.data.mate_success < u32::MAX {
                    bug.data.mate_success = bug.data.mate_success + 1;
                }
            },
            None => {},
        }
        proof {
            let n2 = bred(before.bug(id2), want2);
            assert(self@.bug(id2).brain.decisions =~= want2);
            assert(self@.bug(id2) == n2);
            lemma_with_bug_wf(mid.world, id2, n2);
        }
    }

    /// Lets a bug mate with the bug ahead of it, if there is one.
    pub fn action_mate(&mut self, bug_id: u64)
        requires
            old(self)@.wf(),
        ensures
            final(self)@ == old(self)@.mated(bug_id),
            final(self)@.wf(),
    {
        let ghost before = self@;
        let (pos, facing) = match self.world.get_bug(bug_id) {
            Some(b) => (b.current_state.pos, b.current_state.facing),
            None => {
                return ;
            },
        };
        assert(before.world.settled(bug_id));
        let ahead = pos.step(facing);
        let partner: Option<u64> = match self.world.get_bug_at(ahead) {
            Some(b) => Some(b.id),
            None => None,
        };
        proof {
            if before.world.occupied(ahead) {
                assert(before.world.index.contains_key(cell_key(ahead.wrapped())));
                assert(before.world.settled(before.world.occupant(ahead)));
            }
        }
        match partner {
            Some(mate_id) => {
                if mate_id != bug_id {
                    self.mate_bugs(bug_id, mate_id);
                }
            },
            None => {},
        }
        let ghost mid = self@;
        let cost: i32 = self.cost_mate;
        assert(mid.alive(bug_id));
        assert(mid.world.settled(bug_id));
        match self.world.get_bug_mut(bug_id) {
            Some(bug) => {
                bug.current_state.weight = to_i32(bug.current_state.weight as i64 - cost as i64);
                bug.current_state.action = ACT_MATE;
            },
            None => {},
        }
        proof {
            lemma_with_bug_wf(mid.world, bug_id, before.mated(bug_id).bug(bug_id));
        }
    }

    /// Lets a bug divide.
    pub fn action_divide(&mut self, bug_id: u64)
        requires
            old(self)@.wf(),
        ensures
            final(self)@ == old(self)@.divided(bug_id),
            final(self)@.wf(),
    {
        let ghost before = self@;
        let bug = match self.world.get_bug(bug_id) {
            Some(b) => b,
            None => {
                return ;
            },
        };
        assert(before.world.settled(bug_id));
        let divide_count: u8 = bug.brain.divide_count;
        let weight: i32 = bug.current_state.weight;
        if weight < 1024 * divide_count as i32 {
            return ;
        }
        let age: i32 = to_i32(self.world.current_tick as i64 - bug.data.birthday as i64);
        if (self.force_mate & 1) != 0 && age < self.age_div {
            let mask: u8 = self.force_mate;
            let stage: u8 = mask >> 4;
            let short: i64 = self.age_div as i64 - age as i64;
            assert(stage <= 15) by (bit_vector)
                requires
                    stage == mask >> 4,
            ;
            assert(-0x10_0000_0000 <= stage * short <= 0x10_0000_0000) by (nonlinear_arith)
                requires
                    0 <= stage <= 15,
                    -0x1_0000_0000 <= short <= 0x1_0000_0000,
            ;
            let penalty: i32 = to_i32(stage as i64 * short);
            match self.world.get_bug_mut(bug_id) {
                Some(b) => {
                    b.current_state.weight = to_i32(b.current_state.weight as i64 - penalty as i64);
                },
                None => {},
            }
            proof {
                lemma_with_bug_wf(before.world, bug_id, before.divided(bug_id).bug(bug_id));
            }
            return ;
        }
        let pos = bug.current_state.pos;
        let facing: i8 = bug.current_state.facing;
        let brain: BugBrain = bug.brain.clone();
        let tick: i32 = self.world.current_tick;
        let ghost parent = before.bug(bug_id);
        let share: i32 = weight / (divide_count as i32 + 1);
        let mut born: u32 = 0;
        let mut i: u8 = 0;
        while i < divide_count
            invariant
                i <= divide_count,
                before.wf(),
                parent == before.bug(bug_id),
                before.alive(bug_id),
                parent.wf(),
                pos == parent.current_state.pos,
                pos.in_world(),
                facing == parent.current_state.facing,
                brain@ == parent.brain,
                tick == before.world.current_tick,
                self@ == before.spawned(parent, share, i as nat),
                born == self.world.next_bug_id - before.world.next_bug_id,
                born <= i,
            decreases divide_count - i,
        {
            proof {
                lemma_spawned(before, parent, share, i as nat);
                lemma_spawned(before, parent, share, (i + 1) as nat);
            }
            let dir: i8 = ((facing as i32 + 2 + i as i32) % 6) as i8;
            let spot = pos.step(dir).wrap();
            if self.world.get_bug_at(spot).is_none() && self.world.next_bug_id < u64::MAX {
                let ghost s = self@;
                proof {
                    if s.world.occupied(spot) {
                        assert(s.world.index.contains_key(cell_key(spot.wrapped())));
                    }
                }
                let mut child = Bug::new(0, spot, tick);
                child.current_state.weight = share;
                child.current_state.facing = facing;
                child.brain = brain.clone();
                if child.brain.generation < u32::MAX {
                    child.brain.generation = child.brain.generation + 1;
                }
                let ghost grown = child.brain@;
                assert(grown == (BrainModel {
                    generation: bumped(parent.brain.generation),
                    ..parent.brain
                }));
                mutate_brain(&mut self.rng, &mut child.brain);
                let ghost target = s.offspring(parent, share, spot, mutated_brain(grown, s.rng).0);
                assert(child@.position_history =~= target.position_history);
                self.world.add_bug(child);
                born = born + 1;
            }
            i = i + 1;
        }
        let ghost mid = self@;
        proof {
            lemma_spawned(before, parent, share, divide_count as nat);
            assert(mid.alive(bug_id));
            assert(mid.bug(bug_id) == parent);
        }
        match self.world.get_bug_mut(bug_id) {
            Some(b) => {
                b.current_state.weight = share;
                b.data.children = if b.data.children as u64 + born as u64 > u32::MAX as u64 {
                    u32::MAX
                } else {
                    b.data.children + born
                };
                b.current_state.action = ACT_DIVIDE;
            },
            None => {},
        }
        proof {
            lemma_with_bug_wf(mid.world, bug_id, before.divided(bug_id).bug(bug_id));
        }
    }
}

} // verus!
