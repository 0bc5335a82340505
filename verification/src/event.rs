use crate::bug::Pos;
use crate::world::World;
use vstd::prelude::*;

verus! {

/// Why a bug died.
#[derive(Debug, Clone, Copy, PartialEq, Eq, Structural)]
pub enum DeathCause {
    Starvation,
    Collision,
    Drowning,
}

/// The genetic facts recorded at a birth.
#[derive(Debug, Clone, Copy)]
pub struct CompactGenome {
    pub gene_count: u16,
    pub generation: u32,
    pub parent_id: Option<u64>,
}

/// What can happen in a run.
#[derive(Debug, Clone, Copy)]
pub enum SimulationEvent {
    /// A bug moved from one cell to another.
    BugMoved { id: u64, from: Pos, to: Pos, facing: i8, weight: i32 },
    /// A bug was born.
    BugBorn {
        id: u64,
        parent_id: u64,
        pos: Pos,
        genome: CompactGenome,
        ethnicity_r: u8,
        ethnicity_g: u8,
        ethnicity_b: u8,
    },
    /// A bug died.
    BugDied { id: u64, cause: DeathCause, age: i32 },
    /// The food of a cell changed.
    FoodChanged { pos: Pos, amount: i32 },
    /// A bug performed an action.
    BugAction { id: u64, action: u8, weight_change: i32 },
    /// Two bugs mated.
    BugsMated { id1: u64, id2: u64 },
    /// A tick ended.
    Tick { tick: i32, bug_count: usize },
}

impl SimulationEvent {
    /// The nominal size of the event, by its kind.
    pub open spec fn nominal_size(self) -> usize {
        match self {
            SimulationEvent::BugMoved { .. } => 32,
            SimulationEvent::BugBorn { .. } => 64,
            SimulationEvent::BugDied { .. } => 24,
            SimulationEvent::FoodChanged { .. } => 16,
            SimulationEvent::BugAction { .. } => 20,
            SimulationEvent::BugsMated { .. } => 16,
            SimulationEvent::Tick { .. } => 12,
        }
    }

    /// The approximate size of the event in bytes.
    pub fn size_estimate(&self) -> (n: usize)
        ensures
            n == self.nominal_size(),
    {
        match self {
            SimulationEvent::BugMoved { .. } => 32,
            SimulationEvent::BugBorn { .. } => 64,
            SimulationEvent::BugDied { .. } => 24,
            SimulationEvent::FoodChanged { .. } => 16,
            SimulationEvent::BugAction { .. } => 20,
            SimulationEvent::BugsMated { .. } => 16,
            SimulationEvent::Tick { .. } => 12,
        }
    }

    /// The event that marks the end of a tick of a world.
    pub fn tick_of(world: &World) -> (e: Self)
        ensures
            e == (SimulationEvent::Tick {
                tick: world.current_tick,
                bug_count: world@.bugs.len() as usize,
            }),
    {
        SimulationEvent::Tick { tick: world.current_tick, bug_count: world.bug_count() }
    }
}

} // verus!
