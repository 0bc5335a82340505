use crate::world::{World, WorldModel};
use vstd::prelude::*;

verus! {

/// What a snapshot is.
pub struct SnapshotModel {
    pub tick: i32,
    pub world: WorldModel,
    pub file_offset: u64,
}

/// The full state of the world at one tick, with the place in the event
/// stream at which it was taken.
pub struct Snapshot {
    pub tick: i32,
    pub world: World,
    /// Offset into the event stream, in bytes.
    pub file_offset: u64,
}

impl View for Snapshot {
    type V = SnapshotModel;

    open spec fn view(&self) -> SnapshotModel {
        SnapshotModel { tick: self.tick, world: self.world@, file_offset: self.file_offset }
    }
}

impl Snapshot {
    pub fn new(tick: i32, world: World, file_offset: u64) -> (s: Self)
        ensures
            s.tick == tick,
            s.world == world,
            s.file_offset == file_offset,
    {
        Self { tick, world, file_offset }
    }
}

impl Clone for Snapshot {
    fn clone(&self) -> (s: Self)
        ensures
            s@ == self@,
    {
        Self { tick: self.tick, world: self.world.clone(), file_offset: self.file_offset }
    }
}

/// The index of the snapshot to start from when seeking to `tick`: the
/// last among the first `n` that was taken at or before `tick`.
pub open spec fn nearest_upto(ticks: Seq<i32>, tick: i32, n: nat) -> Option<int>
    decreases n,
{
    if n == 0 || n > ticks.len() {
        None
    } else if ticks[n - 1] <= tick {
        Some(n - 1)
    } else {
        nearest_upto(ticks, tick, (n - 1) as nat)
    }
}

/// The ticks at which a list of snapshots was taken.
pub open spec fn ticks_of(snapshots: Seq<Snapshot>) -> Seq<i32> {
    Seq::new(snapshots.len(), |i: int| snapshots[i].tick)
}

/// `nearest_upto` finds a snapshot at or before `tick` that no later one
/// among the first `n` matches, and finds none only if there is none.
pub proof fn lemma_nearest(ticks: Seq<i32>, tick: i32, n: nat)
    requires
        n <= ticks.len(),
    ensures
        match nearest_upto(ticks, tick, n) {
            Some(i) => 0 <= i < n && ticks[i] <= tick && forall|j: int|
                i < j < n ==> ticks[j] > tick,
            None => forall|j: int| 0 <= j < n ==> ticks[j] > tick,
        },
    decreases n,
{
    if n > 0 && ticks[n - 1] > tick {
        lemma_nearest(ticks, tick, (n - 1) as nat);
    }
}

/// The position in `snapshots` of the one to start from when seeking to
/// `tick`.
pub fn nearest_index(snapshots: &[Snapshot], tick: i32) -> (r: Option<usize>)
    ensures
        match r {
            Some(i) => nearest_upto(ticks_of(snapshots@), tick, snapshots@.len()) == Some(i as int)
                && i < snapshots@.len() && snapshots@[i as int].tick <= tick && forall|j: int|
                i < j < snapshots@.len() ==> snapshots@[j].tick > tick,
            None => nearest_upto(ticks_of(snapshots@), tick, snapshots@.len()) is None && forall|
                j: int,
            | 0 <= j < snapshots@.len() ==> snapshots@[j].tick > tick,
        },
{
    let ghost ticks = ticks_of(snapshots@);
    let mut n: usize = snapshots.len();
    while n > 0
        invariant
            n <= snapshots@.len(),
            ticks == ticks_of(snapshots@),
            nearest_upto(ticks, tick, snapshots@.len()) == nearest_upto(ticks, tick, n as nat),
            forall|j: int| n <= j < snapshots@.len() ==> snapshots@[j].tick > tick,
        decreases n,
    {
        if snapshots[n - 1].tick <= tick {
            return Some(n - 1);
        }
        n = n - 1;
    }
    None
}

} // verus!
