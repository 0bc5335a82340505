use crate::constants::{ACT_DIVIDE, ACT_EAT, ACT_MATE, ACT_MOVE, ACT_SLEEP, ACT_TURN_CCW, ACT_TURN_CW};
use crate::fixed::tdiv;
use crate::ids::{fold_ids, id_limit};
use crate::reproduction::{
    born_of, bred, bumped, crossed, lemma_offspring, lemma_offspring_placed, lemma_spawned,
    raised_by,
};
use crate::simulation::{buried, lemma_buried_wf, pass_step, SimConfig, SimModel};
use crate::world::{
    lemma_moved_wf, lemma_wf_frame, lemma_with_bug_wf, lemma_with_cell_wf, WorldModel,
};
use vstd::prelude::*;

verus! {

/// What one bug's turn may change: the simulation stays well-formed, no bug
/// is lost, no other bug's weight changes, and whatever is born carries a
/// new identifier and a positive weight.
pub open spec fn turn_of(s: SimModel, t: SimModel, id: u64) -> bool {
    &&& t.wf()
    &&& s.world.next_bug_id <= t.world.next_bug_id
    &&& t.world.current_tick == s.world.current_tick
    &&& forall|other: u64| #[trigger]
        s.alive(other) ==> t.alive(other) && (other != id ==> t.bug(other).current_state.weight
            == s.bug(other).current_state.weight)
    &&& forall|c: u64| #[trigger]
        t.alive(c) && !s.alive(c) ==> c >= s.world.next_bug_id && t.bug(c).current_state.weight
            > 0
}

/// Sleeping is one bug's turn.
pub proof fn lemma_slept(s: SimModel, id: u64)
    requires
        s.wf(),
    ensures
        turn_of(s, s.slept(id), id),
{
    if s.alive(id) {
        assert(s.world.settled(id));
        lemma_with_bug_wf(s.world, id, s.slept(id).bug(id));
    }
}

/// Eating is one bug's turn.
pub proof fn lemma_ate(s: SimModel, id: u64)
    requires
        s.wf(),
    ensures
        turn_of(s, s.ate(id), id),
{
    if s.alive(id) {
        assert(s.world.settled(id));
        let pos = s.bug(id).current_state.pos;
        let fed = s.ate(id).world.cell(pos);
        lemma_with_cell_wf(s.world, pos, fed);
        let mid = if s.world.has_cell(pos) {
            s.world.with_cell(pos, fed)
        } else {
            s.world
        };
        assert(mid.settled(id));
        lemma_with_bug_wf(mid, id, s.ate(id).bug(id));
    }
}

/// Turning is one bug's turn.
pub proof fn lemma_turned(s: SimModel, id: u64, direction: i8)
    requires
        s.wf(),
    ensures
        turn_of(s, s.turned(id, direction), id),
{
    if s.alive(id) {
        assert(s.world.settled(id));
        lemma_with_bug_wf(s.world, id, s.turned(id, direction).bug(id));
    }
}

/// Moving is one bug's turn.
pub proof fn lemma_stepped_forward(s: SimModel, id: u64)
    requires
        s.wf(),
    ensures
        turn_of(s, s.stepped_forward(id), id),
{
    if s.alive(id) {
        assert(s.world.settled(id));
        let ahead = s.bug(id).current_state.pos.stepped(s.bug(id).current_state.facing);
        if s.world.can_move(id, ahead) {
            lemma_moved_wf(s.world, id, ahead);
            let mid = s.world.moved(id, ahead);
            assert(mid.settled(id));
            lemma_with_bug_wf(mid, id, s.stepped_forward(id).bug(id));
        }
    }
}

/// An exchange between two different bugs keeps the simulation well-formed
/// and leaves every weight as it was.
pub proof fn lemma_paired(s: SimModel, id1: u64, id2: u64)
    requires
        s.wf(),
        id1 != id2,
    ensures
        s.paired(id1, id2).wf(),
        s.paired(id1, id2).world.next_bug_id == s.world.next_bug_id,
        s.paired(id1, id2).world.current_tick == s.world.current_tick,
        forall|other: u64| #[trigger]
            s.alive(other) <==> s.paired(id1, id2).alive(other),
        forall|other: u64| #[trigger]
            s.alive(other) ==> s.paired(id1, id2).bug(other).current_state == s.bug(
                other,
            ).current_state,
{
    if s.alive(id1) && s.alive(id2) {
        assert(s.world.settled(id1));
        assert(s.world.settled(id2));
        let b1 = s.bug(id1);
        let b2 = s.bug(id2);
        let n1 = bred(b1, crossed(b1.brain.decisions, b2.brain.decisions, s.rng));
        let n2 = bred(b2, crossed(b2.brain.decisions, b1.brain.decisions, s.rng));
        lemma_with_bug_wf(s.world, id1, n1);
        let mid = s.world.with_bug(id1, n1);
        assert(mid.settled(id2));
        lemma_with_bug_wf(mid, id2, n2);
    }
}

/// Mating is one bug's turn.
pub proof fn lemma_mated(s: SimModel, id: u64)
    requires
        s.wf(),
    ensures
        turn_of(s, s.mated(id), id),
{
    if s.alive(id) {
        assert(s.world.settled(id));
        let ahead = s.bug(id).current_state.pos.stepped(s.bug(id).current_state.facing);
        let s1 = if s.world.occupied(ahead) && s.world.occupant(ahead) != id {
            s.paired(id, s.world.occupant(ahead))
        } else {
            s
        };
        if s.world.occupied(ahead) && s.world.occupant(ahead) != id {
            lemma_paired(s, id, s.world.occupant(ahead));
        }
        assert(s1.alive(id));
        assert(s1.world.settled(id));
        lemma_with_bug_wf(s1.world, id, s.mated(id).bug(id));
        assert forall|other: u64| #[trigger] s.alive(other) implies s.mated(id).alive(other) && (
        other != id ==> s.mated(id).bug(other).current_state.weight == s.bug(
            other,
        ).current_state.weight) by {
            assert(s1.alive(other));
        }
        assert forall|c: u64| #[trigger] s.mated(id).alive(c) && !s.alive(c) implies c
            >= s.world.next_bug_id && s.mated(id).bug(c).current_state.weight > 0 by {
            assert(s1.alive(c));
        }
    }
}

/// Division is one bug's turn.
pub proof fn lemma_divided(s: SimModel, id: u64)
    requires
        s.wf(),
    ensures
        turn_of(s, s.divided(id), id),
{
    if s.can_divide(id) {
        assert(s.world.settled(id));
        if s.underage(id) {
            lemma_with_bug_wf(s.world, id, s.divided(id).bug(id));
        } else {
            let parent = s.bug(id);
            let share = tdiv(
                parent.current_state.weight as int,
                parent.brain.divide_count + 1,
            ) as i32;
            assert(share > 0) by {
                lemma_share_positive(parent.current_state.weight as int, parent.brain.divide_count as int);
            }
            let t = s.spawned(parent, share, parent.brain.divide_count as nat);
            lemma_spawned(s, parent, share, parent.brain.divide_count as nat);
            lemma_offspring(s, parent, share, parent.brain.divide_count as nat);
            assert(t.alive(id));
            assert(t.world.settled(id));
            lemma_with_bug_wf(t.world, id, s.divided(id).bug(id));
            assert forall|other: u64| #[trigger] s.alive(other) implies s.divided(id).alive(other)
                && (other != id ==> s.divided(id).bug(other).current_state.weight == s.bug(
                other,
            ).current_state.weight) by {
                assert(t.alive(other));
            }
            assert forall|c: u64| #[trigger] s.divided(id).alive(c) && !s.alive(c) implies c
                >= s.world.next_bug_id && s.divided(id).bug(c).current_state.weight > 0 by {
                assert(t.alive(c));
            }
        }
    }
}

/// A bug with the mass to divide into `fanout` offspring, `fanout` between
/// 2 and 7, leaves a positive share.
pub proof fn lemma_share_positive(weight: int, fanout: int)
    requires
        2 <= fanout <= 7,
        weight >= 1024 * fanout,
    ensures
        tdiv(weight, fanout + 1) > 0,
        tdiv(weight, fanout + 1) <= weight,
        tdiv(weight, fanout + 1) == weight / (fanout + 1),
{
    assert(weight / (fanout + 1) > 0 && weight / (fanout + 1) <= weight) by (nonlinear_arith)
        requires
            2 <= fanout <= 7,
            weight >= 1024 * fanout,
    ;
}

/// Whatever a bug decides, acting on it is that bug's turn.
pub proof fn lemma_processed(s: SimModel, id: u64)
    requires
        s.wf(),
    ensures
        turn_of(s, s.processed(id), id),
{
    if s.alive(id) {
        let action = s.bug(id).brain.choice(s.world.senses(id));
        if action == ACT_SLEEP {
            lemma_slept(s, id);
        } else if action == ACT_EAT {
            lemma_ate(s, id);
        } else if action == ACT_TURN_CW {
            lemma_turned(s, id, 1);
        } else if action == ACT_TURN_CCW {
            lemma_turned(s, id, -1i8);
        } else if action == ACT_MOVE {
            lemma_stepped_forward(s, id);
        } else if action == ACT_MATE {
            lemma_mated(s, id);
        } else if action == ACT_DIVIDE {
            lemma_divided(s, id);
        }
    }
}

/// What holds while the bugs below `n` have had their turn: nobody has been
/// lost, whatever is new carries a new identifier, and a bug at a weight of
/// 0 or less either awaits its turn or is listed as starved.
pub open spec fn pass_inv(s0: SimModel, acc: (SimModel, Seq<u64>), n: nat) -> bool {
    &&& acc.0.wf()
    &&& s0.world.next_bug_id <= acc.0.world.next_bug_id
    &&& s0.world.current_tick == acc.0.world.current_tick
    &&& forall|id: u64| #[trigger] s0.alive(id) ==> acc.0.alive(id)
    &&& forall|id: u64| #[trigger]
        acc.0.alive(id) ==> s0.alive(id) || id >= s0.world.next_bug_id
    &&& forall|id: u64| #[trigger]
        acc.0.alive(id) && acc.0.bug(id).current_state.weight <= 0 ==> s0.alive(id) && (id >= n
            || acc.1.contains(id))
}

/// The pass over the bugs keeps `pass_inv`.
pub proof fn lemma_pass(s0: SimModel, n: nat)
    requires
        s0.wf(),
    ensures
        pass_inv(
            s0,
            fold_ids(s0.world.bugs.dom(), n, (s0, Seq::<u64>::empty()), pass_step()),
            n,
        ),
    decreases n,
{
    let dom = s0.world.bugs.dom();
    let init = (s0, Seq::<u64>::empty());
    if n == 0 {
        assert forall|id: u64| #[trigger] s0.alive(id) implies s0.world.settled(id) by {}
    } else {
        lemma_pass(s0, (n - 1) as nat);
        let acc = fold_ids(dom, (n - 1) as nat, init, pass_step());
        if n <= id_limit() && dom.contains((n - 1) as u64) {
            let id = (n - 1) as u64;
            let t = acc.0.processed(id);
            lemma_processed(acc.0, id);
            let next = pass_step()(acc, id);
            assert(next.0 == t);
            assert forall|b: u64| #[trigger] s0.alive(b) implies next.0.alive(b) by {
                assert(acc.0.alive(b));
            }
            assert forall|b: u64| #[trigger] next.0.alive(b) implies s0.alive(b) || b
                >= s0.world.next_bug_id by {
                if !acc.0.alive(b) {
                } else {
                    assert(acc.0.alive(b));
                }
            }
            assert forall|b: u64| #[trigger]
                next.0.alive(b) && next.0.bug(b).current_state.weight <= 0 implies s0.alive(b) && (
            b >= n || next.1.contains(b)) by {
                if b == id {
                    assert(s0.alive(id));
                    assert(next.1 == acc.1.push(id));
                    assert(next.1[acc.1.len() as int] == id);
                } else if acc.0.alive(b) {
                    assert(next.0.bug(b).current_state.weight == acc.0.bug(b).current_state.weight);
                    if acc.1.contains(b) {
                        let k = choose|k: int| 0 <= k < acc.1.len() && acc.1[k] == b;
                        assert(next.1[k] == b);
                    }
                }
            }
        } else {
            assert forall|b: u64| #[trigger]
                acc.0.alive(b) && acc.0.bug(b).current_state.weight <= 0 implies s0.alive(b) && (b
                >= n || acc.1.contains(b)) by {
                if b == n - 1 {
                    assert(s0.alive(b));
                    assert(dom.contains(b));
                }
            }
        }
    }
}

/// Burying removes the listed bugs and leaves all others as they were.
pub proof fn lemma_buried(world: WorldModel, dead: Seq<u64>, n: nat)
    requires
        world.wf(),
        n <= dead.len(),
    ensures
        buried(world, dead, n).wf(),
        buried(world, dead, n).next_bug_id == world.next_bug_id,
        buried(world, dead, n).cells == world.cells,
        buried(world, dead, n).current_tick == world.current_tick,
        forall|id: u64| #[trigger]
            buried(world, dead, n).bugs.contains_key(id) ==> world.bugs.contains_key(id)
                && buried(world, dead, n).bugs[id] == world.bugs[id],
        forall|k: int| 0 <= k < n ==> !buried(world, dead, n).bugs.contains_key(#[trigger] dead[k]),
    decreases n,
{
    lemma_buried_wf(world, dead, n);
    if n > 0 {
        lemma_buried(world, dead, (n - 1) as nat);
    }
}

/// After the pass and the removal of the starved, every bug has a positive
/// weight, no bug that was gone has come back, and whatever is new carries
/// a new identifier.
pub proof fn lemma_swept(s: SimModel)
    requires
        s.wf(),
    ensures
        s.swept().wf(),
        s.world.next_bug_id <= s.swept().world.next_bug_id,
        s.swept().world.current_tick == s.world.current_tick,
        forall|id: u64| #[trigger] s.swept().alive(id) ==> s.swept().bug(id).current_state.weight > 0,
        forall|id: u64| #[trigger] s.swept().alive(id) ==> s.alive(id) || id >= s.world.next_bug_id,
{
    lemma_pass(s, id_limit());
    let (t, dead) = s.passed();
    lemma_buried(t.world, dead, dead.len());
    let w = buried(t.world, dead, dead.len());
    assert forall|id: u64| #[trigger] s.swept().alive(id) implies s.swept().bug(
        id,
    ).current_state.weight > 0 by {
        assert(t.alive(id));
        if t.bug(id).current_state.weight <= 0 {
            assert(dead.contains(id));
            let k = choose|k: int| 0 <= k < dead.len() && dead[k] == id;
            assert(!w.bugs.contains_key(dead[k]));
        }
    }
    assert forall|id: u64| #[trigger] s.swept().alive(id) implies s.alive(id) || id
        >= s.world.next_bug_id by {
        assert(t.alive(id));
    }
}

/// Updating the difficulty parameters leaves the world as it is and keeps
/// the simulation well-formed.
pub proof fn lemma_tuned(s: SimModel)
    requires
        s.wf(),
    ensures
        s.tuned().wf(),
        s.tuned().world == s.world,
{
}

/// Growing food leaves the bugs as they are and keeps the simulation
/// well-formed.
pub proof fn lemma_fed(s: SimModel)
    requires
        s.wf(),
    ensures
        s.fed().wf(),
        s.fed().world.bugs == s.world.bugs,
        s.fed().world.index == s.world.index,
        s.fed().world.next_bug_id == s.world.next_bug_id,
        s.fed().world.current_tick == s.world.current_tick,
{
    lemma_wf_frame(s.world, s.fed().world);
}

/// The spatial index stays exactly the inverse of the bugs' positions over
/// a tick; after a tick every living bug has a positive weight; a bug that
/// was gone before the tick is gone after it; and whatever was born carries
/// an identifier that was never given out before.
pub proof fn lemma_ticked(s: SimModel)
    requires
        s.wf(),
    ensures
        s.ticked().wf(),
        s.world.next_bug_id <= s.ticked().world.next_bug_id,
        s.ticked().world.current_tick == (s.world.current_tick + 1) as i32,
        forall|id: u64| #[trigger] s.ticked().alive(id) ==> s.ticked().bug(id).current_state.weight > 0,
        forall|id: u64| #[trigger] s.ticked().alive(id) ==> s.alive(id) || id >= s.world.next_bug_id,
{
    let s1 = SimModel {
        world: WorldModel { current_tick: (s.world.current_tick + 1) as i32, ..s.world },
        ..s
    };
    lemma_wf_frame(s.world, s1.world);
    lemma_tuned(s1);
    let s2 = s1.tuned();
    lemma_swept(s2);
    let s3 = s2.swept();
    lemma_fed(s3);
    let s4 = s3.fed();
    assert(s.ticked() == s4.recorded());
    assert forall|id: u64| #[trigger] s.ticked().alive(id) implies s.ticked().bug(
        id,
    ).current_state.weight > 0 && (s.alive(id) || id >= s.world.next_bug_id) by {
        assert(s3.alive(id));
        assert(s2.alive(id) || id >= s2.world.next_bug_id);
    }
}

/// Starvation is final: a bug that is gone, under an identifier that has
/// been given out, is gone in every later tick; and after any tick every
/// living bug has a positive weight and the world is well-formed.
pub proof fn lemma_starved_stay_gone(s: SimModel, id: u64, ticks: nat)
    requires
        s.wf(),
        !s.alive(id),
        id < s.world.next_bug_id,
    ensures
        s.after(ticks).wf(),
        !s.after(ticks).alive(id),
        id < s.after(ticks).world.next_bug_id,
        ticks > 0 ==> forall|b: u64| #[trigger]
            s.after(ticks).alive(b) ==> s.after(ticks).bug(b).current_state.weight > 0,
    decreases ticks,
{
    if ticks > 0 {
        lemma_starved_stay_gone(s, id, (ticks - 1) as nat);
        lemma_ticked(s.after((ticks - 1) as nat));
    }
}

/// A run is determined by its configuration: two simulations that start
/// from the same seed and tick ceiling are the same after any number of
/// ticks, and so are their population, total food and total mass, and the
/// tick markers that a recorder is given.
pub proof fn lemma_determinism(config: SimConfig, a: SimModel, b: SimModel, ticks: nat)
    requires
        a == SimModel::genesis(config),
        b == SimModel::genesis(config),
    ensures
        a.after(ticks) == b.after(ticks),
        a.after(ticks).world.bugs.len() == b.after(ticks).world.bugs.len(),
        a.after(ticks).world.total_food() == b.after(ticks).world.total_food(),
        a.after(ticks).world.total_mass() == b.after(ticks).world.total_mass(),
        a.after(ticks).running() == b.after(ticks).running(),
        forall|k: nat|
            k <= ticks ==> (#[trigger] a.after(k)).world.current_tick == b.after(
                k,
            ).world.current_tick && a.after(k).world.bugs.len() == b.after(k).world.bugs.len(),
{
}

/// A successful division: the parent and every offspring hold one share
/// of the parent's weight, which is the weight over the fan-out plus one,
/// rounded down; the offspring are one generation on and the parent's
/// generation is unchanged; the offspring carry the identifiers given out
/// during the division, as many bugs are added as identifiers were given
/// out, each is born of the parent on a neighbour cell that was free, the
/// parent stays where it was and counts them, and nobody else is touched.
/// Where every one of the `fanout` offspring found a free cell, the share
/// is the weight over the number of offspring plus one. The counters hold
/// at the bound of their type.
pub proof fn lemma_division(s: SimModel, id: u64)
    requires
        s.wf(),
        s.can_divide(id),
        !s.underage(id),
    ensures
        ({
            let t = s.divided(id);
            let parent = s.bug(id);
            let fanout = parent.brain.divide_count as int;
            let weight = parent.current_state.weight as int;
            let born = t.world.next_bug_id - s.world.next_bug_id;
            &&& t.wf()
            &&& 0 <= born <= fanout
            &&& t.alive(id)
            &&& t.bug(id).current_state.weight == weight / (fanout + 1)
            &&& t.bug(id).brain.generation == parent.brain.generation
            &&& forall|c: u64|
                s.world.next_bug_id <= c < t.world.next_bug_id ==> #[trigger] t.alive(c)
                    && !s.alive(c)
            &&& forall|c: u64| #[trigger]
                t.alive(c) && !s.alive(c) ==> s.world.next_bug_id <= c < t.world.next_bug_id
                    && t.bug(c).current_state.weight == weight / (fanout + 1) && t.bug(
                    c,
                ).brain.generation == bumped(parent.brain.generation)
            &&& forall|other: u64| #[trigger]
                s.alive(other) && other != id ==> t.alive(other) && t.bug(other) == s.bug(other)
            &&& born == fanout ==> t.bug(id).current_state.weight == weight / (born + 1)
            &&& t.bug(id).current_state.pos == parent.current_state.pos
            &&& t.bug(id).data.children == raised_by(parent.data.children, born)
            &&& parent.data.children + born <= u32::MAX ==> t.bug(id).data.children
                == parent.data.children + born
            &&& forall|c: u64| #[trigger]
                t.alive(c) && !s.alive(c) ==> born_of(s, parent, fanout as nat, t.bug(c)) && (
                parent.brain.generation < u32::MAX ==> t.bug(c).brain.generation
                    == parent.brain.generation + 1)
            &&& s.world.bugs.dom().finite() ==> t.world.bugs.len() == s.world.bugs.len() + born
        }),
{
    assert(s.world.settled(id));
    let parent = s.bug(id);
    let fanout = parent.brain.divide_count;
    let share = tdiv(parent.current_state.weight as int, fanout + 1) as i32;
    lemma_share_positive(parent.current_state.weight as int, fanout as int);
    let m = s.spawned(parent, share, fanout as nat);
    lemma_spawned(s, parent, share, fanout as nat);
    lemma_offspring(s, parent, share, fanout as nat);
    lemma_offspring_placed(s, parent, share, fanout as nat);
    let t = s.divided(id);
    assert(m.alive(id));
    assert(t.world.bugs.dom() =~= m.world.bugs.dom());
    assert forall|c: u64| #[trigger] t.alive(c) && !s.alive(c) implies born_of(
        s,
        parent,
        fanout as nat,
        t.bug(c),
    ) && (parent.brain.generation < u32::MAX ==> t.bug(c).brain.generation
        == parent.brain.generation + 1) by {
        assert(m.alive(c));
        assert(m.world.bugs.contains_key(c) && !s.world.bugs.contains_key(c));
    }
    assert(m.world.settled(id));
    lemma_with_bug_wf(m.world, id, t.bug(id));
    assert forall|c: u64| s.world.next_bug_id <= c < t.world.next_bug_id implies #[trigger] t.alive(
        c,
    ) && !s.alive(c) by {
        assert(m.alive(c));
        if s.alive(c) {
            assert(s.world.settled(c));
        }
    }
    assert forall|c: u64| #[trigger] t.alive(c) && !s.alive(c) implies s.world.next_bug_id <= c
        < t.world.next_bug_id && t.bug(c).current_state.weight == (
    parent.current_state.weight as int) / (fanout + 1) && t.bug(c).brain.generation == bumped(
        parent.brain.generation,
    ) by {
        assert(m.alive(c));
        assert(m.world.settled(c));
    }
    assert forall|other: u64| #[trigger] s.alive(other) && other != id implies t.alive(other)
        && t.bug(other) == s.bug(other) by {
        assert(m.alive(other));
    }
}

} // verus!
