use crate::bug::{Bug, BugModel, BugState, Pos};
use crate::constants::{DROWN_DEPTH, INIT_DEPTH, POS_HISTORY, WORLD_X, WORLD_Y};
use crate::fixed::{clamp_i64, tdiv, to_i64};
use crate::ids::{ascending, fold_ids, folded_to, id_limit, lemma_fold_done, lemma_fold_next, sort_distinct};
use std::collections::HashMap;
use vstd::prelude::*;
use vstd::std_specs::iter::IteratorSpec;

verus! {

/// One cell of the grid.
#[derive(Debug, Clone, Copy)]
pub struct Cell {
    pub food: i32,
    pub water: i32,
    pub terrain_height: i32,
    /// Scratch distance to the nearest bug, -1 if none.
    pub nearest: i32,
}

impl Cell {
    /// A cell with nothing in it.
    pub open spec fn bare() -> Cell {
        Cell { food: 0, water: 0, terrain_height: 0, nearest: -1i32 }
    }
}

impl Default for Cell {
    fn default() -> (c: Self)
        ensures
            c == Cell::bare(),
    {
        Self { food: 0, water: 0, terrain_height: 0, nearest: -1 }
    }
}

/// The key under which the spatial index files a cell of the world.
pub open spec fn cell_key(p: Pos) -> u64 {
    (p.x * WORLD_Y + p.y) as u64
}

/// The key of a cell of the world.
pub fn key_of(p: Pos) -> (k: u64)
    requires
        p.in_world(),
    ensures
        k == cell_key(p),
{
    (p.x as u64) * (WORLD_Y as u64) + (p.y as u64)
}

/// The cell that the spatial index files under `key`.
pub fn cell_of(key: u64) -> (p: Pos)
    requires
        key < WORLD_X * WORLD_Y,
    ensures
        p.in_world(),
        cell_key(p) == key,
{
    Pos { x: (key / WORLD_Y as u64) as i32, y: (key % WORLD_Y as u64) as i32 }
}

/// What a world is: the grid, the bugs by identifier, the spatial index
/// from cell key to the identifier of the bug that stands there, and the two
/// counters.
pub struct WorldModel {
    pub cells: Seq<Seq<Cell>>,
    pub bugs: Map<u64, BugModel>,
    pub index: Map<u64, u64>,
    pub next_bug_id: u64,
    pub current_tick: i32,
}

impl WorldModel {
    /// The grid has the dimensions of the world.
    pub open spec fn sized(self) -> bool {
        &&& self.cells.len() == WORLD_X
        &&& forall|x: int| 0 <= x < WORLD_X ==> (#[trigger] self.cells[x]).len() == WORLD_Y
    }

    /// Bug `id` is a valid bug under its own identifier, older than the next
    /// identifier to be given out, and the index files it under its cell.
    pub open spec fn settled(self, id: u64) -> bool {
        let b = self.bugs[id];
        &&& b.id == id
        &&& b.wf()
        &&& b.current_state.pos.in_world()
        &&& id < self.next_bug_id
        &&& self.index.contains_key(cell_key(b.current_state.pos))
        &&& self.index[cell_key(b.current_state.pos)] == id
    }

    /// The grid is whole, and the spatial index is exactly the inverse of the
    /// bugs' positions: every bug is filed under its cell and every entry
    /// names a bug that stands on that cell. So no two bugs share a cell.
    pub open spec fn wf(self) -> bool {
        &&& self.sized()
        &&& forall|id: u64| #[trigger] self.bugs.contains_key(id) ==> self.settled(id)
        &&& forall|k: u64| #[trigger]
            self.index.contains_key(k) ==> self.bugs.contains_key(self.index[k]) && cell_key(
                self.bugs[self.index[k]].current_state.pos,
            ) == k
    }

    /// A world of bare cells without bugs.
    pub open spec fn empty() -> WorldModel {
        WorldModel {
            cells: Seq::new(WORLD_X as nat, |x: int| Seq::new(WORLD_Y as nat, |y: int| Cell::bare())),
            bugs: Map::empty(),
            index: Map::empty(),
            next_bug_id: 1,
            current_tick: 0,
        }
    }

    /// Whether the grid holds the cell that `pos` wraps to.
    pub open spec fn has_cell(self, pos: Pos) -> bool {
        let p = pos.wrapped();
        p.x < self.cells.len() && p.y < self.cells[p.x as int].len()
    }

    /// The cell that `pos` wraps to.
    pub open spec fn cell(self, pos: Pos) -> Cell {
        let p = pos.wrapped();
        self.cells[p.x as int][p.y as int]
    }

    /// The world with the cell that `pos` wraps to replaced.
    pub open spec fn with_cell(self, pos: Pos, cell: Cell) -> WorldModel {
        let p = pos.wrapped();
        WorldModel {
            cells: self.cells.update(p.x as int, self.cells[p.x as int].update(p.y as int, cell)),
            ..self
        }
    }

    /// Whether the index files a bug under the cell that `pos` wraps to.
    pub open spec fn occupied(self, pos: Pos) -> bool {
        self.index.contains_key(cell_key(pos.wrapped()))
    }

    /// The identifier filed under the cell that `pos` wraps to.
    pub open spec fn occupant(self, pos: Pos) -> u64 {
        self.index[cell_key(pos.wrapped())]
    }

    /// Whether a bug can be found through the cell that `pos` wraps to.
    pub open spec fn has_bug_at(self, pos: Pos) -> bool {
        self.occupied(pos) && self.bugs.contains_key(self.occupant(pos))
    }

    /// The world with bug `id` replaced.
    pub open spec fn with_bug(self, id: u64, bug: BugModel) -> WorldModel {
        WorldModel { bugs: self.bugs.insert(id, bug), ..self }
    }

    /// The bug as the world registers it: under the next identifier, on the
    /// cell its position wraps to.
    pub open spec fn registered(self, bug: BugModel) -> BugModel {
        BugModel {
            id: self.next_bug_id,
            current_state: BugState {
                pos: bug.current_state.pos.wrapped(),
                ..bug.current_state
            },
            ..bug
        }
    }

    /// The world after `bug` has been added.
    pub open spec fn placed(self, bug: BugModel) -> WorldModel {
        let b = self.registered(bug);
        WorldModel {
            bugs: self.bugs.insert(b.id, b),
            index: self.index.insert(cell_key(b.current_state.pos), b.id),
            next_bug_id: (self.next_bug_id + 1) as u64,
            ..self
        }
    }

    /// The world after bug `id` has been removed; the same world if there is
    /// no such bug.
    pub open spec fn without(self, id: u64) -> WorldModel {
        if self.bugs.contains_key(id) {
            WorldModel {
                bugs: self.bugs.remove(id),
                index: self.index.remove(cell_key(self.bugs[id].current_state.pos.wrapped())),
                ..self
            }
        } else {
            self
        }
    }

    /// Whether bug `id` exists and the cell that `to` wraps to is free.
    pub open spec fn can_move(self, id: u64, to: Pos) -> bool {
        !self.occupied(to) && self.bugs.contains_key(id)
    }

    /// The world after bug `id` has been relocated to the cell that `to`
    /// wraps to.
    pub open spec fn moved(self, id: u64, to: Pos) -> WorldModel {
        let b = self.bugs[id];
        let p = to.wrapped();
        WorldModel {
            bugs: self.bugs.insert(
                id,
                BugModel { current_state: BugState { pos: p, ..b.current_state }, ..b },
            ),
            index: self.index.remove(cell_key(b.current_state.pos.wrapped())).insert(
                cell_key(p),
                id,
            ),
            ..self
        }
    }
}

/// The food in the first `n` cells of a column.
pub open spec fn column_food(col: Seq<Cell>, n: nat) -> int
    decreases n,
{
    if n == 0 || n > col.len() {
        0
    } else {
        column_food(col, (n - 1) as nat) + col[n - 1].food
    }
}

/// The food in the first `n` columns of a grid.
pub open spec fn grid_food(cells: Seq<Seq<Cell>>, n: nat) -> int
    decreases n,
{
    if n == 0 || n > cells.len() {
        0
    } else {
        grid_food(cells, (n - 1) as nat) + column_food(cells[n - 1], cells[n - 1].len())
    }
}

/// Adds the weight of bug `id` to a running sum.
pub open spec fn add_mass(bugs: Map<u64, BugModel>) -> spec_fn(int, u64) -> int {
    |acc: int, id: u64| acc + bugs[id].current_state.weight
}

/// Adds the cached gene count of bug `id` to a running sum.
pub open spec fn add_genes(bugs: Map<u64, BugModel>) -> spec_fn(int, u64) -> int {
    |acc: int, id: u64| acc + bugs[id].brain.n_genes
}

/// The cell after its terrain has been set to `height`: ground lower than
/// the initial depth is flooded to the depth it lies below zero, at most to
/// twice the drowning depth.
pub open spec fn shaped(cell: Cell, height: i32) -> Cell {
    Cell {
        terrain_height: height,
        water: if height < -INIT_DEPTH {
            if -height < DROWN_DEPTH * 2 {
                (-height) as i32
            } else {
                (DROWN_DEPTH * 2) as i32
            }
        } else {
            cell.water
        },
        ..cell
    }
}

/// A statistics record of one tick.
#[derive(Debug, Clone, Copy)]
pub struct WorldStats {
    pub tick: i32,
    pub bug_count: usize,
    pub total_food: i64,
    pub total_bug_mass: i64,
    pub avg_bug_mass: i64,
    /// Mean cached gene count, fixed point: 1024 per gene.
    pub avg_genes: i64,
    pub avg_food_per_cell: i32,
    pub births: u32,
    pub starvations: u32,
    pub collisions: u32,
    pub drownings: u32,
    pub movements: u32,
}

impl WorldStats {
    /// The record in which everything is 0.
    pub open spec fn zero() -> WorldStats {
        WorldStats {
            tick: 0,
            bug_count: 0,
            total_food: 0,
            total_bug_mass: 0,
            avg_bug_mass: 0,
            avg_genes: 0,
            avg_food_per_cell: 0,
            births: 0,
            starvations: 0,
            collisions: 0,
            drownings: 0,
            movements: 0,
        }
    }
}

impl Default for WorldStats {
    fn default() -> (s: Self)
        ensures
            s == WorldStats::zero(),
    {
        Self {
            tick: 0,
            bug_count: 0,
            total_food: 0,
            total_bug_mass: 0,
            avg_bug_mass: 0,
            avg_genes: 0,
            avg_food_per_cell: 0,
            births: 0,
            starvations: 0,
            collisions: 0,
            drownings: 0,
            movements: 0,
        }
    }
}

impl WorldModel {
    /// The food in all cells.
    pub open spec fn total_food(self) -> int {
        grid_food(self.cells, self.cells.len())
    }

    /// The weight of all bugs.
    pub open spec fn total_mass(self) -> int {
        fold_ids(self.bugs.dom(), id_limit(), 0int, add_mass(self.bugs))
    }

    /// The cached gene counts of all bugs.
    pub open spec fn total_genes(self) -> int {
        fold_ids(self.bugs.dom(), id_limit(), 0int, add_genes(self.bugs))
    }

    /// The statistics of the world: all 0 for a world without bugs, else
    /// the totals and the means derived from them, with the event counters
    /// at 0.
    pub open spec fn stats(self) -> WorldStats {
        if self.bugs.len() == 0 {
            WorldStats::zero()
        } else {
            WorldStats {
                tick: self.current_tick,
                bug_count: self.bugs.len() as usize,
                total_food: self.total_food() as i64,
                total_bug_mass: clamp_i64(self.total_mass()),
                avg_bug_mass: tdiv(clamp_i64(self.total_mass()) as int, self.bugs.len() as int) as i64,
                avg_genes: clamp_i64(self.total_genes() * 1024 / (self.bugs.len() as int)),
                avg_food_per_cell: tdiv(self.total_food(), WORLD_X * WORLD_Y) as i32,
                births: 0,
                starvations: 0,
                collisions: 0,
                drownings: 0,
                movements: 0,
            }
        }
    }
}

/// The food of a column lies within the range of its cells.
pub proof fn lemma_column_food_bound(col: Seq<Cell>, n: nat)
    requires
        n <= col.len(),
    ensures
        -0x8000_0000 * n <= column_food(col, n) <= 0x7fff_ffff * n,
    decreases n,
{
    if n > 0 {
        lemma_column_food_bound(col, (n - 1) as nat);
    }
}

/// The food of a grid of world height lies within the range of its cells.
pub proof fn lemma_grid_food_bound(cells: Seq<Seq<Cell>>, n: nat)
    requires
        n <= cells.len(),
        forall|x: int| 0 <= x < cells.len() ==> (#[trigger] cells[x]).len() == WORLD_Y,
    ensures
        -2147483648000 * n <= grid_food(cells, n) <= 2147483647000 * n,
    decreases n,
{
    if n > 0 {
        lemma_grid_food_bound(cells, (n - 1) as nat);
        lemma_column_food_bound(cells[n - 1], WORLD_Y as nat);
    }
}

/// Whether a world is well-formed depends on its grid only through the
/// dimensions, and not on the tick.
pub proof fn lemma_wf_frame(w: WorldModel, n: WorldModel)
    requires
        w.wf(),
        n.sized(),
        n.bugs == w.bugs,
        n.index == w.index,
        n.next_bug_id == w.next_bug_id,
    ensures
        n.wf(),
{
    assert forall|id: u64| #[trigger] n.bugs.contains_key(id) implies n.settled(id) by {
        assert(w.settled(id));
    }
    assert forall|k: u64| #[trigger] n.index.contains_key(k) implies n.bugs.contains_key(
        n.index[k],
    ) && cell_key(n.bugs[n.index[k]].current_state.pos) == k by {
        assert(w.index.contains_key(k));
    }
}

/// Replacing a cell keeps the world well-formed.
pub proof fn lemma_with_cell_wf(w: WorldModel, pos: Pos, cell: Cell)
    requires
        w.sized(),
    ensures
        w.with_cell(pos, cell).sized(),
        w.wf() ==> w.with_cell(pos, cell).wf(),
{
    let n = w.with_cell(pos, cell);
    assert forall|x: int| 0 <= x < WORLD_X implies (#[trigger] n.cells[x]).len() == WORLD_Y by {
        assert(w.cells[x].len() == WORLD_Y);
    }
    if w.wf() {
        lemma_wf_frame(w, n);
    }
}

/// Adding a valid bug on a free cell keeps the world well-formed.
pub proof fn lemma_placed_wf(w: WorldModel, bug: BugModel)
    requires
        w.wf(),
        bug.wf(),
        !w.occupied(bug.current_state.pos),
        w.next_bug_id < u64::MAX,
    ensures
        w.placed(bug).wf(),
{
    let n = w.placed(bug);
    let b = w.registered(bug);
    assert(!w.bugs.contains_key(b.id)) by {
        if w.bugs.contains_key(b.id) {
            assert(w.settled(b.id));
        }
    }
    assert forall|id: u64| #[trigger] n.bugs.contains_key(id) implies n.settled(id) by {
        if id != b.id {
            assert(w.settled(id));
        }
    }
    assert forall|k: u64| #[trigger] n.index.contains_key(k) implies n.bugs.contains_key(
        n.index[k],
    ) && cell_key(n.bugs[n.index[k]].current_state.pos) == k by {
        if k != cell_key(b.current_state.pos) {
            assert(w.index.contains_key(k));
        }
    }
}

/// Removing a bug keeps the world well-formed.
pub proof fn lemma_without_wf(w: WorldModel, id: u64)
    requires
        w.wf(),
    ensures
        w.without(id).wf(),
{
    let n = w.without(id);
    if w.bugs.contains_key(id) {
        assert(w.settled(id));
        assert forall|other: u64| #[trigger] n.bugs.contains_key(other) implies n.settled(
            other,
        ) by {
            assert(w.settled(other));
        }
        assert forall|k: u64| #[trigger] n.index.contains_key(k) implies n.bugs.contains_key(
            n.index[k],
        ) && cell_key(n.bugs[n.index[k]].current_state.pos) == k by {
            assert(w.index.contains_key(k));
        }
    }
}

/// Relocating a bug to a free cell keeps the world well-formed.
pub proof fn lemma_moved_wf(w: WorldModel, id: u64, to: Pos)
    requires
        w.wf(),
        w.can_move(id, to),
    ensures
        w.moved(id, to).wf(),
{
    let n = w.moved(id, to);
    assert(w.settled(id));
    assert forall|other: u64| #[trigger] n.bugs.contains_key(other) implies n.settled(other) by {
        if other != id {
            assert(w.settled(other));
        }
    }
    assert forall|k: u64| #[trigger] n.index.contains_key(k) implies n.bugs.contains_key(
        n.index[k],
    ) && cell_key(n.bugs[n.index[k]].current_state.pos) == k by {
        if k != cell_key(to.wrapped()) {
            assert(w.index.contains_key(k));
        }
    }
}

/// Replacing a bug by a valid one on the same cell, under the same
/// identifier, keeps the world well-formed.
pub proof fn lemma_with_bug_wf(w: WorldModel, id: u64, bug: BugModel)
    requires
        w.wf(),
        w.bugs.contains_key(id),
        bug.wf(),
        bug.id == id,
        bug.current_state.pos == w.bugs[id].current_state.pos,
    ensures
        w.with_bug(id, bug).wf(),
{
    let n = w.with_bug(id, bug);
    assert(w.settled(id));
    assert forall|other: u64| #[trigger] n.bugs.contains_key(other) implies n.settled(other) by {
        if other != id {
            assert(w.settled(other));
        }
    }
    assert forall|k: u64| #[trigger] n.index.contains_key(k) implies n.bugs.contains_key(
        n.index[k],
    ) && cell_key(n.bugs[n.index[k]].current_state.pos) == k by {
        assert(w.index.contains_key(k));
    }
}

/// `HashMap::get_mut`: a mutable reference to the value filed under `id`,
/// through which that entry, and no other, can change.
#[verifier::external_body]
fn bug_entry(bugs: &mut HashMap<u64, Bug>, id: u64) -> (r: Option<&mut Bug>)
    ensures
        match r {
            Some(b) => old(bugs)@.contains_key(id) && *b == old(bugs)@[id] && final(bugs)@ == old(bugs)@.insert(id, *final(b)),
            None => !old(bugs)@.contains_key(id) && final(bugs)@ == old(bugs)@,
        },
{
    bugs.get_mut(&id)
}

/// The world: terrain, bugs and the spatial index.
pub struct World {
    /// Grid of cells, by column.
    pub cells: Vec<Vec<Cell>>,
    /// All bugs by identifier.
    pub bugs: HashMap<u64, Bug>,
    /// Spatial index: cell key to bug identifier.
    pub bug_positions: HashMap<u64, u64>,
    /// Next identifier to give out.
    pub next_bug_id: u64,
    /// Current tick.
    pub current_tick: i32,
}

impl View for World {
    type V = WorldModel;

    open spec fn view(&self) -> WorldModel {
        WorldModel {
            cells: Seq::new(self.cells.len() as nat, |x: int| self.cells[x]@),
            bugs: Map::new(|id: u64| self.bugs@.contains_key(id), |id: u64| self.bugs@[id]@),
            index: self.bug_positions@,
            next_bug_id: self.next_bug_id,
            current_tick: self.current_tick,
        }
    }
}

/// In a well-formed world the spatial index has exactly one entry per bug:
/// as many entries as there are bugs.
pub proof fn lemma_one_entry_per_bug(w: WorldModel)
    requires
        w.wf(),
        w.index.dom().finite(),
    ensures
        w.bugs.dom().finite(),
        w.index.len() == w.bugs.len(),
{
    let f = |k: u64| w.index[k];
    assert(vstd::relations::injective_on(f, w.index.dom())) by {
        assert forall|k1: u64, k2: u64|
            w.index.dom().contains(k1) && w.index.dom().contains(k2) && #[trigger] f(k1)
                == #[trigger] f(k2) implies k1 == k2 by {
            assert(w.index.contains_key(k1));
            assert(w.index.contains_key(k2));
        }
    }
    assert(w.index.dom().map(f) =~= w.bugs.dom()) by {
        assert forall|id: u64| w.bugs.dom().contains(id) implies w.index.dom().map(f).contains(
            id,
        ) by {
            assert(w.bugs.contains_key(id));
            assert(w.settled(id));
            let k = cell_key(w.bugs[id].current_state.pos);
            assert(w.index.dom().contains(k) && f(k) == id);
        }
        assert forall|id: u64| w.index.dom().map(f).contains(id) implies w.bugs.dom().contains(
            id,
        ) by {
            let k = choose|k: u64| w.index.dom().contains(k) && id == f(k);
            assert(w.index.contains_key(k));
        }
    }
    vstd::set_lib::lemma_map_size(w.index.dom(), w.bugs.dom(), f);
}

/// The same of the world as it is held: the two maps have the same size.
pub proof fn lemma_index_size(w: &World)
    requires
        w@.wf(),
    ensures
        w.bug_positions@.len() == w.bugs@.len(),
        w@.index.len() == w@.bugs.len(),
{
    assert(w@.bugs.dom() =~= w.bugs@.dom());
    lemma_one_entry_per_bug(w@);
}

/// The grid of a world's model is the grid the world holds.
pub proof fn lemma_cells_view(w: &World)
    ensures
        w@.cells.len() == w.cells.len(),
        forall|x: int| 0 <= x < w.cells.len() ==> #[trigger] w@.cells[x] == w.cells[x]@,
        forall|x: int, y: int|
            #![trigger w.cells[x][y]]
            #![trigger w@.cells[x][y]]
            0 <= x < w.cells.len() && 0 <= y < w.cells[x].len() ==> w@.cells[x][y]
                == w.cells[x][y],
{
}

impl World {
    pub fn new() -> (w: Self)
        ensures
            w@ == WorldModel::empty(),
            w@.wf(),
    {
        let mut cells: Vec<Vec<Cell>> = Vec::with_capacity(WORLD_X);
        let mut x: usize = 0;
        while x < WORLD_X
            invariant
                x <= WORLD_X,
                cells.len() == x,
                forall|i: int| 0 <= i < x ==> (#[trigger] cells[i])@ == WorldModel::empty().cells[i],
            decreases WORLD_X - x,
        {
            let mut col: Vec<Cell> = Vec::with_capacity(WORLD_Y);
            let mut y: usize = 0;
            while y < WORLD_Y
                invariant
                    y <= WORLD_Y,
                    col.len() == y,
                    forall|j: int| 0 <= j < y ==> #[trigger] col[j] == Cell::bare(),
                decreases WORLD_Y - y,
            {
                col.push(Cell::default());
                y = y + 1;
            }
            assert(col@ =~= WorldModel::empty().cells[x as int]);
            cells.push(col);
            x = x + 1;
        }
        let w = Self {
            cells,
            bugs: HashMap::new(),
            bug_positions: HashMap::new(),
            next_bug_id: 1,
            current_tick: 0,
        };
        assert(w@.cells =~= WorldModel::empty().cells);
        assert(w@.bugs =~= WorldModel::empty().bugs);
        w
    }

    /// The cell that `pos` wraps to.
    pub fn get_cell(&self, pos: Pos) -> (r: Option<&Cell>)
        ensures
            r is Some <==> self@.has_cell(pos),
            r is Some ==> *r->0 == self@.cell(pos),
            self@.sized() ==> r is Some,
    {
        let p = pos.wrap();
        let x: usize = p.x as usize;
        let y: usize = p.y as usize;
        proof {
            if self@.sized() {
                assert(self@.cells[x as int].len() == WORLD_Y);
            }
        }
        if x < self.cells.len() && y < self.cells[x].len() {
            Some(&self.cells[x][y])
        } else {
            None
        }
    }

    /// The cell that `pos` wraps to, for writing.
    pub fn get_cell_mut(&mut self, pos: Pos) -> (r: Option<&mut Cell>)
        ensures
            r is Some <==> old(self)@.has_cell(pos),
            old(self)@.sized() ==> r is Some,
            match r {
                Some(c) => *c == old(self)@.cell(pos) && final(self)@ == old(self)@.with_cell(
                    pos,
                    *final(c),
                ),
                None => final(self)@ == old(self)@,
            },
    {
        let p = pos.wrap();
        let x: usize = p.x as usize;
        let y: usize = p.y as usize;
        proof {
            if self@.sized() {
                assert(self@.cells[x as int].len() == WORLD_Y);
            }
        }
        if x < self.cells.len() && y < self.cells[x].len() {
            proof {
                let before = *self;
                assert forall|after: World, c: Cell|
                    #![trigger after@, before@.with_cell(pos, c)]
                    after.cells.len() == before.cells.len() && after.cells@
                        == before.cells@.update(x as int, after.cells[x as int])
                        && after.cells[x as int]@ == before.cells[x as int]@.update(y as int, c)
                        && after.bugs == before.bugs && after.bug_positions
                        == before.bug_positions && after.next_bug_id == before.next_bug_id
                        && after.current_tick == before.current_tick implies after@
                    == before@.with_cell(pos, c) by {
                    assert(after@.cells =~= before@.with_cell(pos, c).cells);
                    assert(after@.bugs =~= before@.bugs);
                }
            }
            Some(&mut self.cells[x][y])
        } else {
            None
        }
    }

    /// The bug on the cell that `pos` wraps to.
    pub fn get_bug_at(&self, pos: Pos) -> (r: Option<&Bug>)
        ensures
            r is Some <==> self@.has_bug_at(pos),
            r is Some ==> r->0@ == self@.bugs[self@.occupant(pos)],
    {
        let p = pos.wrap();
        let k = key_of(p);
        match self.bug_positions.get(&k) {
            Some(id) => self.bugs.get(id),
            None => None,
        }
    }

    /// The bug on the cell that `pos` wraps to, for writing.
    pub fn get_bug_at_mut(&mut self, pos: Pos) -> (r: Option<&mut Bug>)
        ensures
            r is Some <==> old(self)@.has_bug_at(pos),
            match r {
                Some(b) => b@ == old(self)@.bugs[old(self)@.occupant(pos)] && final(self)@ == old(self)@.with_bug(old(self)@.occupant(pos), final(b)@),
                None => final(self)@ == old(self)@,
            },
    {
        let p = pos.wrap();
        let k = key_of(p);
        let found: Option<u64> = match self.bug_positions.get(&k) {
            Some(id) => Some(*id),
            None => None,
        };
        match found {
            Some(id) => self.get_bug_mut(id),
            None => None,
        }
    }

    /// The bug with identifier `id`.
    pub fn get_bug(&self, id: u64) -> (r: Option<&Bug>)
        ensures
            r is Some <==> self@.bugs.contains_key(id),
            r is Some ==> r->0@ == self@.bugs[id],
    {
        self.bugs.get(&id)
    }

    /// The bug with identifier `id`, for writing.
    pub fn get_bug_mut(&mut self, id: u64) -> (r: Option<&mut Bug>)
        ensures
            r is Some <==> old(self)@.bugs.contains_key(id),
            match r {
                Some(b) => b@ == old(self)@.bugs[id] && final(self)@ == old(self)@.with_bug(
                    id,
                    final(b)@,
                ),
                None => final(self)@ == old(self)@,
            },
    {
        proof {
            let before = *self;
            assert forall|after: World, b: Bug|
                #![trigger after@, before@.with_bug(id, b@)]
                after.bugs@ == before.bugs@.insert(id, b) && after.cells == before.cells
                    && after.bug_positions == before.bug_positions && after.next_bug_id
                    == before.next_bug_id && after.current_tick == before.current_tick implies after@
                == before@.with_bug(id, b@) by {
                assert(after@.bugs =~= before@.with_bug(id, b@).bugs);
            }
            assert forall|after: World|
                after.bugs@ == before.bugs@ && after.cells == before.cells && after.bug_positions
                    == before.bug_positions && after.next_bug_id == before.next_bug_id
                    && after.current_tick == before.current_tick implies #[trigger] after@
                == before@ by {
                assert(after@.bugs =~= before@.bugs);
            }
        }
        bug_entry(&mut self.bugs, id)
    }

    /// Registers a bug under the next identifier, on the cell its position
    /// wraps to, and returns that identifier.
    pub fn add_bug(&mut self, bug: Bug) -> (id: u64)
        requires
            old(self).next_bug_id < u64::MAX,
        ensures
            id == old(self).next_bug_id,
            final(self)@ == old(self)@.placed(bug@),
            old(self)@.wf() && bug@.wf() && !old(self)@.occupied(bug.current_state.pos)
                ==> final(self)@.wf(),
    {
        let ghost before = self@;
        let ghost given = bug@;
        let id = self.next_bug_id;
        self.next_bug_id = self.next_bug_id + 1;
        let mut bug = bug;
        bug.id = id;
        let pos = bug.current_state.pos.wrap();
        bug.current_state.pos = pos;
        self.bug_positions.insert(key_of(pos), id);
        self.bugs.insert(id, bug);
        proof {
            assert(self@.bugs =~= before.placed(given).bugs);
            if before.wf() && given.wf() && !before.occupied(given.current_state.pos) {
                lemma_placed_wf(before, given);
            }
        }
        id
    }

    /// Removes a bug from the registry and from the index.
    pub fn remove_bug(&mut self, id: u64) -> (r: Option<Bug>)
        ensures
            r is Some <==> old(self)@.bugs.contains_key(id),
            r is Some ==> r->0@ == old(self)@.bugs[id],
            final(self)@ == old(self)@.without(id),
            old(self)@.wf() ==> final(self)@.wf(),
    {
        let ghost before = self@;
        match self.bugs.remove(&id) {
            Some(bug) => {
                let pos = bug.current_state.pos.wrap();
                self.bug_positions.remove(&key_of(pos));
                proof {
                    assert(self@.bugs =~= before.without(id).bugs);
                    if before.wf() {
                        lemma_without_wf(before, id);
                    }
                }
                Some(bug)
            },
            None => {
                proof {
                    assert(self@.bugs =~= before.bugs);
                }
                None
            },
        }
    }

    /// Moves a bug to the cell that `new_pos` wraps to. Nothing changes, and
    /// the answer is `false`, if that cell is occupied or there is no such bug.
    pub fn move_bug(&mut self, id: u64, new_pos: Pos) -> (moved: bool)
        ensures
            moved == old(self)@.can_move(id, new_pos),
            final(self)@ == if moved {
                old(self)@.moved(id, new_pos)
            } else {
                old(self)@
            },
            old(self)@.wf() ==> final(self)@.wf(),
    {
        let ghost before = self@;
        let new_pos = new_pos.wrap();
        let k = key_of(new_pos);
        if self.bug_positions.contains_key(&k) {
            proof {
                assert(self@.bugs =~= before.bugs);
            }
            return false;
        }
        match bug_entry(&mut self.bugs, id) {
            Some(bug) => {
                let old_pos = bug.current_state.pos.wrap();
                bug.current_state.pos = new_pos;
                self.bug_positions.remove(&key_of(old_pos));
                self.bug_positions.insert(k, id);
                proof {
                    assert(self@.bugs =~= before.moved(id, new_pos).bugs);
                    if before.wf() {
                        lemma_moved_wf(before, id, new_pos);
                    }
                }
                true
            },
            None => {
                proof {
                    assert(self@.bugs =~= before.bugs);
                }
                false
            },
        }
    }

    /// The number of living bugs.
    pub fn bug_count(&self) -> (n: usize)
        ensures
            n == self@.bugs.len(),
    {
        proof {
            assert(self@.bugs.dom() =~= self.bugs@.dom());
        }
        self.bugs.len()
    }

    /// The identifiers of all bugs, in ascending order.
    pub fn bug_ids(&self) -> (ids: Vec<u64>)
        ensures
            ascending(ids@),
            ids@.to_set() == self@.bugs.dom(),
    {
        let mut ids: Vec<u64> = Vec::new();
        for k in it: self.bugs.keys()
            invariant
                ids@ == it.seq().unref().take(it.index()),
        {
            ids.push(*k);
        }
        proof {
            let all = vstd::std_specs::hash::spec_keys_iter(&self.bugs).remaining();
            assert(all.unref().to_set() == self.bugs@.dom());
            assert(ids@ =~= all.unref());
            assert(ids@.no_duplicates());
            assert(self@.bugs.dom() =~= self.bugs@.dom());
        }
        sort_distinct(&mut ids);
        ids
    }

    /// The food in all cells.
    pub fn total_food(&self) -> (total: i64)
        requires
            self@.sized(),
        ensures
            total == self@.total_food(),
    {
        let mut total: i64 = 0;
        let mut x: usize = 0;
        while x < WORLD_X
            invariant
                x <= WORLD_X,
                self@.sized(),
                total == grid_food(self@.cells, x as nat),
                -2147483648000 * x <= total <= 2147483647000 * x,
            decreases WORLD_X - x,
        {
            assert(self@.cells[x as int].len() == WORLD_Y);
            let col = &self.cells[x];
            let mut sum: i64 = 0;
            let mut y: usize = 0;
            while y < WORLD_Y
                invariant
                    y <= WORLD_Y,
                    col.len() == WORLD_Y,
                    sum == column_food(col@, y as nat),
                    -0x8000_0000 * y <= sum <= 0x7fff_ffff * y,
                decreases WORLD_Y - y,
            {
                sum = sum + col[y].food as i64;
                y = y + 1;
            }
            total = total + sum;
            x = x + 1;
        }
        total
    }

    /// The weight of all bugs, held to the `i64` range.
    pub fn total_bug_mass(&self) -> (total: i64)
        ensures
            total == clamp_i64(self@.total_mass()),
    {
        let ids = self.bug_ids();
        let ghost dom = self@.bugs.dom();
        let ghost f = add_mass(self@.bugs);
        let mut acc: i128 = 0;
        let mut i: usize = 0;
        while i < ids.len()
            invariant
                i <= ids.len(),
                ascending(ids@),
                ids@.to_set() == dom,
                dom == self@.bugs.dom(),
                f == add_mass(self@.bugs),
                acc == fold_ids(dom, folded_to(ids@, i as int), 0int, f),
                -0x8000_0000 * i <= acc <= 0x7fff_ffff * i,
            decreases ids.len() - i,
        {
            let id: u64 = ids[i];
            proof {
                lemma_fold_next(dom, ids@, i as int, 0int, f);
            }
            match self.get_bug(id) {
                Some(b) => {
                    acc = acc + b.current_state.weight as i128;
                },
                None => {},
            }
            i = i + 1;
        }
        proof {
            lemma_fold_done(dom, ids@, 0int, f);
        }
        to_i64(acc)
    }

    /// The cached gene counts of all bugs.
    fn total_genes(&self) -> (total: u128)
        ensures
            total == self@.total_genes(),
            total <= 0xffff * 0xffff_ffff_ffff_ffff,
    {
        let ids = self.bug_ids();
        let ghost dom = self@.bugs.dom();
        let ghost f = add_genes(self@.bugs);
        let mut acc: u128 = 0;
        let mut i: usize = 0;
        while i < ids.len()
            invariant
                i <= ids.len(),
                ascending(ids@),
                ids@.to_set() == dom,
                dom == self@.bugs.dom(),
                f == add_genes(self@.bugs),
                acc == fold_ids(dom, folded_to(ids@, i as int), 0int, f),
                acc <= 0xffff * i,
            decreases ids.len() - i,
        {
            let id: u64 = ids[i];
            proof {
                lemma_fold_next(dom, ids@, i as int, 0int, f);
            }
            match self.get_bug(id) {
                Some(b) => {
                    acc = acc + b.brain.n_genes as u128;
                },
                None => {},
            }
            i = i + 1;
        }
        proof {
            lemma_fold_done(dom, ids@, 0int, f);
        }
        acc
    }

    /// The statistics of the world; the event counters are left at 0 for the
    /// simulation to fill.
    pub fn stats(&self) -> (s: WorldStats)
        requires
            self@.sized(),
        ensures
            s == self@.stats(),
    {
        let bug_count: usize = self.bug_count();
        if bug_count == 0 {
            return WorldStats::default();
        }
        let total_food: i64 = self.total_food();
        let total_mass: i64 = self.total_bug_mass();
        let total_genes: u128 = self.total_genes();
        proof {
            lemma_grid_food_bound(self@.cells, WORLD_X as nat);
        }
        WorldStats {
            tick: self.current_tick,
            bug_count,
            total_food,
            total_bug_mass: total_mass,
            avg_bug_mass: (total_mass as i128 / bug_count as i128) as i64,
            avg_genes: to_i64((total_genes * 1024 / bug_count as u128) as i128),
            avg_food_per_cell: (total_food / (WORLD_X * WORLD_Y) as i64) as i32,
            births: 0,
            starvations: 0,
            collisions: 0,
            drownings: 0,
            movements: 0,
        }
    }

    /// Sets the terrain height of the cell that `pos` wraps to, and floods
    /// it where it lies low.
    pub fn set_terrain(&mut self, pos: Pos, height: i32)
        requires
            old(self)@.sized(),
        ensures
            final(self)@ == old(self)@.with_cell(pos, shaped(old(self)@.cell(pos), height)),
            old(self)@.wf() ==> final(self)@.wf(),
    {
        let ghost before = self@;
        match self.get_cell_mut(pos) {
            Some(cell) => {
                cell.terrain_height = height;
                if height < -INIT_DEPTH {
                    cell.water = if height > -(DROWN_DEPTH * 2) {
                        -height
                    } else {
                        DROWN_DEPTH * 2
                    };
                }
            },
            None => {},
        }
        proof {
            lemma_with_cell_wf(before, pos, shaped(before.cell(pos), height));
        }
    }
}

impl World {
    /// Whether the grid has the dimensions of the world.
    fn is_sized(&self) -> (ok: bool)
        ensures
            ok == self@.sized(),
    {
        proof {
            lemma_cells_view(self);
        }
        if self.cells.len() != WORLD_X {
            return false;
        }
        let mut x: usize = 0;
        while x < WORLD_X
            invariant
                x <= WORLD_X,
                self.cells.len() == WORLD_X,
                self@.cells.len() == WORLD_X,
                forall|cx: int| 0 <= cx < x ==> (#[trigger] self@.cells[cx]).len() == WORLD_Y,
            decreases WORLD_X - x,
        {
            if self.cells[x].len() != WORLD_Y {
                assert(self@.cells[x as int].len() != WORLD_Y);
                return false;
            }
            x = x + 1;
        }
        true
    }

    /// Whether bug `id` is registered as the invariant of the world asks.
    fn is_settled(&self, id: u64) -> (ok: bool)
        requires
            self@.bugs.contains_key(id),
        ensures
            ok == self@.settled(id),
    {
        match self.get_bug(id) {
            Some(bug) => {
                let pos = bug.current_state.pos;
                let facing: i8 = bug.current_state.facing;
                if bug.id != id || !bug.brain.is_well_formed() || facing < -2
                    || facing > 3 || bug.position_history.len() != POS_HISTORY || pos.x < 0
                    || pos.x >= WORLD_X as i32 || pos.y < 0 || pos.y >= WORLD_Y as i32 || id
                    >= self.next_bug_id {
                    return false;
                }
                match self.bug_positions.get(&key_of(pos)) {
                    Some(filed) => *filed == id,
                    None => false,
                }
            },
            None => false,
        }
    }

    /// Whether the world is well-formed: the grid is whole and the spatial
    /// index is exactly the inverse of the bugs' positions.
    pub fn is_well_formed(&self) -> (ok: bool)
        ensures
            ok == self@.wf(),
    {
        if !self.is_sized() {
            return false;
        }
        let ids = self.bug_ids();
        let mut i: usize = 0;
        while i < ids.len()
            invariant
                i <= ids.len(),
                ids@.to_set() == self@.bugs.dom(),
                forall|k: int| 0 <= k < i ==> self@.settled(#[trigger] ids@[k]),
            decreases ids.len() - i,
        {
            assert(ids@.to_set().contains(ids@[i as int]));
            if !self.is_settled(ids[i]) {
                return false;
            }
            i = i + 1;
        }
        assert forall|id: u64| #[trigger] self@.bugs.contains_key(id) implies self@.settled(id) by {
            assert(ids@.to_set().contains(id));
            let k = choose|k: int| 0 <= k < ids@.len() && ids@[k] == id;
            assert(self@.settled(ids@[k]));
        }
        let mut keys: Vec<u64> = Vec::new();
        for k in it: self.bug_positions.keys()
            invariant
                keys@ == it.seq().unref().take(it.index()),
        {
            keys.push(*k);
        }
        proof {
            let all = vstd::std_specs::hash::spec_keys_iter(&self.bug_positions).remaining();
            assert(all.unref().to_set() == self.bug_positions@.dom());
            assert(keys@ =~= all.unref());
        }
        let mut j: usize = 0;
        while j < keys.len()
            invariant
                j <= keys.len(),
                keys@.to_set() == self@.index.dom(),
                forall|id: u64| #[trigger] self@.bugs.contains_key(id) ==> self@.settled(id),
                forall|k: int|
                    0 <= k < j ==> self@.bugs.contains_key(self@.index[#[trigger] keys@[k]])
                        && cell_key(self@.bugs[self@.index[keys@[k]]].current_state.pos)
                        == keys@[k],
            decreases keys.len() - j,
        {
            let key: u64 = keys[j];
            assert(keys@.to_set().contains(key));
            let filed: bool = match self.bug_positions.get(&key) {
                Some(id) => match self.get_bug(*id) {
                    Some(bug) => {
                        assert(self@.settled(*id));
                        key_of(bug.current_state.pos) == key
                    },
                    None => false,
                },
                None => false,
            };
            if !filed {
                return false;
            }
            j = j + 1;
        }
        assert forall|key: u64| #[trigger] self@.index.contains_key(key) implies self@.bugs.contains_key(
            self@.index[key],
        ) && cell_key(self@.bugs[self@.index[key]].current_state.pos) == key by {
            assert(keys@.to_set().contains(key));
            let k = choose|k: int| 0 <= k < keys@.len() && keys@[k] == key;
            assert(self@.bugs.contains_key(self@.index[keys@[k]]));
        }
        true
    }
}

impl Clone for World {
    fn clone(&self) -> (w: Self)
        ensures
            w@ == self@,
    {
        let w = Self {
            cells: self.cells.clone(),
            bugs: self.bugs.clone(),
            bug_positions: self.bug_positions.clone(),
            next_bug_id: self.next_bug_id,
            current_tick: self.current_tick,
        };
        proof {
            assert forall|x: int| 0 <= x < self.cells.len() implies #[trigger] w.cells[x]@
                == self.cells[x]@ by {
                assert(w.cells[x]@ =~= self.cells[x]@);
            }
            assert(w@.cells =~= self@.cells);
            assert(w@.bugs =~= self@.bugs);
        }
        w
    }
}

impl Default for World {
    fn default() -> (w: Self)
        ensures
            w@ == WorldModel::empty(),
    {
        Self::new()
    }
}

} // verus!
