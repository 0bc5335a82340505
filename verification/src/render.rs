use crate::bug::{Bug, BugModel, Pos};
use crate::constants::{
    ACT_DEFEND, ACT_DIVIDE, ACT_EAT, ACT_MATE, ACT_MOVE, ACT_SLEEP, ACT_TURN_CCW, ACT_TURN_CW,
    ETHNIC_DUR, FOOD_CAP, LEFTBAR, N_ACTIONS, POS_HISTORY, RENDER_HEIGHT, RENDER_WIDTH, WORLD_X,
    WORLD_Y,
};
use crate::fixed::tdiv;
use crate::gene::limit;
use crate::ids::{ascending, fold_ids, folded_to, id_limit, lemma_fold_done, lemma_fold_next};
use crate::world::{World, WorldModel};
use vstd::prelude::*;

verus! {

/// A colour of three channels.
#[derive(Debug, Clone, Copy, PartialEq, Eq, Structural)]
pub struct Color {
    pub r: u8,
    pub g: u8,
    pub b: u8,
}

impl Color {
    pub fn new(r: u8, g: u8, b: u8) -> (c: Self)
        ensures
            c == (Color { r, g, b }),
    {
        Self { r, g, b }
    }

    pub fn rgb(r: u8, g: u8, b: u8) -> (c: Self)
        ensures
            c == (Color { r, g, b }),
    {
        Self { r, g, b }
    }

    pub fn black() -> (c: Self)
        ensures
            c == (Color { r: 0, g: 0, b: 0 }),
    {
        Self { r: 0, g: 0, b: 0 }
    }

    pub fn white() -> (c: Self)
        ensures
            c == (Color { r: 255, g: 255, b: 255 }),
    {
        Self { r: 255, g: 255, b: 255 }
    }

    pub fn gray() -> (c: Self)
        ensures
            c == (Color { r: 128, g: 128, b: 128 }),
    {
        Self { r: 128, g: 128, b: 128 }
    }
}

/// What the map shows.
#[derive(Debug, Clone, Copy, PartialEq, Eq, Structural)]
pub enum VisMode {
    /// Bugs and their trails, in lineage colours.
    BugMap,
    /// Food, water and bugs.
    EnvironmentMap,
}

/// The number of bytes of a frame of the map.
pub open spec fn frame_len() -> nat {
    (RENDER_WIDTH * RENDER_HEIGHT * 4) as nat
}

/// The offset of the first byte of pixel `(x, y)` in a buffer of rows of
/// `width` pixels.
#[verifier::opaque]
pub open spec fn pixel_offset(x: int, y: int, width: int) -> int {
    (y * width + x) * 4
}

/// The four bytes of pixel `(x, y)` of a buffer of rows of `width` pixels.
pub open spec fn pixel(buffer: Seq<u8>, x: int, y: int, width: int) -> (u8, u8, u8, u8) {
    let at = pixel_offset(x, y, width);
    (buffer[at], buffer[at + 1], buffer[at + 2], buffer[at + 3])
}

/// The four bytes of an opaque pixel of colour `c`.
pub open spec fn solid(c: Color) -> (u8, u8, u8, u8) {
    (c.r, c.g, c.b, 255u8)
}

/// The four bytes of a pixel over which `c` was drawn, if it is a colour.
pub open spec fn over(base: (u8, u8, u8, u8), c: Option<Color>) -> (u8, u8, u8, u8) {
    match c {
        Some(c) => solid(c),
        None => base,
    }
}

/// The four bytes of a pixel on which nothing was drawn.
pub open spec fn blank() -> (u8, u8, u8, u8) {
    (0u8, 0u8, 0u8, 0u8)
}

/// The buffer with the pixel at `at` set to `c`, opaque.
pub open spec fn painted(buffer: Seq<u8>, at: int, c: Color) -> Seq<u8> {
    buffer.update(at, c.r).update(at + 1, c.g).update(at + 2, c.b).update(at + 3, 255u8)
}

/// Where a pixel of a buffer of `height` rows of `width` pixels lies.
pub proof fn lemma_pixel_offset(x: int, y: int, width: int, height: int)
    requires
        0 <= x < width,
        0 <= y < height,
    ensures
        pixel_offset(x, y, width) == (y * width + x) * 4,
        0 <= pixel_offset(x, y, width),
        pixel_offset(x, y, width) + 3 < width * height * 4,
{
    reveal(pixel_offset);
    assert(0 <= y * width && y * width + width <= height * width) by (nonlinear_arith)
        requires
            0 <= y < height,
            0 < width,
    ;
    assert(height * width * 4 == width * height * 4) by (nonlinear_arith);
}

/// Painting a pixel shows its colour there and leaves every other pixel
/// as it was.
pub proof fn lemma_painted(
    buffer: Seq<u8>,
    x: int,
    y: int,
    width: int,
    height: int,
    c: Color,
    x2: int,
    y2: int,
)
    requires
        0 <= x < width,
        0 <= y < height,
        0 <= x2 < width,
        0 <= y2 < height,
        buffer.len() == width * height * 4,
    ensures
        painted(buffer, pixel_offset(x, y, width), c).len() == buffer.len(),
        pixel(painted(buffer, pixel_offset(x, y, width), c), x, y, width) == solid(c),
        (x, y) != (x2, y2) ==> pixel(
            painted(buffer, pixel_offset(x, y, width), c),
            x2,
            y2,
            width,
        ) == pixel(buffer, x2, y2, width),
{
    lemma_pixel_offset(x, y, width, height);
    lemma_pixel_offset(x2, y2, width, height);
    if (x, y) != (x2, y2) {
        assert(y * width + x != y2 * width + x2) by (nonlinear_arith)
            requires
                0 <= x < width,
                0 <= x2 < width,
                (x, y) != (x2, y2),
        ;
    }
}

/// Sets the pixel at `at` to `color`, opaque.
pub fn put_pixel(buffer: &mut [u8], at: usize, color: Color)
    requires
        at + 3 < old(buffer)@.len(),
    ensures
        final(buffer)@ == painted(old(buffer)@, at as int, color),
{
    buffer[at] = color.r;
    buffer[at + 1] = color.g;
    buffer[at + 2] = color.b;
    buffer[at + 3] = 255;
}

/// Sets pixel `(x, y)` of a buffer of `height` rows of `width` pixels.
pub fn paint(buffer: &mut [u8], width: usize, height: usize, x: usize, y: usize, color: Color)
    requires
        x < width,
        y < height,
        old(buffer)@.len() == width * height * 4,
    ensures
        final(buffer)@.len() == old(buffer)@.len(),
        forall|px: int, py: int|
            0 <= px < width && 0 <= py < height ==> #[trigger] pixel(
                final(buffer)@,
                px,
                py,
                width as int,
            ) == if px == x && py == y {
                solid(color)
            } else {
                pixel(old(buffer)@, px, py, width as int)
            },
{
    proof {
        lemma_pixel_offset(x as int, y as int, width as int, height as int);
        assert(0 <= y * width && y * width + x < width * height) by (nonlinear_arith)
            requires
                0 <= x < width,
                0 <= y < height,
        ;
        assert((y * width + x) * 4 + 3 < width * height * 4);
        assert(y * width <= (y * width + x) * 4);
    }
    let n: usize = buffer.len();
    assert((y * width + x) * 4 + 3 < n);
    let at: usize = (y * width + x) * 4;
    put_pixel(buffer, at, color);
    proof {
        assert forall|px: int, py: int| 0 <= px < width && 0 <= py < height implies #[trigger] pixel(
            buffer@,
            px,
            py,
            width as int,
        ) == if px == x && py == y {
            solid(color)
        } else {
            pixel(old(buffer)@, px, py, width as int)
        } by {
            lemma_painted(
                old(buffer)@,
                x as int,
                y as int,
                width as int,
                height as int,
                color,
                px,
                py,
            );
        }
    }
}

/// Sets the pixels of row `y` from column `from` up to, not including,
/// column `to`.
pub fn paint_run(
    buffer: &mut [u8],
    width: usize,
    height: usize,
    y: usize,
    from: usize,
    to: usize,
    color: Color,
)
    requires
        y < height,
        to <= width,
        old(buffer)@.len() == width * height * 4,
    ensures
        final(buffer)@.len() == old(buffer)@.len(),
        forall|px: int, py: int|
            0 <= px < width && 0 <= py < height ==> #[trigger] pixel(
                final(buffer)@,
                px,
                py,
                width as int,
            ) == if py == y && from <= px < to {
                solid(color)
            } else {
                pixel(old(buffer)@, px, py, width as int)
            },
{
    let mut x: usize = from;
    while x < to
        invariant
            y < height,
            to <= width,
            from <= x <= to || (x == from && to <= from),
            buffer@.len() == width * height * 4,
            buffer@.len() == old(buffer)@.len(),
            forall|px: int, py: int|
                0 <= px < width && 0 <= py < height ==> #[trigger] pixel(
                    buffer@,
                    px,
                    py,
                    width as int,
                ) == if py == y && from <= px < x {
                    solid(color)
                } else {
                    pixel(old(buffer)@, px, py, width as int)
                },
        decreases to - x,
    {
        let ghost before = buffer@;
        paint(buffer, width, height, x, y, color);
        proof {
            assert forall|px: int, py: int| 0 <= px < width && 0 <= py < height implies #[trigger] pixel(
                buffer@,
                px,
                py,
                width as int,
            ) == if py == y && from <= px < x + 1 {
                solid(color)
            } else {
                pixel(old(buffer)@, px, py, width as int)
            } by {
                assert(pixel(before, px, py, width as int) == if py == y && from <= px < x {
                    solid(color)
                } else {
                    pixel(old(buffer)@, px, py, width as int)
                });
            }
        }
        x = x + 1;
    }
}

/// Sets the pixels of column `x` from row `from` up to, not including, row
/// `to`.
pub fn paint_column(
    buffer: &mut [u8],
    width: usize,
    height: usize,
    x: usize,
    from: usize,
    to: usize,
    color: Color,
)
    requires
        x < width,
        to <= height,
        old(buffer)@.len() == width * height * 4,
    ensures
        final(buffer)@.len() == old(buffer)@.len(),
        forall|px: int, py: int|
            0 <= px < width && 0 <= py < height ==> #[trigger] pixel(
                final(buffer)@,
                px,
                py,
                width as int,
            ) == if px == x && from <= py < to {
                solid(color)
            } else {
                pixel(old(buffer)@, px, py, width as int)
            },
{
    let mut y: usize = from;
    while y < to
        invariant
            x < width,
            to <= height,
            from <= y <= to || (y == from && to <= from),
            buffer@.len() == width * height * 4,
            buffer@.len() == old(buffer)@.len(),
            forall|px: int, py: int|
                0 <= px < width && 0 <= py < height ==> #[trigger] pixel(
                    buffer@,
                    px,
                    py,
                    width as int,
                ) == if px == x && from <= py < y {
                    solid(color)
                } else {
                    pixel(old(buffer)@, px, py, width as int)
                },
        decreases to - y,
    {
        let ghost before = buffer@;
        paint(buffer, width, height, x, y, color);
        proof {
            assert forall|px: int, py: int| 0 <= px < width && 0 <= py < height implies #[trigger] pixel(
                buffer@,
                px,
                py,
                width as int,
            ) == if px == x && from <= py < y + 1 {
                solid(color)
            } else {
                pixel(old(buffer)@, px, py, width as int)
            } by {
                assert(pixel(before, px, py, width as int) == if px == x && from <= py < y {
                    solid(color)
                } else {
                    pixel(old(buffer)@, px, py, width as int)
                });
            }
        }
        y = y + 1;
    }
}

/// Sets every byte of a buffer of `height` rows of `width` pixels to 0.
pub fn clear(buffer: &mut [u8], width: usize, height: usize)
    requires
        old(buffer)@.len() == width * height * 4,
    ensures
        final(buffer)@.len() == old(buffer)@.len(),
        forall|k: int| 0 <= k < final(buffer)@.len() ==> final(buffer)@[k] == 0,
        forall|px: int, py: int|
            0 <= px < width && 0 <= py < height ==> #[trigger] pixel(
                final(buffer)@,
                px,
                py,
                width as int,
            ) == blank(),
{
    let n: usize = buffer.len();
    let mut k: usize = 0;
    while k < n
        invariant
            k <= n,
            n == buffer@.len(),
            buffer@.len() == old(buffer)@.len(),
            forall|j: int| 0 <= j < k ==> buffer@[j] == 0,
        decreases n - k,
    {
        buffer[k] = 0;
        k = k + 1;
    }
    proof {
        assert forall|px: int, py: int| 0 <= px < width && 0 <= py < height implies #[trigger] pixel(
            buffer@,
            px,
            py,
            width as int,
        ) == blank() by {
            lemma_pixel_offset(px, py, width as int, height as int);
        }
    }
}

/// The colour in which an action is drawn.
pub open spec fn colour_of_action(action: usize) -> Color {
    if action == ACT_SLEEP {
        Color { r: 32, g: 32, b: 32 }
    } else if action == ACT_EAT {
        Color { r: 0, g: 255, b: 0 }
    } else if action == ACT_TURN_CW {
        Color { r: 128, g: 128, b: 255 }
    } else if action == ACT_TURN_CCW {
        Color { r: 255, g: 128, b: 128 }
    } else if action == ACT_MOVE {
        Color { r: 255, g: 255, b: 0 }
    } else if action == ACT_MATE {
        Color { r: 255, g: 0, b: 255 }
    } else if action == ACT_DIVIDE {
        Color { r: 0, g: 255, b: 255 }
    } else if action == ACT_DEFEND {
        Color { r: 255, g: 128, b: 0 }
    } else {
        Color { r: 128, g: 128, b: 128 }
    }
}

impl WorldModel {
    /// The colour of cell `(x, y)` on the environment map: a bug is red,
    /// full red unless it was born in the future; an empty cell is green by
    /// its food and blue by its water.
    pub open spec fn env_colour(self, x: int, y: int) -> Color {
        let pos = Pos { x: x as i32, y: y as i32 };
        if self.has_bug_at(pos) {
            let born = self.bugs[self.occupant(pos)].data.birthday;
            Color {
                r: limit(255 + tdiv(self.current_tick - born, 4), 128, 255) as u8,
                g: 0,
                b: 0,
            }
        } else {
            let food = if self.has_cell(pos) {
                self.cell(pos).food
            } else {
                0
            };
            let water = if self.has_cell(pos) {
                self.cell(pos).water
            } else {
                0
            };
            Color {
                r: 0,
                g: limit(tdiv(food * 192, FOOD_CAP as int), 0, 255) as u8,
                b: if water == 0 {
                    0
                } else {
                    limit(water + 64, 0, 255) as u8
                },
            }
        }
    }
}

/// A colour channel of a lineage as entry `i` of a trail shows it: the
/// older the entry, the fainter.
pub open spec fn faded(channel: u8, i: int) -> u8 {
    limit(channel * (POS_HISTORY - i) * 255 / (POS_HISTORY * ETHNIC_DUR), 0, 255) as u8
}

/// The colour of entry `i` of the trail of `bug`.
pub open spec fn trail_entry_colour(bug: BugModel, i: int) -> Color {
    Color {
        r: faded(bug.brain.ethnicity.r, i),
        g: faded(bug.brain.ethnicity.g, i),
        b: faded(bug.brain.ethnicity.b, i),
    }
}

/// The number of entries of a bug's history that are drawn.
pub open spec fn trail_len(bug: BugModel) -> nat {
    if bug.position_history.len() < POS_HISTORY {
        bug.position_history.len()
    } else {
        POS_HISTORY as nat
    }
}

/// The colour that the first `n` entries of the trail of `bug` leave on
/// cell `(x, y)`: that of the last of them that lies there.
pub open spec fn trail_of(bug: BugModel, x: int, y: int, n: nat) -> Option<Color>
    decreases n,
{
    if n == 0 || n > bug.position_history.len() {
        None
    } else if bug.position_history[n - 1].pos.wrapped() == (Pos { x: x as i32, y: y as i32 }) {
        Some(trail_entry_colour(bug, n - 1))
    } else {
        trail_of(bug, x, y, (n - 1) as nat)
    }
}

/// Draws the trail of bug `id` over what earlier bugs left on cell `(x, y)`.
pub open spec fn keep_trail(bugs: Map<u64, BugModel>, x: int, y: int) -> spec_fn(
    Option<Color>,
    u64,
) -> Option<Color> {
    |acc: Option<Color>, id: u64|
        match trail_of(bugs[id], x, y, trail_len(bugs[id])) {
            Some(c) => Some(c),
            None => acc,
        }
}

impl WorldModel {
    /// The action that the bug on cell `(x, y)` last recorded, if there is
    /// a bug and the action is one of those that are drawn.
    pub open spec fn shown_action(self, x: int, y: int) -> Option<usize> {
        let pos = Pos { x: x as i32, y: y as i32 };
        if self.has_bug_at(pos) && self.bugs[self.occupant(pos)].position_history.len() > 0
            && self.bugs[self.occupant(pos)].position_history[0].action < N_ACTIONS {
            Some(self.bugs[self.occupant(pos)].position_history[0].action)
        } else {
            None
        }
    }

    /// The number of cells among the first `n` of row `y` that show action
    /// `a`.
    pub open spec fn row_count(self, y: int, a: usize, n: nat) -> nat
        decreases n,
    {
        if n == 0 {
            0
        } else {
            self.row_count(y, a, (n - 1) as nat) + if self.shown_action(n - 1, y) == Some(a) {
                1nat
            } else {
                0nat
            }
        }
    }

    /// The number of cells among the first `n` of row `y` that show an
    /// action.
    pub open spec fn row_total(self, y: int, n: nat) -> nat
        decreases n,
    {
        if n == 0 {
            0
        } else {
            self.row_total(y, (n - 1) as nat) + if self.shown_action(n - 1, y) is Some {
                1nat
            } else {
                0nat
            }
        }
    }

    /// The width of the bar of action `a` in row `y`: its share of the
    /// activity bar, rounded down.
    pub open spec fn bar_width(self, y: int, a: usize) -> int {
        self.row_count(y, a, WORLD_X as nat) * LEFTBAR / (self.row_total(y, WORLD_X as nat) as int)
    }

    /// The column at which the bar of action `a` starts in row `y`: behind
    /// the bars of the actions before it.
    pub open spec fn bar_start(self, y: int, a: nat) -> int
        decreases a,
    {
        if a == 0 {
            0
        } else {
            self.bar_start(y, (a - 1) as nat) + self.bar_width(y, (a - 1) as usize)
        }
    }

    /// The action among the first `n` whose bar covers column `x` of row
    /// `y`.
    pub open spec fn bar_action(self, x: int, y: int, n: nat) -> Option<usize>
        decreases n,
    {
        if n == 0 {
            None
        } else if self.bar_start(y, (n - 1) as nat) <= x < self.bar_start(y, n) {
            Some((n - 1) as usize)
        } else {
            self.bar_action(x, y, (n - 1) as nat)
        }
    }

    /// The colour of column `x` of the activity bar in row `y`, if a bar
    /// covers it.
    pub open spec fn bar_colour(self, x: int, y: int) -> Option<Color> {
        if self.row_total(y, WORLD_X as nat) == 0 {
            None
        } else {
            match self.bar_action(x, y, N_ACTIONS as nat) {
                Some(a) => Some(colour_of_action(a)),
                None => None,
            }
        }
    }

    /// The colour that the trails leave on cell `(x, y)`: that of the last
    /// entry lying there, the bugs taken in ascending order of identifier
    /// and each trail from its newest entry to its oldest.
    pub open spec fn trail_colour(self, x: int, y: int) -> Option<Color> {
        fold_ids(self.bugs.dom(), id_limit(), None::<Color>, keep_trail(self.bugs, x, y))
    }

    /// The four bytes of pixel `(x, y)` of a frame: left, the activity bar;
    /// right of it, the map in the given mode. A pixel on which nothing is
    /// drawn is blank.
    pub open spec fn frame_pixel(self, mode: VisMode, x: int, y: int) -> (u8, u8, u8, u8) {
        if x < LEFTBAR {
            over(blank(), self.bar_colour(x, y))
        } else {
            match mode {
                VisMode::BugMap => over(blank(), self.trail_colour(x - LEFTBAR, y)),
                VisMode::EnvironmentMap => solid(self.env_colour(x - LEFTBAR, y)),
            }
        }
    }
}

/// In a row no action is shown more often than there are cells.
pub proof fn lemma_row_count(w: WorldModel, y: int, a: usize, n: nat)
    ensures
        w.row_count(y, a, n) <= w.row_total(y, n) <= n,
    decreases n,
{
    if n > 0 {
        lemma_row_count(w, y, a, (n - 1) as nat);
    }
}

/// A colour channel of a lineage as entry `i` of a trail shows it.
fn fade(channel: u8, i: usize) -> (f: u8)
    requires
        i < POS_HISTORY,
    ensures
        f == faded(channel, i as int),
{
    let left: u32 = (POS_HISTORY - i) as u32;
    assert(0 <= channel * left <= 255 * 32) by (nonlinear_arith)
        requires
            0 <= channel <= 255,
            0 <= left <= 32,
    ;
    let lit: u32 = channel as u32 * left;
    assert(channel * (POS_HISTORY - i) * 255 == lit * 255) by (nonlinear_arith)
        requires
            lit == channel * left,
            left == POS_HISTORY - i,
    ;
    let value: u32 = lit * 255 / 3840;
    if value > 255 {
        255
    } else {
        value as u8
    }
}

/// What a visualizer is: the size of its frame and what its map shows.
pub struct VisualizerModel {
    pub width: usize,
    pub height: usize,
    pub mode: VisMode,
}

/// Renders the world into a pixel buffer: the map, and left of it a bar
/// of activity per row.
pub struct Visualizer {
    width: usize,
    height: usize,
    mode: VisMode,
}

impl View for Visualizer {
    type V = VisualizerModel;

    closed spec fn view(&self) -> VisualizerModel {
        VisualizerModel { width: self.width, height: self.height, mode: self.mode }
    }
}

impl Visualizer {
    #[verifier::type_invariant]
    closed spec fn inv(self) -> bool {
        self.width == RENDER_WIDTH && self.height == RENDER_HEIGHT
    }

    pub fn new(mode: VisMode) -> (v: Self)
        ensures
            v@ == (VisualizerModel { width: RENDER_WIDTH, height: RENDER_HEIGHT, mode }),
    {
        Self { width: RENDER_WIDTH, height: RENDER_HEIGHT, mode }
    }

    pub fn width(&self) -> (w: usize)
        ensures
            w == self@.width,
            w == RENDER_WIDTH,
    {
        proof {
            use_type_invariant(self);
        }
        self.width
    }

    pub fn height(&self) -> (h: usize)
        ensures
            h == self@.height,
            h == RENDER_HEIGHT,
    {
        proof {
            use_type_invariant(self);
        }
        self.height
    }

    pub fn set_mode(&mut self, mode: VisMode)
        ensures
            final(self)@ == (VisualizerModel { mode, ..old(self)@ }),
    {
        proof {
            use_type_invariant(&*self);
        }
        self.mode = mode;
    }

    pub fn mode(&self) -> (m: VisMode)
        ensures
            m == self@.mode,
    {
        self.mode
    }

    /// The colour in which an action is drawn.
    pub fn action_color(&self, action: usize) -> (c: Color)
        ensures
            c == colour_of_action(action),
    {
        if action == ACT_SLEEP {
            Color::rgb(32, 32, 32)
        } else if action == ACT_EAT {
            Color::rgb(0, 255, 0)
        } else if action == ACT_TURN_CW {
            Color::rgb(128, 128, 255)
        } else if action == ACT_TURN_CCW {
            Color::rgb(255, 128, 128)
        } else if action == ACT_MOVE {
            Color::rgb(255, 255, 0)
        } else if action == ACT_MATE {
            Color::rgb(255, 0, 255)
        } else if action == ACT_DIVIDE {
            Color::rgb(0, 255, 255)
        } else if action == ACT_DEFEND {
            Color::rgb(255, 128, 0)
        } else {
            Color::gray()
        }
    }

    /// The buffer offset of pixel `(x, y)` of the frame.
    pub fn pixel_index(&self, x: usize, y: usize) -> (r: Option<usize>)
        ensures
            r is Some <==> x < RENDER_WIDTH && y < RENDER_HEIGHT,
            r is Some ==> r->0 == pixel_offset(x as int, y as int, RENDER_WIDTH as int) && r->0 + 3
                < frame_len(),
    {
        proof {
            use_type_invariant(self);
            if x < RENDER_WIDTH && y < RENDER_HEIGHT {
                lemma_pixel_offset(x as int, y as int, RENDER_WIDTH as int, RENDER_HEIGHT as int);
            }
        }
        if x < self.width && y < self.height {
            Some((y * self.width + x) * 4)
        } else {
            None
        }
    }

    /// The buffer offset of the pixel of a cell of the world, which lies
    /// right of the activity bar.
    pub fn pixel_index_world(&self, pos: Pos) -> (r: Option<usize>)
        ensures
            r is Some <==> pos.in_world(),
            r is Some ==> r->0 == pixel_offset(pos.x + LEFTBAR, pos.y as int, RENDER_WIDTH as int)
                && r->0 + 3 < frame_len(),
    {
        if pos.x < 0 || pos.y < 0 || pos.x >= WORLD_X as i32 {
            return None;
        }
        self.pixel_index(pos.x as usize + LEFTBAR, pos.y as usize)
    }

    /// Draws the environment map: every cell of the world in its colour,
    /// right of the activity bar, which is left as it is.
    pub fn render_environment_map(&self, world: &World, buffer: &mut [u8])
        requires
            old(buffer)@.len() == frame_len(),
        ensures
            final(buffer)@.len() == frame_len(),
            forall|px: int, py: int|
                0 <= px < RENDER_WIDTH && 0 <= py < RENDER_HEIGHT ==> #[trigger] pixel(
                    final(buffer)@,
                    px,
                    py,
                    RENDER_WIDTH as int,
                ) == if px < LEFTBAR {
                    pixel(old(buffer)@, px, py, RENDER_WIDTH as int)
                } else {
                    solid(world@.env_colour(px - LEFTBAR, py))
                },
    {
        let mut n: usize = 0;
        while n < WORLD_X * WORLD_Y
            invariant
                n <= WORLD_X * WORLD_Y,
                buffer@.len() == frame_len(),
                forall|px: int, py: int|
                    0 <= px < RENDER_WIDTH && 0 <= py < RENDER_HEIGHT ==> #[trigger] pixel(
                        buffer@,
                        px,
                        py,
                        RENDER_WIDTH as int,
                    ) == if px < LEFTBAR || (px - LEFTBAR) * WORLD_Y + py >= n {
                        pixel(old(buffer)@, px, py, RENDER_WIDTH as int)
                    } else {
                        solid(world@.env_colour(px - LEFTBAR, py))
                    },
            decreases WORLD_X * WORLD_Y - n,
        {
            let x: usize = n / WORLD_Y;
            let y: usize = n % WORLD_Y;
            let colour = self.environment_colour(world, x, y);
            paint(buffer, RENDER_WIDTH, RENDER_HEIGHT, x + LEFTBAR, y, colour);
            n = n + 1;
        }
    }

    /// Counts, for each action, the cells of row `y` that show it.
    fn count_row(&self, world: &World, y: usize) -> (r: (Vec<u32>, u32))
        requires
            y < WORLD_Y,
        ensures
            r.0@.len() == N_ACTIONS,
            forall|a: int| 0 <= a < N_ACTIONS ==> #[trigger] r.0@[a] == world@.row_count(
                y as int,
                a as usize,
                WORLD_X as nat,
            ),
            r.1 == world@.row_total(y as int, WORLD_X as nat),
    {
        let mut counts: Vec<u32> = vec![0u32; N_ACTIONS];
        let mut total: u32 = 0;
        let mut x: usize = 0;
        while x < WORLD_X
            invariant
                x <= WORLD_X,
                y < WORLD_Y,
                counts@.len() == N_ACTIONS,
                forall|a: int| 0 <= a < N_ACTIONS ==> #[trigger] counts@[a] == world@.row_count(
                    y as int,
                    a as usize,
                    x as nat,
                ),
                total == world@.row_total(y as int, x as nat),
            decreases WORLD_X - x,
        {
            let pos = Pos::new(x as i32, y as i32);
            let shown: Option<usize> = match world.get_bug_at(pos) {
                Some(bug) => {
                    if bug.position_history.len() > 0 && bug.position_history[0].action < N_ACTIONS {
                        Some(bug.position_history[0].action)
                    } else {
                        None
                    }
                },
                None => None,
            };
            assert(shown == world@.shown_action(x as int, y as int));
            match shown {
                Some(action) => {
                    proof {
                        lemma_row_count(world@, y as int, action, x as nat);
                    }
                    let so_far: u32 = counts[action];
                    counts.set(action, so_far + 1);
                    total = total + 1;
                },
                None => {},
            }
            x = x + 1;
        }
        (counts, total)
    }

    /// Draws the activity bar of row `y`.
    fn render_bar(&self, world: &World, y: usize, buffer: &mut [u8])
        requires
            y < WORLD_Y,
            old(buffer)@.len() == frame_len(),
        ensures
            final(buffer)@.len() == frame_len(),
            forall|px: int, py: int|
                0 <= px < RENDER_WIDTH && 0 <= py < RENDER_HEIGHT ==> #[trigger] pixel(
                    final(buffer)@,
                    px,
                    py,
                    RENDER_WIDTH as int,
                ) == if px < LEFTBAR && py == y {
                    over(pixel(old(buffer)@, px, py, RENDER_WIDTH as int), world@.bar_colour(px, py))
                } else {
                    pixel(old(buffer)@, px, py, RENDER_WIDTH as int)
                },
    {
        let (counts, total) = self.count_row(world, y);
        if total == 0 {
            return ;
        }
        let mut x_offset: usize = 0;
        let mut action: usize = 0;
        while action < N_ACTIONS
            invariant
                action <= N_ACTIONS,
                y < WORLD_Y,
                total > 0,
                total == world@.row_total(y as int, WORLD_X as nat),
                counts@.len() == N_ACTIONS,
                forall|a: int| 0 <= a < N_ACTIONS ==> #[trigger] counts@[a] == world@.row_count(
                    y as int,
                    a as usize,
                    WORLD_X as nat,
                ),
                x_offset == world@.bar_start(y as int, action as nat),
                x_offset <= action * LEFTBAR,
                buffer@.len() == frame_len(),
                forall|px: int, py: int|
                    0 <= px < RENDER_WIDTH && 0 <= py < RENDER_HEIGHT ==> #[trigger] pixel(
                        buffer@,
                        px,
                        py,
                        RENDER_WIDTH as int,
                    ) == if px < LEFTBAR && py == y {
                        over(
                            pixel(old(buffer)@, px, py, RENDER_WIDTH as int),
                            match world@.bar_action(px, py, action as nat) {
                                Some(a) => Some(colour_of_action(a)),
                                None => None,
                            },
                        )
                    } else {
                        pixel(old(buffer)@, px, py, RENDER_WIDTH as int)
                    },
            decreases N_ACTIONS - action,
        {
            let count: u32 = counts[action];
            proof {
                lemma_row_count(world@, y as int, action, WORLD_X as nat);
                assert(count * LEFTBAR / (total as int) <= LEFTBAR) by (nonlinear_arith)
                    requires
                        0 <= count <= total,
                        total > 0,
                        LEFTBAR == 80,
                ;
            }
            let width: usize = (count as usize * LEFTBAR) / total as usize;
            assert(width == world@.bar_width(y as int, action));
            let from: usize = if x_offset < LEFTBAR {
                x_offset
            } else {
                LEFTBAR
            };
            let to: usize = if x_offset + width < LEFTBAR {
                x_offset + width
            } else {
                LEFTBAR
            };
            let ghost before = buffer@;
            paint_run(buffer, RENDER_WIDTH, RENDER_HEIGHT, y, from, to, self.action_color(action));
            proof {
                assert forall|px: int, py: int|
                    0 <= px < RENDER_WIDTH && 0 <= py < RENDER_HEIGHT implies #[trigger] pixel(
                    buffer@,
                    px,
                    py,
                    RENDER_WIDTH as int,
                ) == if px < LEFTBAR && py == y {
                    over(
                        pixel(old(buffer)@, px, py, RENDER_WIDTH as int),
                        match world@.bar_action(px, py, (action + 1) as nat) {
                            Some(a) => Some(colour_of_action(a)),
                            None => None,
                        },
                    )
                } else {
                    pixel(old(buffer)@, px, py, RENDER_WIDTH as int)
                } by {
                    assert(pixel(before, px, py, RENDER_WIDTH as int) == if px < LEFTBAR && py
                        == y {
                        over(
                            pixel(old(buffer)@, px, py, RENDER_WIDTH as int),
                            match world@.bar_action(px, py, action as nat) {
                                Some(a) => Some(colour_of_action(a)),
                                None => None,
                            },
                        )
                    } else {
                        pixel(old(buffer)@, px, py, RENDER_WIDTH as int)
                    });
                }
            }
            x_offset = x_offset + width;
            action = action + 1;
        }
    }

    /// Draws the activity bar: per row, one bar for each action that bugs
    /// of the row last recorded, as wide as its share.
    pub fn render_leftbar(&self, world: &World, buffer: &mut [u8])
        requires
            old(buffer)@.len() == frame_len(),
        ensures
            final(buffer)@.len() == frame_len(),
            forall|px: int, py: int|
                0 <= px < RENDER_WIDTH && 0 <= py < RENDER_HEIGHT ==> #[trigger] pixel(
                    final(buffer)@,
                    px,
                    py,
                    RENDER_WIDTH as int,
                ) == if px < LEFTBAR {
                    over(pixel(old(buffer)@, px, py, RENDER_WIDTH as int), world@.bar_colour(px, py))
                } else {
                    pixel(old(buffer)@, px, py, RENDER_WIDTH as int)
                },
    {
        let mut y: usize = 0;
        while y < WORLD_Y
            invariant
                y <= WORLD_Y,
                buffer@.len() == frame_len(),
                forall|px: int, py: int|
                    0 <= px < RENDER_WIDTH && 0 <= py < RENDER_HEIGHT ==> #[trigger] pixel(
                        buffer@,
                        px,
                        py,
                        RENDER_WIDTH as int,
                    ) == if px < LEFTBAR && py < y {
                        over(
                            pixel(old(buffer)@, px, py, RENDER_WIDTH as int),
                            world@.bar_colour(px, py),
                        )
                    } else {
                        pixel(old(buffer)@, px, py, RENDER_WIDTH as int)
                    },
            decreases WORLD_Y - y,
        {
            let ghost before = buffer@;
            self.render_bar(world, y, buffer);
            proof {
                assert forall|px: int, py: int|
                    0 <= px < RENDER_WIDTH && 0 <= py < RENDER_HEIGHT implies #[trigger] pixel(
                    buffer@,
                    px,
                    py,
                    RENDER_WIDTH as int,
                ) == if px < LEFTBAR && py < y + 1 {
                    over(
                        pixel(old(buffer)@, px, py, RENDER_WIDTH as int),
                        world@.bar_colour(px, py),
                    )
                } else {
                    pixel(old(buffer)@, px, py, RENDER_WIDTH as int)
                } by {
                    assert(pixel(before, px, py, RENDER_WIDTH as int) == if px < LEFTBAR && py < y {
                        over(
                            pixel(old(buffer)@, px, py, RENDER_WIDTH as int),
                            world@.bar_colour(px, py),
                        )
                    } else {
                        pixel(old(buffer)@, px, py, RENDER_WIDTH as int)
                    });
                }
            }
            y = y + 1;
        }
    }

    /// The colour of entry `i` of the trail of a bug.
    fn trail_color(&self, bug: &Bug, i: usize) -> (c: Color)
        requires
            i < POS_HISTORY,
        ensures
            c == trail_entry_colour(bug@, i as int),
    {
        Color::rgb(
            fade(bug.brain.ethnicity.r, i),
            fade(bug.brain.ethnicity.g, i),
            fade(bug.brain.ethnicity.b, i),
        )
    }

    /// Draws the trail of one bug.
    fn render_trail(&self, bug: &Bug, buffer: &mut [u8])
        requires
            old(buffer)@.len() == frame_len(),
        ensures
            final(buffer)@.len() == frame_len(),
            forall|px: int, py: int|
                0 <= px < RENDER_WIDTH && 0 <= py < RENDER_HEIGHT ==> #[trigger] pixel(
                    final(buffer)@,
                    px,
                    py,
                    RENDER_WIDTH as int,
                ) == if px < LEFTBAR {
                    pixel(old(buffer)@, px, py, RENDER_WIDTH as int)
                } else {
                    over(
                        pixel(old(buffer)@, px, py, RENDER_WIDTH as int),
                        trail_of(bug@, px - LEFTBAR, py, trail_len(bug@)),
                    )
                },
    {
        let n: usize = if bug.position_history.len() < POS_HISTORY {
            bug.position_history.len()
        } else {
            POS_HISTORY
        };
        let mut i: usize = 0;
        while i < n
            invariant
                i <= n,
                n == trail_len(bug@),
                n <= bug.position_history.len(),
                n <= POS_HISTORY,
                buffer@.len() == frame_len(),
                forall|px: int, py: int|
                    0 <= px < RENDER_WIDTH && 0 <= py < RENDER_HEIGHT ==> #[trigger] pixel(
                        buffer@,
                        px,
                        py,
                        RENDER_WIDTH as int,
                    ) == if px < LEFTBAR {
                        pixel(old(buffer)@, px, py, RENDER_WIDTH as int)
                    } else {
                        over(
                            pixel(old(buffer)@, px, py, RENDER_WIDTH as int),
                            trail_of(bug@, px - LEFTBAR, py, i as nat),
                        )
                    },
            decreases n - i,
        {
            let pos = bug.position_history[i].pos.wrap();
            let colour = self.trail_color(bug, i);
            let ghost before = buffer@;
            paint(buffer, RENDER_WIDTH, RENDER_HEIGHT, pos.x as usize + LEFTBAR, pos.y as usize, colour);
            proof {
                assert forall|px: int, py: int|
                    0 <= px < RENDER_WIDTH && 0 <= py < RENDER_HEIGHT implies #[trigger] pixel(
                    buffer@,
                    px,
                    py,
                    RENDER_WIDTH as int,
                ) == if px < LEFTBAR {
                    pixel(old(buffer)@, px, py, RENDER_WIDTH as int)
                } else {
                    over(
                        pixel(old(buffer)@, px, py, RENDER_WIDTH as int),
                        trail_of(bug@, px - LEFTBAR, py, (i + 1) as nat),
                    )
                } by {
                    assert(pixel(before, px, py, RENDER_WIDTH as int) == if px < LEFTBAR {
                        pixel(old(buffer)@, px, py, RENDER_WIDTH as int)
                    } else {
                        over(
                            pixel(old(buffer)@, px, py, RENDER_WIDTH as int),
                            trail_of(bug@, px - LEFTBAR, py, i as nat),
                        )
                    });
                }
            }
            i = i + 1;
        }
    }

    /// Draws the trails of all bugs, in ascending order of identifier.
    pub fn render_bug_map(&self, world: &World, buffer: &mut [u8])
        requires
            old(buffer)@.len() == frame_len(),
        ensures
            final(buffer)@.len() == frame_len(),
            forall|px: int, py: int|
                0 <= px < RENDER_WIDTH && 0 <= py < RENDER_HEIGHT ==> #[trigger] pixel(
                    final(buffer)@,
                    px,
                    py,
                    RENDER_WIDTH as int,
                ) == if px < LEFTBAR {
                    pixel(old(buffer)@, px, py, RENDER_WIDTH as int)
                } else {
                    over(
                        pixel(old(buffer)@, px, py, RENDER_WIDTH as int),
                        world@.trail_colour(px - LEFTBAR, py),
                    )
                },
    {
        let ids = world.bug_ids();
        let ghost dom = world@.bugs.dom();
        let mut k: usize = 0;
        while k < ids.len()
            invariant
                k <= ids.len(),
                ascending(ids@),
                ids@.to_set() == dom,
                dom == world@.bugs.dom(),
                buffer@.len() == frame_len(),
                forall|px: int, py: int|
                    0 <= px < RENDER_WIDTH && 0 <= py < RENDER_HEIGHT ==> #[trigger] pixel(
                        buffer@,
                        px,
                        py,
                        RENDER_WIDTH as int,
                    ) == if px < LEFTBAR {
                        pixel(old(buffer)@, px, py, RENDER_WIDTH as int)
                    } else {
                        over(
                            pixel(old(buffer)@, px, py, RENDER_WIDTH as int),
                            fold_ids(
                                dom,
                                folded_to(ids@, k as int),
                                None::<Color>,
                                keep_trail(world@.bugs, px - LEFTBAR, py),
                            ),
                        )
                    },
            decreases ids.len() - k,
        {
            let id: u64 = ids[k];
            let ghost before = buffer@;
            match world.get_bug(id) {
                Some(bug) => {
                    self.render_trail(bug, buffer);
                },
                None => {
                    proof {
                        assert(ids@.to_set().contains(id));
                        assert(false);
                    }
                },
            }
            proof {
                assert forall|px: int, py: int|
                    0 <= px < RENDER_WIDTH && 0 <= py < RENDER_HEIGHT implies #[trigger] pixel(
                    buffer@,
                    px,
                    py,
                    RENDER_WIDTH as int,
                ) == if px < LEFTBAR {
                    pixel(old(buffer)@, px, py, RENDER_WIDTH as int)
                } else {
                    over(
                        pixel(old(buffer)@, px, py, RENDER_WIDTH as int),
                        fold_ids(
                            dom,
                            folded_to(ids@, k + 1),
                            None::<Color>,
                            keep_trail(world@.bugs, px - LEFTBAR, py),
                        ),
                    )
                } by {
                    lemma_fold_next(
                        dom,
                        ids@,
                        k as int,
                        None::<Color>,
                        keep_trail(world@.bugs, px - LEFTBAR, py),
                    );
                    assert(pixel(before, px, py, RENDER_WIDTH as int) == if px < LEFTBAR {
                        pixel(old(buffer)@, px, py, RENDER_WIDTH as int)
                    } else {
                        over(
                            pixel(old(buffer)@, px, py, RENDER_WIDTH as int),
                            fold_ids(
                                dom,
                                folded_to(ids@, k as int),
                                None::<Color>,
                                keep_trail(world@.bugs, px - LEFTBAR, py),
                            ),
                        )
                    });
                }
            }
            k = k + 1;
        }
        proof {
            assert forall|px: int, py: int|
                0 <= px < RENDER_WIDTH && 0 <= py < RENDER_HEIGHT implies #[trigger] pixel(
                buffer@,
                px,
                py,
                RENDER_WIDTH as int,
            ) == if px < LEFTBAR {
                pixel(old(buffer)@, px, py, RENDER_WIDTH as int)
            } else {
                over(
                    pixel(old(buffer)@, px, py, RENDER_WIDTH as int),
                    world@.trail_colour(px - LEFTBAR, py),
                )
            } by {
                lemma_fold_done(dom, ids@, None::<Color>, keep_trail(world@.bugs, px - LEFTBAR, py));
            }
        }
    }

    /// Renders the world into a buffer of four bytes per pixel: the map in
    /// the current mode, and left of it the activity bar.
    pub fn render_to_rgba(&self, world: &World, buffer: &mut [u8])
        requires
            old(buffer)@.len() == frame_len(),
        ensures
            final(buffer)@.len() == frame_len(),
            forall|px: int, py: int|
                0 <= px < RENDER_WIDTH && 0 <= py < RENDER_HEIGHT ==> #[trigger] pixel(
                    final(buffer)@,
                    px,
                    py,
                    RENDER_WIDTH as int,
                ) == world@.frame_pixel(self@.mode, px, py),
    {
        clear(buffer, RENDER_WIDTH, RENDER_HEIGHT);
        match self.mode {
            VisMode::BugMap => self.render_bug_map(world, buffer),
            VisMode::EnvironmentMap => self.render_environment_map(world, buffer),
        }
        let ghost mapped = buffer@;
        self.render_leftbar(world, buffer);
        proof {
            assert forall|px: int, py: int|
                0 <= px < RENDER_WIDTH && 0 <= py < RENDER_HEIGHT implies #[trigger] pixel(
                buffer@,
                px,
                py,
                RENDER_WIDTH as int,
            ) == world@.frame_pixel(self@.mode, px, py) by {
                assert(pixel(mapped, px, py, RENDER_WIDTH as int) == if px < LEFTBAR {
                    blank()
                } else {
                    world@.frame_pixel(self@.mode, px, py)
                });
            }
        }
    }

    /// The colour of a cell on the environment map.
    fn environment_colour(&self, world: &World, x: usize, y: usize) -> (c: Color)
        requires
            x < WORLD_X,
            y < WORLD_Y,
        ensures
            c == world@.env_colour(x as int, y as int),
    {
        let pos = Pos::new(x as i32, y as i32);
        match world.get_bug_at(pos) {
            Some(bug) => {
                let age: i64 = world.current_tick as i64 - bug.data.birthday as i64;
                let red: i64 = 255 + age / 4;
                Color::rgb(
                    if red < 128 {
                        128
                    } else if red > 255 {
                        255
                    } else {
                        red as u8
                    },
                    0,
                    0,
                )
            },
            None => {
                let (food, water): (i32, i32) = match world.get_cell(pos) {
                    Some(c) => (c.food, c.water),
                    None => (0, 0),
                };
                let green: i64 = (food as i64 * 192) / FOOD_CAP as i64;
                let blue: i64 = water as i64 + 64;
                Color::rgb(
                    0,
                    if green < 0 {
                        0
                    } else if green > 255 {
                        255
                    } else {
                        green as u8
                    },
                    if water == 0 || blue < 0 {
                        0
                    } else if blue > 255 {
                        255
                    } else {
                        blue as u8
                    },
                )
            },
        }
    }
}

} // verus!
