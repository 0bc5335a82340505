use crate::constants::{BOTTOMBAR, RENDER_WIDTH};
use crate::fixed::{clamp_i32, tdiv, to_i32};
use crate::render::{blank, clear, over, paint_column, pixel, solid, Color};
use crate::world::WorldStats;
use std::collections::VecDeque;
use vstd::prelude::*;

verus! {

/// The number of bytes of a frame of the graph.
pub open spec fn graph_len() -> nat {
    (RENDER_WIDTH * BOTTOMBAR * 4) as nat
}

/// The scales of the graphs over a window of records.
#[derive(Debug, Clone, Copy, PartialEq, Eq, Structural)]
pub struct Ranges {
    pub max_bugs: usize,
    /// The largest count of events of one kind in one tick.
    pub max_bd: u32,
    pub max_mass: i32,
    pub min_mass: i32,
    pub max_genes: i32,
    pub min_genes: i32,
}

/// The mean mass of a record in whole units.
pub open spec fn mass_of(s: WorldStats) -> i32 {
    clamp_i32(tdiv(s.avg_bug_mass as int, 1024))
}

/// The mean gene count of a record in whole genes.
pub open spec fn genes_of(s: WorldStats) -> i32 {
    clamp_i32(tdiv(s.avg_genes as int, 1024))
}

/// The larger of two.
pub open spec fn larger(a: int, b: int) -> int {
    if a >= b {
        a
    } else {
        b
    }
}

/// The smaller of two.
pub open spec fn smaller(a: int, b: int) -> int {
    if a <= b {
        a
    } else {
        b
    }
}

/// The scales with one more record taken in.
pub open spec fn widened(r: Ranges, s: WorldStats) -> Ranges {
    Ranges {
        max_bugs: larger(r.max_bugs as int, s.bug_count as int) as usize,
        max_bd: larger(
            larger(
                larger(
                    larger(larger(r.max_bd as int, s.births as int), s.starvations as int),
                    s.collisions as int,
                ),
                s.drownings as int,
            ),
            s.movements as int,
        ) as u32,
        max_mass: larger(larger(r.max_mass as int, mass_of(s) as int), s.avg_food_per_cell as int) as i32,
        min_mass: smaller(r.min_mass as int, mass_of(s) as int) as i32,
        max_genes: larger(r.max_genes as int, genes_of(s) as int) as i32,
        min_genes: smaller(r.min_genes as int, genes_of(s) as int) as i32,
    }
}

/// The scales before any record is taken in.
pub open spec fn narrowest() -> Ranges {
    Ranges {
        max_bugs: 1,
        max_bd: 1,
        max_mass: 1,
        min_mass: i32::MAX,
        max_genes: 1,
        min_genes: i32::MAX,
    }
}

/// The scales over the records from `start` up to, not including, `end`,
/// taken in one by one.
pub open spec fn swept_ranges(stats: Seq<WorldStats>, start: int, end: int) -> Ranges
    decreases end - start,
{
    if end <= start || end > stats.len() || start < 0 {
        narrowest()
    } else {
        widened(swept_ranges(stats, start, end - 1), stats[end - 1])
    }
}

/// The scales of the graphs over a window: no maximum is below 1, a
/// minimum of mass that no record set is 0, and the scale of the gene
/// counts is never empty.
pub open spec fn ranges_of(stats: Seq<WorldStats>, start: int, end: int) -> Ranges {
    let r = swept_ranges(stats, start, end);
    Ranges {
        min_mass: if r.min_mass == i32::MAX {
            0
        } else {
            r.min_mass
        },
        max_genes: if r.max_genes == r.min_genes && r.max_genes < i32::MAX {
            (r.max_genes + 1) as i32
        } else {
            r.max_genes
        },
        ..r
    }
}

/// The height above the bottom edge at which a value is drawn on a scale
/// from `lo` to `hi`: its share of the height of the graph, rounded towards
/// zero; the top row for what lies above the scale and for what lies a whole
/// row or more below it.
pub open spec fn level(value: i32, lo: i32, hi: i32) -> int {
    let rows = tdiv((value - lo) * BOTTOMBAR, hi - lo);
    if rows < 0 || rows > BOTTOMBAR - 1 {
        BOTTOMBAR - 1
    } else {
        rows
    }
}

/// The height above the bottom edge at which a count is drawn on a scale
/// from 0 to `max`.
pub open spec fn event_level(value: u32, max: u32) -> int {
    let rows = value * BOTTOMBAR / (max as int);
    if rows > BOTTOMBAR - 1 {
        BOTTOMBAR - 1
    } else {
        rows
    }
}

/// Whether a line between two levels covers the height `h`.
pub open spec fn between(h: int, a: int, b: int) -> bool {
    smaller(a, b) <= h <= larger(a, b)
}

/// The colour of a pixel after a line between the levels of two values has
/// been drawn over `under`, on a scale from `lo` to `hi`; nothing is drawn
/// on an empty scale.
pub open spec fn line_over(
    under: Option<Color>,
    h: int,
    prev: i32,
    curr: i32,
    lo: i32,
    hi: i32,
    c: Color,
) -> Option<Color> {
    if lo < hi && between(h, level(prev, lo, hi), level(curr, lo, hi)) {
        Some(c)
    } else {
        under
    }
}

/// The same for counts of events, on a scale from 0 to `max`.
pub open spec fn event_over(
    under: Option<Color>,
    h: int,
    prev: u32,
    curr: u32,
    max: u32,
    c: Color,
) -> Option<Color> {
    if max > 0 && between(h, event_level(prev, max), event_level(curr, max)) {
        Some(c)
    } else {
        under
    }
}

/// The height of the population bar of a record.
pub open spec fn bar_height(s: WorldStats, r: Ranges) -> int {
    smaller(s.bug_count * BOTTOMBAR / (r.max_bugs as int), BOTTOMBAR as int)
}

/// The colour at height `h` of the column of record `s`, whose right
/// neighbour shows the record `next` that follows it: a white bar for the
/// population, and over it, in this order, the lines of gene count, food,
/// mass, movements, starvations, drownings, collisions and births, each
/// drawn from the level of `next` to the level of `s`. The newest record
/// has no lines.
pub open spec fn column_colour(s: WorldStats, next: Option<WorldStats>, r: Ranges, h: int) -> Option<
    Color,
> {
    let bar = if h < bar_height(s, r) {
        Some(Color { r: 255, g: 255, b: 255 })
    } else {
        None
    };
    match next {
        None => bar,
        Some(p) => {
            let genes = line_over(
                bar,
                h,
                genes_of(p),
                genes_of(s),
                r.min_genes,
                r.max_genes,
                Color { r: 128, g: 128, b: 128 },
            );
            let food = line_over(
                genes,
                h,
                p.avg_food_per_cell,
                s.avg_food_per_cell,
                r.min_mass,
                r.max_mass,
                Color { r: 0, g: 255, b: 0 },
            );
            let mass = line_over(
                food,
                h,
                mass_of(p),
                mass_of(s),
                r.min_mass,
                r.max_mass,
                Color { r: 0, g: 0, b: 255 },
            );
            let moves = event_over(
                mass,
                h,
                p.movements,
                s.movements,
                r.max_bd,
                Color { r: 0, g: 255, b: 128 },
            );
            let starved = event_over(
                moves,
                h,
                p.starvations,
                s.starvations,
                r.max_bd,
                Color { r: 0, g: 128, b: 0 },
            );
            let drowned = event_over(
                starved,
                h,
                p.drownings,
                s.drownings,
                r.max_bd,
                Color { r: 64, g: 0, b: 192 },
            );
            let collided = event_over(
                drowned,
                h,
                p.collisions,
                s.collisions,
                r.max_bd,
                Color { r: 255, g: 0, b: 0 },
            );
            event_over(collided, h, p.births, s.births, r.max_bd, Color { r: 255, g: 0, b: 255 })
        },
    }
}

/// The index one past the newest record that a view scrolled back by
/// `offset` shows.
pub open spec fn window_end(len: int, offset: int) -> int {
    if offset >= len {
        0
    } else {
        len - offset
    }
}

/// The index of the oldest record that a view of `width` records ending
/// before `end` takes into its scales.
pub open spec fn window_start(end: int, width: int) -> int {
    if width >= end {
        0
    } else {
        end - width
    }
}

/// The four bytes of pixel `(x, y)` of a graph of the records `stats`,
/// scrolled back by `offset` records and scaled over `view_width` of
/// them: the newest record shown stands in the rightmost column, each older
/// one left of the one after it, and where no record stands the pixel is
/// blank.
pub open spec fn graph_pixel(
    stats: Seq<WorldStats>,
    offset: int,
    view_width: int,
    x: int,
    y: int,
) -> (u8, u8, u8, u8) {
    let end = window_end(stats.len() as int, offset);
    let start = window_start(end, view_width);
    let i = RENDER_WIDTH - 1 - x;
    if i >= end - start {
        blank()
    } else {
        over(
            blank(),
            column_colour(
                stats[end - 1 - i],
                if i > 0 {
                    Some(stats[end - i])
                } else {
                    None
                },
                ranges_of(stats, start, end),
                BOTTOMBAR - 1 - y,
            ),
        )
    }
}

/// Takes one more record into the scales.
fn widen(r: Ranges, s: WorldStats) -> (w: Ranges)
    ensures
        w == widened(r, s),
        w.max_bugs >= r.max_bugs,
        w.max_bd >= r.max_bd,
{
    let mut max_bd: u32 = r.max_bd;
    if s.births > max_bd {
        max_bd = s.births;
    }
    if s.starvations > max_bd {
        max_bd = s.starvations;
    }
    if s.collisions > max_bd {
        max_bd = s.collisions;
    }
    if s.drownings > max_bd {
        max_bd = s.drownings;
    }
    if s.movements > max_bd {
        max_bd = s.movements;
    }
    let weight: i32 = to_i32(s.avg_bug_mass / 1024);
    let genes: i32 = to_i32(s.avg_genes / 1024);
    let mut max_mass: i32 = r.max_mass;
    if weight > max_mass {
        max_mass = weight;
    }
    if s.avg_food_per_cell > max_mass {
        max_mass = s.avg_food_per_cell;
    }
    Ranges {
        max_bugs: if s.bug_count > r.max_bugs {
            s.bug_count
        } else {
            r.max_bugs
        },
        max_bd,
        max_mass,
        min_mass: if weight < r.min_mass {
            weight
        } else {
            r.min_mass
        },
        max_genes: if genes > r.max_genes {
            genes
        } else {
            r.max_genes
        },
        min_genes: if genes < r.min_genes {
            genes
        } else {
            r.min_genes
        },
    }
}

/// A scroll position moved by `delta` records, held to the range of
/// `usize`.
pub open spec fn scrolled(offset: usize, delta: i32) -> usize {
    if offset + delta < 0 {
        0
    } else if offset + delta > usize::MAX {
        usize::MAX
    } else {
        (offset + delta) as usize
    }
}

/// What a graph renderer is: the size of its frame, how many records the
/// view is scrolled back, and over how many it is scaled.
pub struct GraphModel {
    pub width: usize,
    pub height: usize,
    pub view_offset: usize,
    pub view_width: usize,
}

impl GraphModel {
    /// The renderer as it starts: not scrolled back.
    pub open spec fn fresh() -> GraphModel {
        GraphModel {
            width: RENDER_WIDTH,
            height: BOTTOMBAR,
            view_offset: 0,
            view_width: RENDER_WIDTH,
        }
    }
}

/// Renders the statistics window as graphs over time.
pub struct GraphRenderer {
    width: usize,
    height: usize,
    /// Scroll position in ticks.
    view_offset: usize,
    /// Number of ticks visible.
    view_width: usize,
}

impl View for GraphRenderer {
    type V = GraphModel;

    closed spec fn view(&self) -> GraphModel {
        GraphModel {
            width: self.width,
            height: self.height,
            view_offset: self.view_offset,
            view_width: self.view_width,
        }
    }
}

impl GraphRenderer {
    #[verifier::type_invariant]
    closed spec fn inv(self) -> bool {
        self.width == RENDER_WIDTH && self.height == BOTTOMBAR && self.view_width == RENDER_WIDTH
    }

    pub fn new() -> (g: Self)
        ensures
            g@ == GraphModel::fresh(),
    {
        Self { width: RENDER_WIDTH, height: BOTTOMBAR, view_offset: 0, view_width: RENDER_WIDTH }
    }

    pub fn width(&self) -> (w: usize)
        ensures
            w == self@.width,
            w == RENDER_WIDTH,
    {
        proof {
            use_type_invariant(self);
        }
        self.width
    }

    pub fn height(&self) -> (h: usize)
        ensures
            h == self@.height,
            h == BOTTOMBAR,
    {
        proof {
            use_type_invariant(self);
        }
        self.height
    }

    /// Sets the scroll position.
    pub fn set_offset(&mut self, offset: usize)
        ensures
            final(self)@ == (GraphModel { view_offset: offset, ..old(self)@ }),
    {
        proof {
            use_type_invariant(&*self);
        }
        self.view_offset = offset;
    }

    /// Scrolls by `delta` records; the position stays within the range of
    /// `usize`.
    pub fn scroll(&mut self, delta: i32)
        ensures
            final(self)@ == (GraphModel {
                view_offset: scrolled(old(self)@.view_offset, delta),
                ..old(self)@
            }),
    {
        proof {
            use_type_invariant(&*self);
        }
        if delta < 0 {
            let back: u64 = (-(delta as i64)) as u64;
            if back >= self.view_offset as u64 {
                self.view_offset = 0;
            } else {
                self.view_offset = self.view_offset - back as usize;
            }
        } else {
            let forth: usize = delta as usize;
            if self.view_offset > usize::MAX - forth {
                self.view_offset = usize::MAX;
            } else {
                self.view_offset = self.view_offset + forth;
            }
        }
    }

    /// The scroll position.
    pub fn get_offset(&self) -> (o: usize)
        ensures
            o == self@.view_offset,
    {
        self.view_offset
    }

    /// The scales of the graphs over the records from `start` up to, not
    /// including, `end`.
    pub fn calculate_ranges(&self, stats: &VecDeque<WorldStats>, start: usize, end: usize) -> (r:
        Ranges)
        requires
            start <= end <= stats@.len(),
        ensures
            r == ranges_of(stats@, start as int, end as int),
            r.max_bugs >= 1,
            r.max_bd >= 1,
    {
        let mut r = Ranges {
            max_bugs: 1,
            max_bd: 1,
            max_mass: 1,
            min_mass: i32::MAX,
            max_genes: 1,
            min_genes: i32::MAX,
        };
        let mut i: usize = start;
        while i < end
            invariant
                start <= i <= end,
                end <= stats@.len(),
                r == swept_ranges(stats@, start as int, i as int),
                r.max_bugs >= 1,
                r.max_bd >= 1,
            decreases end - i,
        {
            r = widen(r, stats[i]);
            i = i + 1;
        }
        if r.min_mass == i32::MAX {
            r.min_mass = 0;
        }
        if r.max_genes == r.min_genes && r.max_genes < i32::MAX {
            r.max_genes = r.max_genes + 1;
        }
        r
    }

    /// Draws a vertical bar of `height` rows upwards from `y_start` rows
    /// above the bottom edge, as far as the graph reaches.
    pub fn draw_vline(&self, buffer: &mut [u8], x: usize, y_start: usize, height: usize, color: Color)
        requires
            x < RENDER_WIDTH,
            old(buffer)@.len() == graph_len(),
        ensures
            final(buffer)@.len() == graph_len(),
            forall|px: int, py: int|
                0 <= px < RENDER_WIDTH && 0 <= py < BOTTOMBAR ==> #[trigger] pixel(
                    final(buffer)@,
                    px,
                    py,
                    RENDER_WIDTH as int,
                ) == if px == x && y_start <= BOTTOMBAR - 1 - py < y_start + height {
                    solid(color)
                } else {
                    pixel(old(buffer)@, px, py, RENDER_WIDTH as int)
                },
    {
        if y_start >= BOTTOMBAR {
            return ;
        }
        let top: usize = if height > BOTTOMBAR - y_start {
            BOTTOMBAR
        } else {
            y_start + height
        };
        paint_column(buffer, RENDER_WIDTH, BOTTOMBAR, x, BOTTOMBAR - top, BOTTOMBAR - y_start, color);
    }

    /// Draws a vertical line between two heights above the bottom edge,
    /// each held to the top row.
    pub fn draw_line_segment(&self, buffer: &mut [u8], x: usize, y1: usize, y2: usize, color: Color)
        requires
            x < RENDER_WIDTH,
            old(buffer)@.len() == graph_len(),
        ensures
            final(buffer)@.len() == graph_len(),
            forall|px: int, py: int|
                0 <= px < RENDER_WIDTH && 0 <= py < BOTTOMBAR ==> #[trigger] pixel(
                    final(buffer)@,
                    px,
                    py,
                    RENDER_WIDTH as int,
                ) == if px == x && between(
                    BOTTOMBAR - 1 - py,
                    smaller(y1 as int, BOTTOMBAR - 1),
                    smaller(y2 as int, BOTTOMBAR - 1),
                ) {
                    solid(color)
                } else {
                    pixel(old(buffer)@, px, py, RENDER_WIDTH as int)
                },
    {
        let a: usize = if y1 < BOTTOMBAR - 1 {
            y1
        } else {
            BOTTOMBAR - 1
        };
        let b: usize = if y2 < BOTTOMBAR - 1 {
            y2
        } else {
            BOTTOMBAR - 1
        };
        let y_min: usize = if a < b {
            a
        } else {
            b
        };
        let y_max: usize = if a < b {
            b
        } else {
            a
        };
        paint_column(
            buffer,
            RENDER_WIDTH,
            BOTTOMBAR,
            x,
            BOTTOMBAR - 1 - y_max,
            BOTTOMBAR - y_min,
            color,
        );
    }

    /// The height at which a value is drawn on a scale from `min` to `max`.
    fn level_of(&self, value: i32, min: i32, max: i32) -> (l: usize)
        requires
            min < max,
        ensures
            l == level(value, min, max),
            l < BOTTOMBAR,
    {
        let rows: i64 = ((value as i64 - min as i64) * BOTTOMBAR as i64) / (max as i64 - min as i64);
        if rows < 0 || rows > BOTTOMBAR as i64 - 1 {
            BOTTOMBAR - 1
        } else {
            rows as usize
        }
    }

    /// The height at which a count is drawn on a scale from 0 to `max`.
    fn event_level_of(&self, value: u32, max: u32) -> (l: usize)
        requires
            max > 0,
        ensures
            l == event_level(value, max),
            l < BOTTOMBAR,
    {
        let rows: u64 = (value as u64 * BOTTOMBAR as u64) / max as u64;
        if rows > BOTTOMBAR as u64 - 1 {
            BOTTOMBAR - 1
        } else {
            rows as usize
        }
    }

    /// Draws the line of a graph between the levels of two consecutive
    /// values; nothing on an empty scale.
    pub fn draw_graph_line(
        &self,
        buffer: &mut [u8],
        x: usize,
        prev_val: i32,
        curr_val: i32,
        min: i32,
        max: i32,
        color: Color,
    )
        requires
            x < RENDER_WIDTH,
            old(buffer)@.len() == graph_len(),
        ensures
            final(buffer)@.len() == graph_len(),
            forall|px: int, py: int|
                0 <= px < RENDER_WIDTH && 0 <= py < BOTTOMBAR ==> #[trigger] pixel(
                    final(buffer)@,
                    px,
                    py,
                    RENDER_WIDTH as int,
                ) == if px == x && min < max && between(
                    BOTTOMBAR - 1 - py,
                    level(prev_val, min, max),
                    level(curr_val, min, max),
                ) {
                    solid(color)
                } else {
                    pixel(old(buffer)@, px, py, RENDER_WIDTH as int)
                },
    {
        if max <= min {
            return ;
        }
        let prev_y: usize = self.level_of(prev_val, min, max);
        let curr_y: usize = self.level_of(curr_val, min, max);
        self.draw_line_segment(buffer, x, prev_y, curr_y, color);
    }

    /// Draws the line of an event graph between the levels of two
    /// consecutive counts; nothing on an empty scale.
    pub fn draw_event_line(
        &self,
        buffer: &mut [u8],
        x: usize,
        prev_val: u32,
        curr_val: u32,
        max: u32,
        color: Color,
    )
        requires
            x < RENDER_WIDTH,
            old(buffer)@.len() == graph_len(),
        ensures
            final(buffer)@.len() == graph_len(),
            forall|px: int, py: int|
                0 <= px < RENDER_WIDTH && 0 <= py < BOTTOMBAR ==> #[trigger] pixel(
                    final(buffer)@,
                    px,
                    py,
                    RENDER_WIDTH as int,
                ) == if px == x && max > 0 && between(
                    BOTTOMBAR - 1 - py,
                    event_level(prev_val, max),
                    event_level(curr_val, max),
                ) {
                    solid(color)
                } else {
                    pixel(old(buffer)@, px, py, RENDER_WIDTH as int)
                },
    {
        if max == 0 {
            return ;
        }
        let prev_y: usize = self.event_level_of(prev_val, max);
        let curr_y: usize = self.event_level_of(curr_val, max);
        self.draw_line_segment(buffer, x, prev_y, curr_y, color);
    }

    /// Draws the column of one record.
    fn draw_column(
        &self,
        buffer: &mut [u8],
        x: usize,
        s: WorldStats,
        next: Option<WorldStats>,
        r: Ranges,
    )
        requires
            x < RENDER_WIDTH,
            r.max_bugs >= 1,
            old(buffer)@.len() == graph_len(),
        ensures
            final(buffer)@.len() == graph_len(),
            forall|px: int, py: int|
                0 <= px < RENDER_WIDTH && 0 <= py < BOTTOMBAR ==> #[trigger] pixel(
                    final(buffer)@,
                    px,
                    py,
                    RENDER_WIDTH as int,
                ) == if px == x {
                    over(
                        pixel(old(buffer)@, px, py, RENDER_WIDTH as int),
                        column_colour(s, next, r, BOTTOMBAR - 1 - py),
                    )
                } else {
                    pixel(old(buffer)@, px, py, RENDER_WIDTH as int)
                },
    {
        let tall: u128 = (s.bug_count as u128 * BOTTOMBAR as u128) / r.max_bugs as u128;
        let bar: usize = if tall > BOTTOMBAR as u128 {
            BOTTOMBAR
        } else {
            tall as usize
        };
        assert(bar == bar_height(s, r));
        self.draw_vline(buffer, x, 0, bar, Color::white());
        match next {
            Some(p) => {
                self.draw_graph_line(
                    buffer,
                    x,
                    to_i32(p.avg_genes / 1024),
                    to_i32(s.avg_genes / 1024),
                    r.min_genes,
                    r.max_genes,
                    Color::gray(),
                );
                self.draw_graph_line(
                    buffer,
                    x,
                    p.avg_food_per_cell,
                    s.avg_food_per_cell,
                    r.min_mass,
                    r.max_mass,
                    Color::rgb(0, 255, 0),
                );
                self.draw_graph_line(
                    buffer,
                    x,
                    to_i32(p.avg_bug_mass / 1024),
                    to_i32(s.avg_bug_mass / 1024),
                    r.min_mass,
                    r.max_mass,
                    Color::rgb(0, 0, 255),
                );
                self.draw_event_line(buffer, x, p.movements, s.movements, r.max_bd, Color::rgb(0, 255, 128));
                self.draw_event_line(buffer, x, p.starvations, s.starvations, r.max_bd, Color::rgb(0, 128, 0));
                self.draw_event_line(buffer, x, p.drownings, s.drownings, r.max_bd, Color::rgb(64, 0, 192));
                self.draw_event_line(buffer, x, p.collisions, s.collisions, r.max_bd, Color::rgb(255, 0, 0));
                self.draw_event_line(buffer, x, p.births, s.births, r.max_bd, Color::rgb(255, 0, 255));
            },
            None => {},
        }
    }

    /// Renders the graphs of a statistics window into a buffer of four
    /// bytes per pixel, the newest record at the right edge.
    pub fn render_to_rgba(&self, stats_history: &VecDeque<WorldStats>, buffer: &mut [u8])
        requires
            old(buffer)@.len() == graph_len(),
        ensures
            final(buffer)@.len() == graph_len(),
            forall|px: int, py: int|
                0 <= px < RENDER_WIDTH && 0 <= py < BOTTOMBAR ==> #[trigger] pixel(
                    final(buffer)@,
                    px,
                    py,
                    RENDER_WIDTH as int,
                ) == graph_pixel(
                    stats_history@,
                    self@.view_offset as int,
                    RENDER_WIDTH as int,
                    px,
                    py,
                ),
    {
        proof {
            use_type_invariant(self);
        }
        clear(buffer, RENDER_WIDTH, BOTTOMBAR);
        let history_len: usize = stats_history.len();
        let end_idx: usize = if self.view_offset >= history_len {
            0
        } else {
            history_len - self.view_offset
        };
        let start_idx: usize = if self.view_width >= end_idx {
            0
        } else {
            end_idx - self.view_width
        };
        if end_idx == 0 {
            return ;
        }
        let r = self.calculate_ranges(stats_history, start_idx, end_idx);
        let shown: usize = end_idx - start_idx;
        let mut i: usize = 0;
        while i < shown
            invariant
                i <= shown,
                shown == end_idx - start_idx,
                shown <= RENDER_WIDTH,
                start_idx <= end_idx <= stats_history@.len(),
                end_idx == window_end(stats_history@.len() as int, self@.view_offset as int),
                start_idx == window_start(end_idx as int, RENDER_WIDTH as int),
                r == ranges_of(stats_history@, start_idx as int, end_idx as int),
                r.max_bugs >= 1,
                buffer@.len() == graph_len(),
                forall|px: int, py: int|
                    0 <= px < RENDER_WIDTH && 0 <= py < BOTTOMBAR ==> #[trigger] pixel(
                        buffer@,
                        px,
                        py,
                        RENDER_WIDTH as int,
                    ) == if RENDER_WIDTH - 1 - px < i {
                        graph_pixel(
                            stats_history@,
                            self@.view_offset as int,
                            RENDER_WIDTH as int,
                            px,
                            py,
                        )
                    } else {
                        blank()
                    },
            decreases shown - i,
        {
            let x: usize = end_idx - 1 - i;
            let s: WorldStats = stats_history[x];
            let next: Option<WorldStats> = if i > 0 {
                Some(stats_history[x + 1])
            } else {
                None
            };
            let ghost before = buffer@;
            self.draw_column(buffer, RENDER_WIDTH - 1 - i, s, next, r);
            proof {
                assert forall|px: int, py: int|
                    0 <= px < RENDER_WIDTH && 0 <= py < BOTTOMBAR implies #[trigger] pixel(
                    buffer@,
                    px,
                    py,
                    RENDER_WIDTH as int,
                ) == if RENDER_WIDTH - 1 - px < i + 1 {
                    graph_pixel(
                        stats_history@,
                        self@.view_offset as int,
                        RENDER_WIDTH as int,
                        px,
                        py,
                    )
                } else {
                    blank()
                } by {
                    assert(pixel(before, px, py, RENDER_WIDTH as int) == if RENDER_WIDTH - 1 - px
                        < i {
                        graph_pixel(
                            stats_history@,
                            self@.view_offset as int,
                            RENDER_WIDTH as int,
                            px,
                            py,
                        )
                    } else {
                        blank()
                    });
                }
            }
            i = i + 1;
        }
    }
}

impl Default for GraphRenderer {
    fn default() -> (g: Self)
        ensures
            g@ == GraphModel::fresh(),
    {
        Self::new()
    }
}

} // verus!
