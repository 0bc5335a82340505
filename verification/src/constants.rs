use vstd::prelude::*;

verus! {

/// Width of the world, in cells.
pub const WORLD_X: usize = 1760;

/// Height of the world, in cells.
pub const WORLD_Y: usize = 1000;

/// Width of the activity bar drawn left of the world.
pub const LEFTBAR: usize = 80;

/// Width of the bar right of the world.
pub const RIGHTBAR: usize = 0;

/// Total width of the side bars.
pub const SIDEBAR: usize = 80;

/// Height of the graph strip below the world.
pub const BOTTOMBAR: usize = 80;

/// Width of a rendered frame: world plus side bars.
pub const RENDER_WIDTH: usize = 1840;

/// Height of a rendered frame.
pub const RENDER_HEIGHT: usize = 1000;

pub const ACT_SLEEP: usize = 0;

pub const ACT_EAT: usize = 1;

pub const ACT_TURN_CW: usize = 2;

pub const ACT_TURN_CCW: usize = 3;

pub const ACT_MOVE: usize = 4;

pub const ACT_MATE: usize = 5;

pub const ACT_DIVIDE: usize = 6;

pub const RESPONSE_MATE: usize = 7;

pub const ACT_DEFEND: usize = 8;

/// Number of distinct actions a bug can be recorded as performing.
pub const N_ACTIONS: usize = 9;

/// Number of decision categories a brain scores each tick.
pub const N_DECISIONS: usize = 8;

pub const DIR_E: i8 = 0;

pub const DIR_SE: i8 = 1;

pub const DIR_SW: i8 = 2;

pub const DIR_W: i8 = 3;

pub const DIR_NE: i8 = -1;

pub const DIR_NW: i8 = -2;

pub const N_SENSE_CELLS: usize = 12;

/// First slot of the action-history block of the sense vector.
pub const SENSE_SELF: usize = 72;

pub const SPAWN_WEIGHT_NORM: usize = 81;

pub const STARVE_WEIGHT_NORM: usize = 82;

/// Slot of the sense vector that holds the bug's own age.
pub const SELF_AGE: usize = 83;

/// Slot of the sense vector that holds the bug's hydration.
pub const THIRST_SENSE: usize = 84;

/// Length of the sense vector.
pub const N_SENSES: usize = 85;

/// Number of past states a bug remembers.
pub const POS_HISTORY: usize = 32;

pub const ITEM_FOOD: usize = 0;

pub const ITEM_BUG: usize = 1;

pub const ITEM_BUG_FACE: usize = 2;

pub const ITEM_BUG_MATCH: usize = 3;

pub const FAM_HIST: usize = 126;

pub const ETHNIC_DUR: i32 = 120;

/// Energy cost per gene.
pub const GENE_COST: i32 = 128;

/// Gene count beyond which the cost of carrying genes rises steeply.
pub const GENE_KNEE: i32 = 96;

/// Population below which the age feedback relaxes.
pub const POP_TARGET: usize = 35200;

/// Population above which the age feedback tracks the oldest bug.
pub const POP_HARD_LIMIT: usize = 352000;

/// Most food a cell can hold (fixed point, 1024 per unit).
pub const FOOD_CAP: i32 = 1024000;

pub const FOOD_GROW: i32 = 1044;

pub const FOOD_SHADOW: i32 = 973;

/// Food in every cell of a fresh world.
pub const FOOD_START: i32 = 128000;

pub const FOOD_DECAY: i32 = 115;

/// Food a cell gains per tick at a growth multiplier of one.
pub const FOOD_SPREAD: i32 = 10;

pub const DIE_THIN: i32 = 102400;

pub const MASS_CAP: i32 = 10240000;

pub const MASS_TARGET: i32 = 600;

pub const DROWN_TIME: i32 = 8;

pub const INIT_DEPTH: i32 = 100;

pub const DROWN_DEPTH: i32 = 400;

pub const MAX_SLOPE: i32 = 25;

pub const COST_SLEEP: i32 = 12;

pub const COST_EAT: i32 = 48;

pub const COST_TURN: i32 = 16;

pub const COST_MOVE: i32 = 96;

pub const COST_FIGHT: i32 = 36;

pub const COST_MATE_INITIAL: i32 = 12;

pub const COST_DIVIDE: i32 = 25600;

/// Fixed-point scale of weights: one unit of mass.
pub const NOMMASS: i32 = 1024;

pub const EAT_LIMIT: i32 = 205;

/// Ticks before the self-tuning of food growth sets in.
pub const SEASON_LENGTH: i32 = 8192;

/// Length of the rolling statistics window.
pub const L_HIST: usize = 1300;

} // verus!
