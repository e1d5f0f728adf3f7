//! Core of a grid-based snake game: the discrete simulation that moves the
//! snake, detects collisions, places food, and tracks which board cells are
//! free. Rendering and input-device handling live outside this crate; they
//! talk to the core through plain values (`Point`, `Dir`, `Action`, `State`).

use vstd::prelude::*;

mod bijection;
mod food;
mod game;
mod rng;
mod snake;

pub use crate::bijection::Bijection;
pub use crate::food::Food;
pub use crate::game::Game;
pub use crate::snake::Snake;

verus! {

/// Number of board columns.
pub const BOARD_WIDTH: i16 = 16;

/// Number of board rows.
pub const BOARD_HEIGHT: i16 = 12;

/// Edge length of one rendered tile, in pixels; used only by the drawing
/// collaborator, which owns all pixel geometry.
pub const TILE_SIZE: i16 = 34;

/// Largest number of food items that may exist at once.
pub const MAX_FOOD_COUNT: usize = 6;

/// Simulated time that must accumulate before the snake advances one cell,
/// in microseconds.
pub const STEP_INTERVAL: u64 = 200_000;

/// A board cell, addressed by column `x` and row `y`.
#[derive(PartialEq, Eq, Structural, Clone, Copy, Debug, Hash)]
pub struct Point {
    pub x: i16,
    pub y: i16,
}

impl Point {
    /// Componentwise translation of one point by another.
    pub fn add(self, other: Point) -> (r: Point)
        requires
            i16::MIN <= self.x + other.x <= i16::MAX,
            i16::MIN <= self.y + other.y <= i16::MAX,
        ensures
            r.x == self.x + other.x,
            r.y == self.y + other.y,
    {
        Point { x: self.x + other.x, y: self.y + other.y }
    }
}

/// A direction the snake can travel in.
#[derive(PartialEq, Eq, Structural, Clone, Copy, Debug)]
pub enum Dir {
    Up,
    Down,
    Left,
    Right,
}

/// A recognized player action; the input collaborator translates raw device
/// events into these before they reach the core.
#[derive(PartialEq, Eq, Structural, Clone, Copy, Debug)]
pub enum Action {
    Move(Dir),
    TogglePause,
    Restart,
}

/// The phase a round is in. Terminal simulation events (death, full-board
/// win) and explicit player actions are the only transitions.
#[derive(PartialEq, Eq, Structural, Clone, Copy, Debug)]
pub enum State {
    Playing,
    Paused,
    GameOver,
}

/// Whether a point lies on the board.
pub open spec fn in_bounds(p: Point) -> bool {
    &&& 0 <= p.x < BOARD_WIDTH
    &&& 0 <= p.y < BOARD_HEIGHT
}

/// The set of all board cells.
pub open spec fn board_set() -> Set<Point> {
    Set::new(|p: Point| in_bounds(p))
}

/// The cell one step from `p` in the direction of offset `d`, as the
/// simulation computes it.
pub open spec fn point_plus(p: Point, d: Point) -> Point {
    Point { x: (p.x + d.x) as i16, y: (p.y + d.y) as i16 }
}

/// The unit offset that one step in direction `d` adds to the head.
pub open spec fn dir_delta(d: Dir) -> Point {
    match d {
        Dir::Right => Point { x: 1, y: 0 },
        Dir::Down => Point { x: 0, y: 1 },
        Dir::Left => Point { x: -1i16, y: 0 },
        Dir::Up => Point { x: 0, y: -1i16 },
    }
}

/// The seed body every round starts from: head first, moving down.
pub open spec fn initial_snake() -> Seq<Point> {
    seq![Point { x: 2, y: 1 }, Point { x: 2, y: 0 }]
}

} // verus!
