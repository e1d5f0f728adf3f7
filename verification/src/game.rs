//! The per-round state machine: owns the snake, the free-cell set and the
//! active food, accumulates simulated time, and drives one snake step per
//! elapsed interval.

use vstd::prelude::*;

use crate::bijection::Bijection;
use crate::food::{food_positions, foods_distinct, Food};
use crate::snake::Snake;
use crate::{
    board_set, dir_delta, in_bounds, initial_snake, point_plus, Action, Dir, Point, State,
    BOARD_HEIGHT, BOARD_WIDTH, MAX_FOOD_COUNT, STEP_INTERVAL,
};
use std::collections::VecDeque;

verus! {

pub struct Game {
    pub snake: Snake,
    pub time: u64,
    pub update_time: u64,
    pub state: State,
    pub foods: Vec<Food>,
    pub free_pos: Bijection,
}

impl Game {
    /// Accumulated simulated time since the last step, in microseconds.
    pub open spec fn time_acc(self) -> u64 {
        self.time
    }

    /// The fixed step interval the accumulator is measured against.
    pub open spec fn step_time(self) -> u64 {
        self.update_time
    }

    /// The cells the snake body occupies.
    pub open spec fn snake_set(self) -> Set<Point> {
        self.snake.tail@.to_set()
    }

    /// The cells the active food occupies.
    pub open spec fn food_set(self) -> Set<Point> {
        food_positions(self.foods@)
    }

    /// While a round is live, the snake, the free cells and the food
    /// partition the board: no overlap anywhere, every cell accounted for.
    pub open spec fn occupancy_ok(self) -> bool {
        &&& self.snake.tail@.len() >= 2
        &&& self.snake.tail@.no_duplicates()
        &&& forall|i: int| 0 <= i < self.snake.tail@.len() ==> in_bounds(#[trigger] self.snake.tail@[i])
        &&& foods_distinct(self.foods@)
        &&& self.foods@.len() >= 1
        &&& self.snake_set().disjoint(self.free_pos@)
        &&& self.snake_set().disjoint(self.food_set())
        &&& self.free_pos@.disjoint(self.food_set())
        &&& self.snake_set().union(self.free_pos@).union(self.food_set()) == board_set()
        &&& self.snake.tail@.len() + self.free_pos@.len() + self.foods@.len() == BOARD_WIDTH
            * BOARD_HEIGHT
    }

    /// The whole-game invariant every public operation preserves.
    pub open spec fn inv(self) -> bool {
        &&& self.free_pos.wf()
        &&& self.step_time() == STEP_INTERVAL
        &&& self.state != State::GameOver ==> self.occupancy_ok()
    }
}

/// The cell the head lands on when the snake advances by offset `d`.
pub open spec fn step_target(g: Game, d: Point) -> Point {
    point_plus(g.snake.tail@[0], d)
}

/// How one snake step transforms the game, ignoring the pending-direction
/// queue and the time accumulator's bookkeeping. `g0` is the state the step
/// starts from (it must be live), `g1` the state it leaves, `d` the offset
/// the head moves by.
pub open spec fn advance_core(g0: Game, g1: Game, d: Point) -> bool {
    let pos = step_target(g0, d);
    &&& g1.time == g0.time
    &&& g1.update_time == g0.update_time
    &&& if food_positions(g0.foods@).contains(pos) {
        // the head landed on food: the snake keeps its tail and grows
        &&& g1.snake.tail@ == seq![pos] + g0.snake.tail@
        &&& if g0.snake.tail@.len() + 1 == BOARD_WIDTH * BOARD_HEIGHT {
            // every cell is occupied: the round is won
            &&& g1.state == State::GameOver
            &&& g1.free_pos@ == g0.free_pos@
            &&& foods_distinct(g1.foods@)
            &&& food_positions(g1.foods@) == food_positions(g0.foods@).remove(pos)
            &&& g1.foods@.len() + 1 == g0.foods@.len()
        } else {
            &&& g1.state == State::Playing
            &&& if g0.foods@.len() == 1 {
                // the last food was eaten: a fresh batch was drawn from the
                // free cells
                &&& 1 <= g1.foods@.len() <= MAX_FOOD_COUNT
                &&& foods_distinct(g1.foods@)
                &&& food_positions(g1.foods@).subset_of(g0.free_pos@)
                &&& g1.free_pos@ == g0.free_pos@.difference(food_positions(g1.foods@))
                &&& g1.free_pos@.len() + g1.foods@.len() == g0.free_pos@.len()
            } else {
                &&& g1.free_pos@ == g0.free_pos@
                &&& food_positions(g1.foods@) == food_positions(g0.foods@).remove(pos)
                &&& g1.foods@.len() + 1 == g0.foods@.len()
            }
        }
    } else if !in_bounds(pos) || !g0.free_pos@.contains(pos) {
        // the head left the board or hit the body: the round is lost; the
        // head is still recorded so the final frame can be drawn
        &&& g1.state == State::GameOver
        &&& g1.snake.tail@ == seq![pos] + g0.snake.tail@
        &&& g1.foods@ == g0.foods@
        &&& g1.free_pos@ == g0.free_pos@
    } else {
        // an ordinary move: the head advances, the vacated tail cell is freed
        &&& g1.state == State::Playing
        &&& g1.snake.tail@ == (seq![pos] + g0.snake.tail@).drop_last()
        &&& g1.foods@ == g0.foods@
        &&& g1.free_pos@ == g0.free_pos@.remove(pos).insert(g0.snake.tail@.last())
    }
}

/// Addition on the time accumulator, pinned to the top of `u64` instead of
/// wrapping.
pub open spec fn sat_add64(a: u64, b: u64) -> u64 {
    if a + b <= u64::MAX {
        (a + b) as u64
    } else {
        u64::MAX
    }
}

/// The state every round starts from: the seed snake, a full board of free
/// cells except under the snake and the freshly drawn food, and the time
/// accumulator primed so the first update steps at once.
pub open spec fn fresh_round(g: Game) -> bool {
    &&& g.snake.tail@ == initial_snake()
    &&& g.snake.pending() == Seq::<Dir>::empty()
    &&& g.snake.last_dir() == Dir::Down
    &&& g.time == STEP_INTERVAL
    &&& g.update_time == STEP_INTERVAL
    &&& g.state == State::Playing
    &&& 1 <= g.foods@.len() <= MAX_FOOD_COUNT
    &&& foods_distinct(g.foods@)
    &&& g.food_set().subset_of(board_set().difference(initial_snake().to_set()))
    &&& g.free_pos@ == board_set().difference(initial_snake().to_set()).difference(g.food_set())
}

impl Game {
    /// Starts a round: seed snake at its start cells heading down, every
    /// other cell free, and a first batch of food drawn at random.
    pub fn new() -> (g: Game)
        ensures
            g.inv(),
            fresh_round(g),
    {
        let mut tail: VecDeque<Point> = VecDeque::new();
        tail.push_back(Point { x: 2, y: 1 });
        tail.push_back(Point { x: 2, y: 0 });
        let mut g = Game {
            snake: Snake::new(tail, Dir::Down),
            time: STEP_INTERVAL,
            update_time: STEP_INTERVAL,
            state: State::Playing,
            foods: Vec::new(),
            free_pos: Bijection::new(),
        };
        g.restart();
        g
    }

    /// Throws the whole round away and starts over from the seed state.
    fn restart(&mut self)
        ensures
            final(self).inv(),
            fresh_round(*final(self)),
    {
        let mut tail: VecDeque<Point> = VecDeque::new();
        tail.push_back(Point { x: 2, y: 1 });
        tail.push_back(Point { x: 2, y: 0 });
        self.snake = Snake::new(tail, Dir::Down);
        self.time = STEP_INTERVAL;
        self.update_time = STEP_INTERVAL;
        self.state = State::Playing;
        self.foods = Vec::new();
        self.free_pos = Bijection::with_capacity(
            (BOARD_WIDTH as usize) * (BOARD_HEIGHT as usize),
        );
        proof {
            assert(self.snake.tail@ =~= initial_snake());
        }
        let mut x: i16 = 0;
        while x < BOARD_WIDTH
            invariant
                0 <= x <= BOARD_WIDTH,
                self.free_pos.wf(),
                self.free_pos@ == Set::new(|p: Point| in_bounds(p) && p.x < x),
                self.free_pos@.len() == x * BOARD_HEIGHT,
                self.snake.tail@ == initial_snake(),
                self.snake.pending() == Seq::<Dir>::empty(),
                self.snake.last_dir() == Dir::Down,
                self.time == STEP_INTERVAL,
                self.update_time == STEP_INTERVAL,
                self.state == State::Playing,
                self.foods@ == Seq::<Food>::empty(),
            decreases BOARD_WIDTH - x,
        {
            let mut y: i16 = 0;
            while y < BOARD_HEIGHT
                invariant
                    0 <= x < BOARD_WIDTH,
                    0 <= y <= BOARD_HEIGHT,
                    self.free_pos.wf(),
                    self.free_pos@ == Set::new(
                        |p: Point| in_bounds(p) && (p.x < x || (p.x == x && p.y < y)),
                    ),
                    self.free_pos@.len() == x * BOARD_HEIGHT + y,
                    self.snake.tail@ == initial_snake(),
                    self.snake.pending() == Seq::<Dir>::empty(),
                    self.snake.last_dir() == Dir::Down,
                    self.time == STEP_INTERVAL,
                    self.update_time == STEP_INTERVAL,
                    self.state == State::Playing,
                    self.foods@ == Seq::<Food>::empty(),
                decreases BOARD_HEIGHT - y,
            {
                let ghost before = self.free_pos@;
                let p = Point { x, y };
                proof {
                    assert(!before.contains(p));
                    self.free_pos.lemma_finite();
                }
                self.free_pos.insert(p);
                y = y + 1;
                proof {
                    assert(self.free_pos@ =~= Set::new(
                        |q: Point| in_bounds(q) && (q.x < x || (q.x == x && q.y < y)),
                    ));
                }
            }
            x = x + 1;
            proof {
                assert(self.free_pos@ =~= Set::new(|q: Point| in_bounds(q) && q.x < x));
            }
        }
        proof {
            assert(self.free_pos@ =~= board_set());
        }
        let p0 = Point { x: 2, y: 1 };
        let p1 = Point { x: 2, y: 0 };
        proof {
            assert(board_set().contains(p0) && board_set().contains(p1));
            self.free_pos.lemma_finite();
        }
        self.free_pos.remove_elem(&p0);
        proof {
            self.free_pos.lemma_finite();
        }
        self.free_pos.remove_elem(&p1);
        let ghost free_seeded = self.free_pos@;
        proof {
            assert(initial_snake().to_set() =~= Set::<Point>::empty().insert(p0).insert(p1)) by {
                assert forall|q: Point| initial_snake().to_set().contains(q) implies (q == p0 || q
                    == p1) by {
                    let j = choose|j: int|
                        0 <= j < initial_snake().len() && initial_snake()[j] == q;
                }
                assert(initial_snake()[0] == p0 && initial_snake()[1] == p1);
                assert(initial_snake().contains(p0) && initial_snake().contains(p1));
            }
            assert(free_seeded =~= board_set().difference(initial_snake().to_set()));
            assert(free_seeded.len() == BOARD_WIDTH * BOARD_HEIGHT - 2);
        }
        Food::gen_foods(self);
        proof {
            let g1 = *self;
            assert(g1.snake.tail@ == initial_snake()) by {
                assert(g1.snake.tail@ =~= initial_snake());
            }
            assert(g1.free_pos@ =~= board_set().difference(initial_snake().to_set()).difference(
                g1.food_set(),
            ));
            // the partition that the invariant demands
            assert(g1.snake_set() =~= initial_snake().to_set());
            assert(g1.snake_set().disjoint(g1.free_pos@));
            assert(g1.snake_set().disjoint(g1.food_set())) by {
                assert forall|q: Point| g1.food_set().contains(q) implies !g1.snake_set().contains(
                    q,
                ) by {
                    assert(board_set().difference(initial_snake().to_set()).contains(q));
                }
            }
            assert(g1.free_pos@.disjoint(g1.food_set()));
            assert(g1.snake_set().union(g1.free_pos@).union(g1.food_set()) =~= board_set()) by {
                assert forall|q: Point| board_set().contains(q) implies g1.snake_set().union(
                    g1.free_pos@,
                ).union(g1.food_set()).contains(q) by {
                    if !g1.snake_set().contains(q) && !g1.food_set().contains(q) {
                        assert(g1.free_pos@.contains(q));
                    }
                }
            }
            assert(g1.occupancy_ok());
        }
    }

    /// Accumulates elapsed time (pinned at the top of `u64`) and, once more
    /// than one step interval has built up, spends one interval on a single
    /// snake step. At most one step happens per call; any excess carries
    /// over to the next call.
    pub fn update(&mut self, dt: u64)
        requires
            old(self).inv(),
        ensures
            final(self).inv(),
            old(self).state != State::Playing ==> *final(self) == *old(self),
            old(self).state == State::Playing ==> ({
                let t = sat_add64(old(self).time, dt);
                &&& t <= STEP_INTERVAL ==> *final(self) == (Game { time: t, ..*old(self) })
                &&& t > STEP_INTERVAL ==> {
                    let mid = (Game { time: (t - STEP_INTERVAL) as u64, ..*old(self) });
                    let k = if old(self).snake.pending().len() > 0 {
                        old(self).snake.pending()[0]
                    } else {
                        old(self).snake.last_dir()
                    };
                    &&& advance_core(mid, *final(self), dir_delta(k))
                    &&& final(self).snake.pending() == (if old(self).snake.pending().len() > 0 {
                        old(self).snake.pending().drop_first()
                    } else {
                        old(self).snake.pending()
                    })
                    &&& final(self).snake.last_dir() == old(self).snake.last_dir()
                }
            }),
    {
        if self.state == State::Playing {
            if dt <= u64::MAX - self.time {
                self.time = self.time + dt;
            } else {
                self.time = u64::MAX;
            }
            if self.time > self.update_time {
                self.time = self.time - self.update_time;
                Snake::update(self);
            }
        }
    }

    /// Applies one recognized player action: directions are queued on the
    /// snake, restart resets the round, and the pause toggle flips between
    /// playing and paused but never revives a finished round.
    pub fn key_press(&mut self, action: Action)
        requires
            old(self).inv(),
        ensures
            final(self).inv(),
            match action {
                Action::Restart => fresh_round(*final(self)),
                Action::TogglePause => {
                    &&& final(self).state == (match old(self).state {
                        State::Paused => State::Playing,
                        State::Playing => State::Paused,
                        State::GameOver => State::GameOver,
                    })
                    &&& final(self).snake == old(self).snake
                    &&& final(self).foods == old(self).foods
                    &&& final(self).free_pos == old(self).free_pos
                    &&& final(self).time == old(self).time
                    &&& final(self).update_time == old(self).update_time
                },
                Action::Move(d) => {
                    &&& final(self).snake.tail@ == old(self).snake.tail@
                    &&& Snake::spec_opposite(d) == old(self).snake.last_dir()
                        ==> final(self).snake.pending() == old(self).snake.pending()
                        && final(self).snake.last_dir() == old(self).snake.last_dir()
                    &&& Snake::spec_opposite(d) != old(self).snake.last_dir()
                        ==> final(self).snake.pending() == old(self).snake.pending().push(d)
                        && final(self).snake.last_dir() == d
                    &&& final(self).foods == old(self).foods
                    &&& final(self).free_pos == old(self).free_pos
                    &&& final(self).state == old(self).state
                    &&& final(self).time == old(self).time
                    &&& final(self).update_time == old(self).update_time
                },
            },
    {
        match action {
            Action::Restart => self.restart(),
            Action::TogglePause => {
                self.state = match self.state {
                    State::Paused => State::Playing,
                    State::Playing => State::Paused,
                    State::GameOver => State::GameOver,
                };
            },
            Action::Move(d) => self.snake.key_press(d),
        }
    }
}

/// Every live game accounts for each board cell exactly once among the
/// snake body, the free cells, and the active food.
pub proof fn lemma_cell_conservation(g: Game)
    requires
        g.inv(),
        g.state != State::GameOver,
    ensures
        g.snake.tail@.len() + g.free_pos@.len() + g.foods@.len() == BOARD_WIDTH * BOARD_HEIGHT,
{
}

/// No cell is ever both on the snake body and free.
pub proof fn lemma_body_free_disjoint(g: Game, p: Point)
    requires
        g.inv(),
        g.state != State::GameOver,
    ensures
        !(g.snake.tail@.contains(p) && g.free_pos@.contains(p)),
{
    if g.snake.tail@.contains(p) {
        assert(g.snake_set().contains(p));
    }
}

/// Eating grows the snake by exactly one cell, consumes that food item,
/// and shrinks the pool of unoccupied cells (free or food) by exactly one.
pub proof fn lemma_food_consumption(g0: Game, g1: Game, d: Point)
    requires
        g0.inv(),
        g0.state == State::Playing,
        advance_core(g0, g1, d),
        food_positions(g0.foods@).contains(step_target(g0, d)),
    ensures
        g1.snake.tail@.len() == g0.snake.tail@.len() + 1,
        !food_positions(g1.foods@).contains(step_target(g0, d)),
        g1.free_pos@.len() + g1.foods@.len() + 1 == g0.free_pos@.len() + g0.foods@.len(),
{
    let pos = step_target(g0, d);
    if g0.snake.tail@.len() + 1 != BOARD_WIDTH * BOARD_HEIGHT && g0.foods@.len() == 1 {
        // the batch was regenerated from cells that never include `pos`
        assert(!g0.free_pos@.contains(pos));
        if food_positions(g1.foods@).contains(pos) {
            assert(g0.free_pos@.contains(pos));
        }
    }
}

/// Moving the head onto any cell of the body ends the round, and neither
/// the food nor the free cells change.
pub proof fn lemma_self_collision(g0: Game, g1: Game, d: Point)
    requires
        g0.inv(),
        g0.state == State::Playing,
        advance_core(g0, g1, d),
        g0.snake.tail@.contains(step_target(g0, d)),
    ensures
        g1.state == State::GameOver,
        g1.foods@ == g0.foods@,
        g1.free_pos@ == g0.free_pos@,
{
    let pos = step_target(g0, d);
    assert(g0.snake_set().contains(pos));
    assert(!food_positions(g0.foods@).contains(pos));
    assert(!g0.free_pos@.contains(pos));
}

/// A step that fills the last board cell wins the round, whatever still
/// sits in the input queue.
pub proof fn lemma_win(g0: Game, g1: Game, d: Point)
    requires
        g0.inv(),
        g0.state == State::Playing,
        advance_core(g0, g1, d),
        food_positions(g0.foods@).contains(step_target(g0, d)),
        g0.snake.tail@.len() + 1 == BOARD_WIDTH * BOARD_HEIGHT,
    ensures
        g1.state == State::GameOver,
        g1.snake.tail@.len() == BOARD_WIDTH * BOARD_HEIGHT,
{
}

} // verus!
