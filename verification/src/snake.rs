//! The snake: its body cells, head first, and the queue of pending turns.

use vstd::prelude::*;

use crate::food::{food_positions, Food};
use crate::game::{advance_core, step_target, Game};
use crate::{in_bounds, Dir, Point, State, BOARD_HEIGHT, BOARD_WIDTH};
use std::collections::VecDeque;

verus! {

/// An ordered sequence of occupied cells (head at the front), the queued
/// turn intents, and the direction most recently queued or committed.
pub struct Snake {
    pub tail: VecDeque<Point>,
    pub keys: VecDeque<Dir>,
    pub last_pressed: Dir,
}

impl Snake {
    /// The queued turn intents, oldest first.
    pub open spec fn pending(self) -> Seq<Dir> {
        self.keys@
    }

    /// The most recently queued direction, or the committed one when
    /// nothing is queued.
    pub open spec fn last_dir(self) -> Dir {
        self.last_pressed
    }

    pub fn new(tail: VecDeque<Point>, key: Dir) -> (s: Snake)
        ensures
            s.tail@ == tail@,
            s.pending() == Seq::<Dir>::empty(),
            s.last_dir() == key,
    {
        Snake { tail, keys: VecDeque::new(), last_pressed: key }
    }

    /// The direction exactly opposite `key`.
    pub open spec fn spec_opposite(key: Dir) -> Dir {
        match key {
            Dir::Right => Dir::Left,
            Dir::Left => Dir::Right,
            Dir::Up => Dir::Down,
            Dir::Down => Dir::Up,
        }
    }

    fn opposite_direction(key: Dir) -> (r: Dir)
        ensures
            r == Self::spec_opposite(key),
    {
        match key {
            Dir::Right => Dir::Left,
            Dir::Left => Dir::Right,
            Dir::Up => Dir::Down,
            Dir::Down => Dir::Up,
        }
    }

    /// Queues a turn unless it would reverse the snake into itself; a
    /// reversal is silently dropped, not an error.
    pub fn key_press(&mut self, k: Dir)
        ensures
            final(self).tail@ == old(self).tail@,
            Self::spec_opposite(k) == old(self).last_dir() ==> final(self).pending() == old(
                self,
            ).pending() && final(self).last_dir() == old(self).last_dir(),
            Self::spec_opposite(k) != old(self).last_dir() ==> final(self).pending() == old(
                self,
            ).pending().push(k) && final(self).last_dir() == k,
    {
        if Self::opposite_direction(k) != self.last_pressed {
            self.keys.push_back(k);
            self.last_pressed = k;
        }
    }

    fn outside(p: Point) -> (r: bool)
        ensures
            r == !in_bounds(p),
    {
        p.x < 0 || BOARD_WIDTH <= p.x || p.y < 0 || BOARD_HEIGHT <= p.y
    }

    /// Advances the snake one step: dequeues the next turn intent (or keeps
    /// the committed direction) and moves the head one cell that way.
    pub fn update(g: &mut Game)
        requires
            old(g).inv(),
            old(g).state == State::Playing,
        ensures
            final(g).inv(),
            ({
                let k = if old(g).snake.pending().len() > 0 {
                    old(g).snake.pending()[0]
                } else {
                    old(g).snake.last_dir()
                };
                advance_core(*old(g), *final(g), crate::dir_delta(k))
            }),
            final(g).snake.pending() == if old(g).snake.pending().len() > 0 {
                old(g).snake.pending().drop_first()
            } else {
                old(g).snake.pending()
            },
            final(g).snake.last_dir() == old(g).snake.last_dir(),
    {
        let k = match g.snake.keys.pop_front() {
            Some(d) => d,
            None => g.snake.last_pressed,
        };
        let delta = match k {
            Dir::Right => Point { x: 1, y: 0 },
            Dir::Down => Point { x: 0, y: 1 },
            Dir::Left => Point { x: -1, y: 0 },
            Dir::Up => Point { x: 0, y: -1 },
        };
        Self::mv(g, delta)
    }

    /// Moves the head by `dxy` and resolves the outcome: eat, die, or slide.
    fn mv(g: &mut Game, dxy: Point)
        requires
            old(g).inv(),
            old(g).state == State::Playing,
            -1 <= dxy.x <= 1,
            -1 <= dxy.y <= 1,
        ensures
            final(g).inv(),
            advance_core(*old(g), *final(g), dxy),
            final(g).snake.pending() == old(g).snake.pending(),
            final(g).snake.last_dir() == old(g).snake.last_dir(),
    {
        let ghost g0 = *g;
        let ghost tail0 = g0.snake.tail@;
        let ghost free0 = g0.free_pos@;
        let ghost foods0 = g0.foods@;
        let head = g.snake.tail[0];
        let pos = head.add(dxy);
        proof {
            assert(in_bounds(tail0[0]));
            assert(pos == step_target(g0, dxy));
            g0.free_pos.lemma_finite();
        }
        g.snake.tail.push_front(pos);

        let flen = g.foods.len();
        let mut idx: usize = 0;
        while idx < flen
            invariant
                g0.inv(),
                g0.state == State::Playing,
                g0 == *old(g),
                tail0 == g0.snake.tail@,
                free0 == g0.free_pos@,
                foods0 == g0.foods@,
                pos == step_target(g0, dxy),
                idx <= flen,
                flen == g.foods@.len(),
                forall|m: int| 0 <= m < idx ==> (#[trigger] g.foods@[m]).pos != pos,
                g.snake.tail@ == seq![pos] + g0.snake.tail@,
                g.snake.keys == g0.snake.keys,
                g.snake.last_pressed == g0.snake.last_pressed,
                g.foods == g0.foods,
                g.free_pos == g0.free_pos,
                g.state == g0.state,
                g.time == g0.time,
                g.update_time == g0.update_time,
            decreases flen - idx,
        {
            if g.foods[idx].pos == pos {
                proof {
                    assert(g.foods@ == foods0);
                    assert(idx < foods0.len());
                    assert(foods0[idx as int].pos == pos);
                    assert(food_positions(foods0).contains(pos));
                    // the eaten cell is food, so it is on the board and on
                    // neither the snake nor the free set
                    assert(g0.snake_set().union(g0.free_pos@).union(g0.food_set()).contains(pos));
                    assert(crate::board_set().contains(pos));
                    crate::food::lemma_food_swap_remove(foods0, idx as int);
                }
                let _eaten = g.foods.swap_remove(idx);
                if g.snake.tail.len() == (BOARD_WIDTH as usize) * (BOARD_HEIGHT as usize) {
                    g.state = State::GameOver;
                    return;
                }
                if g.foods.len() == 0 {
                    proof {
                        // the board is not yet full, so free cells remain
                        assert(foods0.len() == 1);
                        assert(tail0.len() + free0.len() + 1 == BOARD_WIDTH * BOARD_HEIGHT);
                        assert(free0.len() > 0);
                    }
                    Food::gen_foods(g);
                    proof {
                        lemma_eat_regen_ok(g0, *g, dxy);
                    }
                } else {
                    proof {
                        lemma_eat_plain_ok(g0, *g, dxy, idx as int);
                    }
                }
                return;
            }
            idx = idx + 1;
        }
        proof {
            assert(!food_positions(foods0).contains(pos)) by {
                if food_positions(foods0).contains(pos) {
                    let j = choose|j: int|
                        0 <= j < foods0.len() && (#[trigger] foods0[j]).pos == pos;
                    // the completed scan saw every item miss `pos`
                    assert(foods0[j].pos != pos);
                }
            }
        }

        if Self::outside(pos) || !g.free_pos.contains(pos) {
            g.state = State::GameOver;
            return;
        }

        g.free_pos.remove_elem(&pos);
        let back = g.snake.tail.pop_back().unwrap();
        proof {
            assert(back == tail0.last());
            assert(tail0.contains(tail0[tail0.len() - 1]));
            assert(g0.snake_set().contains(back));
            assert(!g.free_pos@.contains(back));
        }
        g.free_pos.insert(back);
        proof {
            lemma_move_ok(g0, *g, dxy);
        }
    }
}

/// Pushing a fresh head cell onto the body adds exactly that cell to the
/// occupied set, and keeps the body free of repeats.
proof fn lemma_push_front_set(tail0: Seq<Point>, pos: Point)
    ensures
        (seq![pos] + tail0).to_set() == tail0.to_set().insert(pos),
        tail0.no_duplicates() && !tail0.contains(pos) ==> (seq![pos] + tail0).no_duplicates(),
{
    let t1 = seq![pos] + tail0;
    assert forall|q: Point| t1.contains(q) implies (q == pos || tail0.contains(q)) by {
        let j = choose|j: int| 0 <= j < t1.len() && t1[j] == q;
        if j > 0 {
            assert(tail0[j - 1] == q);
        }
    }
    assert forall|q: Point| tail0.contains(q) implies t1.contains(q) by {
        let j = choose|j: int| 0 <= j < tail0.len() && tail0[j] == q;
        assert(t1[j + 1] == q);
    }
    assert(t1[0] == pos);
    assert(t1.contains(pos));
    assert(t1.to_set() =~= tail0.to_set().insert(pos));
    if tail0.no_duplicates() && !tail0.contains(pos) {
        assert forall|a: int, b: int| 0 <= a < b < t1.len() implies t1[a] != t1[b] by {
            if a == 0 {
                assert(t1[b] == tail0[b - 1]);
                if t1[0] == t1[b] {
                    assert(tail0.contains(pos));
                }
            } else {
                assert(t1[a] == tail0[a - 1] && t1[b] == tail0[b - 1]);
            }
        }
    }
}

/// After eating when other food remains: the game stays live and keeps the
/// board partitioned.
proof fn lemma_eat_plain_ok(g0: Game, g1: Game, d: Point, idx: int)
    requires
        g0.inv(),
        g0.state == State::Playing,
        0 <= idx < g0.foods@.len(),
        g0.foods@[idx].pos == step_target(g0, d),
        g0.foods@.len() != 1,
        g1.snake.tail@ == seq![step_target(g0, d)] + g0.snake.tail@,
        g1.snake.tail@.len() != BOARD_WIDTH * BOARD_HEIGHT,
        g1.foods@ == g0.foods@.update(idx, g0.foods@.last()).drop_last(),
        g1.free_pos == g0.free_pos,
        g1.state == State::Playing,
        g1.time == g0.time,
        g1.update_time == g0.update_time,
    ensures
        g1.inv(),
        advance_core(g0, g1, d),
{
    let pos = step_target(g0, d);
    let tail0 = g0.snake.tail@;
    let tail1 = g1.snake.tail@;
    crate::food::lemma_food_swap_remove(g0.foods@, idx);
    assert(food_positions(g0.foods@).contains(pos));
    assert(g0.snake_set().union(g0.free_pos@).union(g0.food_set()).contains(pos));
    assert(crate::board_set().contains(pos));
    assert(!tail0.contains(pos)) by {
        if tail0.contains(pos) {
            assert(g0.snake_set().contains(pos));
        }
    }
    lemma_push_front_set(tail0, pos);
    assert(g1.snake_set() == g0.snake_set().insert(pos));
    assert forall|i: int| 0 <= i < tail1.len() implies in_bounds(#[trigger] tail1[i]) by {
        if i == 0 {
        } else {
            assert(tail1[i] == tail0[i - 1]);
        }
    }
    assert(g1.snake_set().disjoint(g1.free_pos@)) by {
        assert(!g0.free_pos@.contains(pos));
    }
    assert(g1.snake_set().disjoint(g1.food_set()));
    assert(g1.free_pos@.disjoint(g1.food_set()));
    assert(g1.snake_set().union(g1.free_pos@).union(g1.food_set()) =~= crate::board_set());
    assert(g1.occupancy_ok());
}

/// After eating the last food item: a fresh batch was drawn from the free
/// cells and the board stays partitioned.
proof fn lemma_eat_regen_ok(g0: Game, g1: Game, d: Point)
    requires
        g0.inv(),
        g0.state == State::Playing,
        g0.foods@.len() == 1,
        g0.foods@[0].pos == step_target(g0, d),
        g1.snake.tail@ == seq![step_target(g0, d)] + g0.snake.tail@,
        g1.snake.tail@.len() != BOARD_WIDTH * BOARD_HEIGHT,
        1 <= g1.foods@.len() <= crate::MAX_FOOD_COUNT,
        crate::food::foods_distinct(g1.foods@),
        food_positions(g1.foods@).subset_of(g0.free_pos@),
        g1.free_pos@ == g0.free_pos@.difference(food_positions(g1.foods@)),
        g1.free_pos@.len() + g1.foods@.len() == g0.free_pos@.len(),
        g1.free_pos.wf(),
        g1.state == State::Playing,
        g1.time == g0.time,
        g1.update_time == g0.update_time,
    ensures
        g1.inv(),
        advance_core(g0, g1, d),
{
    let pos = step_target(g0, d);
    let tail0 = g0.snake.tail@;
    let tail1 = g1.snake.tail@;
    assert(food_positions(g0.foods@).contains(pos));
    assert(g0.snake_set().union(g0.free_pos@).union(g0.food_set()).contains(pos));
    assert(crate::board_set().contains(pos));
    assert(!tail0.contains(pos)) by {
        if tail0.contains(pos) {
            assert(g0.snake_set().contains(pos));
        }
    }
    lemma_push_front_set(tail0, pos);
    assert(g1.snake_set() == g0.snake_set().insert(pos));
    assert forall|i: int| 0 <= i < tail1.len() implies in_bounds(#[trigger] tail1[i]) by {
        if i == 0 {
        } else {
            assert(tail1[i] == tail0[i - 1]);
        }
    }
    // the only food cell was `pos` itself
    assert(g0.food_set() =~= Set::<Point>::empty().insert(pos)) by {
        assert forall|q: Point| g0.food_set().contains(q) implies q == pos by {
            let j = choose|j: int| 0 <= j < g0.foods@.len() && (#[trigger] g0.foods@[j]).pos == q;
            assert(j == 0);
        }
    }
    assert(g1.snake_set().disjoint(g1.free_pos@)) by {
        assert forall|q: Point| g1.free_pos@.contains(q) implies !g1.snake_set().contains(q) by {
            assert(g0.free_pos@.contains(q));
            assert(q != pos);
            assert(!g0.snake_set().contains(q));
        }
    }
    assert(g1.snake_set().disjoint(g1.food_set())) by {
        assert forall|q: Point| g1.food_set().contains(q) implies !g1.snake_set().contains(q) by {
            assert(g0.free_pos@.contains(q));
            assert(q != pos);
            assert(!g0.snake_set().contains(q));
        }
    }
    assert(g1.free_pos@.disjoint(g1.food_set()));
    assert(g1.snake_set().union(g1.free_pos@).union(g1.food_set()) =~= crate::board_set()) by {
        assert forall|q: Point|
            g1.snake_set().union(g1.free_pos@).union(g1.food_set()).contains(q)
                == g0.snake_set().union(g0.free_pos@).union(g0.food_set()).contains(q) by {}
    }
    assert(g1.occupancy_ok());
}

/// An ordinary move: the head cell leaves the free set, the vacated tail
/// cell rejoins it, and the board stays partitioned.
proof fn lemma_move_ok(g0: Game, g1: Game, d: Point)
    requires
        g0.inv(),
        g0.state == State::Playing,
        !food_positions(g0.foods@).contains(step_target(g0, d)),
        in_bounds(step_target(g0, d)),
        g0.free_pos@.contains(step_target(g0, d)),
        g1.snake.tail@ == (seq![step_target(g0, d)] + g0.snake.tail@).drop_last(),
        g1.foods@ == g0.foods@,
        g1.free_pos@ == g0.free_pos@.remove(step_target(g0, d)).insert(g0.snake.tail@.last()),
        g1.free_pos.wf(),
        g1.state == State::Playing,
        g1.time == g0.time,
        g1.update_time == g0.update_time,
    ensures
        g1.inv(),
        advance_core(g0, g1, d),
{
    let pos = step_target(g0, d);
    let tail0 = g0.snake.tail@;
    let tail1 = g1.snake.tail@;
    let back = tail0.last();
    let n = tail0.len() as int;
    assert(!tail0.contains(pos)) by {
        if tail0.contains(pos) {
            assert(g0.snake_set().contains(pos));
        }
    }
    assert(tail0.contains(back));
    assert(g0.snake_set().contains(back));
    assert(back != pos);
    assert(tail1.len() == n);
    assert forall|j: int| 0 <= j < n implies tail1[j] == (if j == 0 {
        pos
    } else {
        tail0[j - 1]
    }) by {}
    // the body stays free of repeats and on the board
    assert(tail1.no_duplicates()) by {
        assert forall|a: int, b: int| 0 <= a < b < n implies tail1[a] != tail1[b] by {
            if a == 0 {
                assert(tail0.contains(tail0[b - 1]));
            }
        }
    }
    assert forall|i: int| 0 <= i < n implies in_bounds(#[trigger] tail1[i]) by {
        if i > 0 {
            assert(tail1[i] == tail0[i - 1]);
        }
    }
    // the occupied set trades the vacated tail cell for the new head cell
    assert(g1.snake_set() =~= g0.snake_set().remove(back).insert(pos)) by {
        assert forall|q: Point| tail1.contains(q) implies (q == pos || (tail0.contains(q) && q
            != back)) by {
            let j = choose|j: int| 0 <= j < n && tail1[j] == q;
            if j > 0 {
                assert(tail0[j - 1] == q);
                // back sits only at the last index of tail0
                if q == back {
                    assert(tail0[j - 1] == tail0[n - 1]);
                    assert(j - 1 == n - 1);
                }
            }
        }
        assert forall|q: Point| tail0.contains(q) && q != back implies tail1.contains(q) by {
            let j = choose|j: int| 0 <= j < tail0.len() && tail0[j] == q;
            assert(j != n - 1);
            assert(tail1[j + 1] == q);
        }
        assert(tail1[0] == pos);
        assert(tail1.contains(pos));
    }
    assert(g1.snake_set().disjoint(g1.free_pos@)) by {
        assert forall|q: Point| g1.free_pos@.contains(q) implies !g1.snake_set().contains(q) by {
            if q == back {
            } else {
                assert(g0.free_pos@.contains(q));
                assert(!g0.snake_set().contains(q));
            }
        }
    }
    assert(g1.snake_set().disjoint(g1.food_set())) by {
        assert forall|q: Point| g1.food_set().contains(q) implies !g1.snake_set().contains(q) by {
            assert(g0.food_set().contains(q));
            assert(!g0.snake_set().contains(q));
            assert(q != pos);
        }
    }
    assert(g1.free_pos@.disjoint(g1.food_set())) by {
        assert forall|q: Point| g1.food_set().contains(q) implies !g1.free_pos@.contains(q) by {
            assert(g0.food_set().contains(q));
            assert(!g0.free_pos@.contains(q));
            assert(q != back);
        }
    }
    assert(g1.snake_set().union(g1.free_pos@).union(g1.food_set()) =~= crate::board_set()) by {
        assert forall|q: Point|
            g1.snake_set().union(g1.free_pos@).union(g1.food_set()).contains(q)
                == g0.snake_set().union(g0.free_pos@).union(g0.food_set()).contains(q) by {}
    }
    // the free set's size is unchanged: one cell out, one cell in
    g0.free_pos.lemma_finite();
    assert(g0.free_pos@.remove(pos).len() == g0.free_pos@.len() - 1);
    assert(!g0.free_pos@.remove(pos).contains(back));
    assert(g1.free_pos@.len() == g0.free_pos@.len());
    assert(g1.occupancy_ok());
}

} // verus!
