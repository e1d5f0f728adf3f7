//! Food items: consumables placed on free cells.

use vstd::prelude::*;

use crate::game::Game;
use crate::rng::random_between;
use crate::{Point, MAX_FOOD_COUNT};

verus! {

/// A consumable item sitting on one board cell.
#[derive(Clone, Copy, PartialEq, Eq, Structural, Debug)]
pub struct Food {
    pub pos: Point,
}

/// The cells the given food items occupy.
pub open spec fn food_positions(foods: Seq<Food>) -> Set<Point> {
    Set::new(|p: Point| exists|i: int| 0 <= i < foods.len() && (#[trigger] foods[i]).pos == p)
}

/// No two food items share a cell.
pub open spec fn foods_distinct(foods: Seq<Food>) -> bool {
    forall|i: int, j: int| 0 <= i < j < foods.len() ==> (#[trigger] foods[i]).pos != (
    #[trigger] foods[j]).pos
}

/// Swap-removing one food item removes exactly its cell from the occupied
/// food cells and keeps the remaining items on distinct cells.
pub proof fn lemma_food_swap_remove(f0: Seq<Food>, idx: int)
    requires
        0 <= idx < f0.len(),
        foods_distinct(f0),
    ensures
        food_positions(f0.update(idx, f0.last()).drop_last()) == food_positions(f0).remove(
            f0[idx].pos,
        ),
        foods_distinct(f0.update(idx, f0.last()).drop_last()),
{
    let f1 = f0.update(idx, f0.last()).drop_last();
    let p = f0[idx].pos;
    assert forall|q: Point| food_positions(f1).contains(q) implies food_positions(f0).contains(q)
        && q != p by {
        let j = choose|j: int| 0 <= j < f1.len() && (#[trigger] f1[j]).pos == q;
        if j == idx {
            assert(f1[j] == f0[f0.len() - 1]);
            assert(idx < f0.len() - 1);
            assert(f0[f0.len() - 1].pos == q);
            assert(q != p);
        } else {
            assert(f1[j] == f0[j]);
            assert(q != p);
        }
    }
    assert forall|q: Point|
        food_positions(f0).contains(q) && q != p implies food_positions(f1).contains(q) by {
        let j = choose|j: int| 0 <= j < f0.len() && (#[trigger] f0[j]).pos == q;
        if j == f0.len() - 1 {
            assert(j != idx);
            assert(f1[idx] == f0[f0.len() - 1]);
            assert(f1[idx].pos == q);
        } else {
            assert(j != idx || q == p);
            assert(f1[j] == f0[j]);
        }
    }
    assert(food_positions(f1) =~= food_positions(f0).remove(p));
    assert forall|a: int, b: int| 0 <= a < b < f1.len() implies (#[trigger] f1[a]).pos != (
    #[trigger] f1[b]).pos by {
        if a == idx {
            assert(f1[a] == f0[f0.len() - 1] && f1[b] == f0[b]);
        } else if b == idx {
            assert(f1[b] == f0[f0.len() - 1] && f1[a] == f0[a]);
        } else {
            assert(f1[a] == f0[a] && f1[b] == f0[b]);
        }
    }
}

impl Food {
    /// Replaces the active food with a fresh batch: a random count in
    /// `1 ..= min(MAX_FOOD_COUNT, free cells)`, each item popped from a
    /// random free cell, so food never lands on the snake or on other food.
    pub fn gen_foods(g: &mut Game)
        requires
            old(g).free_pos.wf(),
            old(g).free_pos@.len() > 0,
        ensures
            final(g).free_pos.wf(),
            final(g).snake == old(g).snake,
            final(g).state == old(g).state,
            final(g).time == old(g).time,
            final(g).update_time == old(g).update_time,
            1 <= final(g).foods@.len() <= MAX_FOOD_COUNT,
            final(g).foods@.len() <= old(g).free_pos@.len(),
            foods_distinct(final(g).foods@),
            food_positions(final(g).foods@).subset_of(old(g).free_pos@),
            final(g).free_pos@ == old(g).free_pos@.difference(food_positions(final(g).foods@)),
            final(g).free_pos@.len() + final(g).foods@.len() == old(g).free_pos@.len(),
    {
        let ghost free0 = g.free_pos@;
        let free_len = g.free_pos.len();
        let max = if MAX_FOOD_COUNT < free_len {
            MAX_FOOD_COUNT
        } else {
            free_len
        };
        let food_count = random_between(1, max);
        g.foods = Vec::with_capacity(food_count);
        proof {
            assert(food_positions(g.foods@) =~= Set::<Point>::empty());
            assert(g.free_pos@ =~= free0.difference(food_positions(g.foods@)));
        }
        let mut i: usize = 0;
        while i < food_count
            invariant
                i <= food_count,
                1 <= food_count <= MAX_FOOD_COUNT,
                food_count <= free0.len(),
                g.free_pos.wf(),
                g.snake == old(g).snake,
                g.state == old(g).state,
                g.time == old(g).time,
                g.update_time == old(g).update_time,
                g.foods@.len() == i,
                foods_distinct(g.foods@),
                food_positions(g.foods@).subset_of(free0),
                g.free_pos@ == free0.difference(food_positions(g.foods@)),
                g.free_pos@.len() + i == free0.len(),
            decreases food_count - i,
        {
            proof {
                g.free_pos.lemma_finite();
            }
            let p = g.free_pos.pop_random();
            let ghost foods0 = g.foods@;
            g.foods.push(Food { pos: p });
            i = i + 1;
            proof {
                assert(!food_positions(foods0).contains(p));
                assert(food_positions(g.foods@) =~= food_positions(foods0).insert(p)) by {
                    assert forall|q: Point| food_positions(foods0).insert(p).contains(q)
                        implies food_positions(g.foods@).contains(q) by {
                        if q == p {
                            assert(g.foods@[foods0.len() as int].pos == q);
                        } else {
                            let j = choose|j: int|
                                0 <= j < foods0.len() && (#[trigger] foods0[j]).pos == q;
                            assert(g.foods@[j].pos == q);
                        }
                    }
                }
                assert(g.free_pos@ =~= free0.difference(food_positions(g.foods@)));
            }
        }
    }
}

} // verus!
