use snake_game::{
    Action, Bijection, Dir, Food, Game, Point, Snake, State, BOARD_HEIGHT, BOARD_WIDTH,
    STEP_INTERVAL,
};
use std::collections::VecDeque;

fn pt(x: i16, y: i16) -> Point {
    Point { x, y }
}

fn body_of(cells: &[Point]) -> VecDeque<Point> {
    cells.iter().copied().collect()
}

fn free_excluding(occupied: &[Point]) -> Bijection {
    let mut b = Bijection::new();
    for x in 0..BOARD_WIDTH {
        for y in 0..BOARD_HEIGHT {
            let p = pt(x, y);
            if !occupied.contains(&p) {
                b.insert(p);
            }
        }
    }
    b
}

fn game_with(cells: &[Point], dir: Dir, foods: &[Point]) -> Game {
    let mut occupied: Vec<Point> = cells.to_vec();
    occupied.extend_from_slice(foods);
    Game {
        snake: Snake::new(body_of(cells), dir),
        time: STEP_INTERVAL,
        update_time: STEP_INTERVAL,
        state: State::Playing,
        foods: foods.iter().map(|&p| Food { pos: p }).collect(),
        free_pos: free_excluding(&occupied),
    }
}

fn snake_cells(g: &Game) -> Vec<Point> {
    g.snake.tail.iter().copied().collect()
}

fn board_area() -> usize {
    BOARD_WIDTH as usize * BOARD_HEIGHT as usize
}

#[test]
fn new_round_partitions_the_board() {
    let g = Game::new();
    assert_eq!(snake_cells(&g), vec![pt(2, 1), pt(2, 0)]);
    assert_eq!(g.state, State::Playing);
    assert!(1 <= g.foods.len() && g.foods.len() <= 6);
    // every cell is snake, free, or food, exactly once
    assert_eq!(
        g.snake.tail.len() + g.free_pos.len() + g.foods.len(),
        board_area()
    );
    for f in g.foods.iter() {
        assert!(0 <= f.pos.x && f.pos.x < BOARD_WIDTH);
        assert!(0 <= f.pos.y && f.pos.y < BOARD_HEIGHT);
        assert!(!g.free_pos.contains(f.pos));
        assert!(f.pos != pt(2, 1) && f.pos != pt(2, 0));
    }
    assert!(!g.free_pos.contains(pt(2, 1)));
    assert!(!g.free_pos.contains(pt(2, 0)));
}

#[test]
fn tick_below_interval_changes_only_the_accumulator() {
    let mut g = Game::new();
    // the accumulator starts primed, so the first tick steps at once
    g.update(1);
    let cells = snake_cells(&g);
    let foods = g.foods.clone();
    let time = g.time;
    // now the accumulator is far below the interval: nothing may change
    g.update(17);
    assert_eq!(snake_cells(&g), cells);
    assert_eq!(g.foods, foods);
    assert_eq!(g.state, State::Playing);
    assert_eq!(g.time, time + 17);
}

#[test]
fn step_moves_head_down_one_cell() {
    let mut g = game_with(&[pt(2, 1), pt(2, 0)], Dir::Down, &[pt(10, 10)]);
    g.update(1);
    assert_eq!(snake_cells(&g), vec![pt(2, 2), pt(2, 1)]);
    assert_eq!(g.state, State::Playing);
    // the vacated tail cell is free again, the new head cell is not
    assert!(g.free_pos.contains(pt(2, 0)));
    assert!(!g.free_pos.contains(pt(2, 2)));
}

#[test]
fn queued_direction_turns_the_snake() {
    let mut g = game_with(&[pt(5, 5), pt(4, 5)], Dir::Right, &[pt(10, 10)]);
    g.key_press(Action::Move(Dir::Up));
    g.update(1);
    assert_eq!(snake_cells(&g), vec![pt(5, 4), pt(5, 5)]);
}

#[test]
fn reversal_is_dropped_from_the_queue() {
    let mut s = Snake::new(body_of(&[pt(5, 5), pt(4, 5)]), Dir::Right);
    s.key_press(Dir::Left);
    assert!(s.keys.is_empty());
    assert_eq!(s.last_pressed, Dir::Right);
    s.key_press(Dir::Up);
    assert_eq!(s.keys.iter().copied().collect::<Vec<_>>(), vec![Dir::Up]);
    // a reversal of the most recently queued direction is dropped too
    s.key_press(Dir::Down);
    assert_eq!(s.keys.iter().copied().collect::<Vec<_>>(), vec![Dir::Up]);
}

#[test]
fn reversal_does_not_change_course() {
    let mut g = game_with(&[pt(5, 5), pt(4, 5)], Dir::Right, &[pt(10, 10)]);
    g.key_press(Action::Move(Dir::Left));
    g.update(1);
    // the snake keeps moving right
    assert_eq!(snake_cells(&g), vec![pt(6, 5), pt(5, 5)]);
}

#[test]
fn queued_turns_are_consumed_in_order() {
    let mut g = game_with(&[pt(5, 5), pt(4, 5)], Dir::Right, &[pt(12, 11)]);
    g.key_press(Action::Move(Dir::Up));
    g.key_press(Action::Move(Dir::Right));
    g.update(1);
    assert_eq!(*g.snake.tail.front().unwrap(), pt(5, 4));
    g.update(STEP_INTERVAL + 1);
    assert_eq!(*g.snake.tail.front().unwrap(), pt(6, 4));
    // with the queue drained, the last direction repeats
    g.update(STEP_INTERVAL + 1);
    assert_eq!(*g.snake.tail.front().unwrap(), pt(7, 4));
}

#[test]
fn eating_grows_the_snake_and_consumes_the_item() {
    let mut g = game_with(&[pt(2, 1), pt(2, 0)], Dir::Down, &[pt(2, 2), pt(10, 10)]);
    let free_before = g.free_pos.len();
    g.update(1);
    assert_eq!(snake_cells(&g), vec![pt(2, 2), pt(2, 1), pt(2, 0)]);
    assert_eq!(g.state, State::Playing);
    // the eaten item is gone, the other remains, no batch was regenerated
    assert_eq!(g.foods.len(), 1);
    assert_eq!(g.foods[0].pos, pt(10, 10));
    // the free set is untouched: the eaten cell was food, not free
    assert_eq!(g.free_pos.len(), free_before);
    // one cell moved from the food pool to the snake
    assert_eq!(
        g.snake.tail.len() + g.free_pos.len() + g.foods.len(),
        board_area()
    );
}

#[test]
fn eating_the_last_item_regenerates_a_batch() {
    let mut g = game_with(&[pt(2, 1), pt(2, 0)], Dir::Down, &[pt(2, 2)]);
    g.update(1);
    assert_eq!(g.state, State::Playing);
    assert_eq!(g.snake.tail.len(), 3);
    assert!(1 <= g.foods.len() && g.foods.len() <= 6);
    for f in g.foods.iter() {
        // fresh food never lands on the snake
        assert!(!snake_cells(&g).contains(&f.pos));
        assert!(!g.free_pos.contains(f.pos));
    }
    assert_eq!(
        g.snake.tail.len() + g.free_pos.len() + g.foods.len(),
        board_area()
    );
}

#[test]
fn biting_the_body_ends_the_round() {
    // head (2,2) about to move down into (2,3), which the body occupies
    let cells = [pt(2, 2), pt(3, 2), pt(3, 3), pt(2, 3), pt(1, 3)];
    let mut g = game_with(&cells, Dir::Down, &[pt(10, 10)]);
    let free_before = g.free_pos.len();
    g.update(1);
    assert_eq!(g.state, State::GameOver);
    // the head is still recorded for the final frame
    assert_eq!(g.snake.tail.len(), 6);
    assert_eq!(*g.snake.tail.front().unwrap(), pt(2, 3));
    // occupancy did not change
    assert_eq!(g.free_pos.len(), free_before);
    assert_eq!(g.foods.len(), 1);
}

#[test]
fn hitting_the_wall_ends_the_round() {
    let mut g = game_with(&[pt(0, 0), pt(1, 0)], Dir::Left, &[pt(10, 10)]);
    g.update(1);
    assert_eq!(g.state, State::GameOver);
    assert_eq!(*g.snake.tail.front().unwrap(), pt(-1, 0));
    // a finished round ignores further ticks
    let cells = snake_cells(&g);
    g.update(STEP_INTERVAL + 1);
    assert_eq!(snake_cells(&g), cells);
    assert_eq!(g.state, State::GameOver);
}

#[test]
fn filling_the_board_wins() {
    // the snake holds every cell but (0,0), where the last food sits;
    // the head at (1,0) is about to move left onto it
    let mut cells = vec![pt(1, 0)];
    for x in 0..BOARD_WIDTH {
        for y in 0..BOARD_HEIGHT {
            let p = pt(x, y);
            if p != pt(0, 0) && p != pt(1, 0) {
                cells.push(p);
            }
        }
    }
    let mut g = game_with(&cells, Dir::Left, &[pt(0, 0)]);
    assert_eq!(g.free_pos.len(), 0);
    g.update(1);
    assert_eq!(g.state, State::GameOver);
    assert_eq!(g.snake.tail.len(), board_area());
    assert!(g.foods.is_empty());
}

#[test]
fn pause_freezes_the_simulation() {
    let mut g = Game::new();
    g.key_press(Action::TogglePause);
    assert_eq!(g.state, State::Paused);
    let cells = snake_cells(&g);
    g.update(10 * STEP_INTERVAL);
    assert_eq!(snake_cells(&g), cells);
    g.key_press(Action::TogglePause);
    assert_eq!(g.state, State::Playing);
}

#[test]
fn pause_does_not_revive_a_finished_round() {
    let mut g = game_with(&[pt(0, 0), pt(1, 0)], Dir::Left, &[pt(10, 10)]);
    g.update(1);
    assert_eq!(g.state, State::GameOver);
    g.key_press(Action::TogglePause);
    assert_eq!(g.state, State::GameOver);
}

#[test]
fn restart_returns_to_the_seed_state() {
    let mut g = Game::new();
    g.update(1);
    g.key_press(Action::Move(Dir::Right));
    g.update(STEP_INTERVAL);
    g.key_press(Action::Restart);
    assert_eq!(snake_cells(&g), vec![pt(2, 1), pt(2, 0)]);
    assert_eq!(g.state, State::Playing);
    assert!(g.snake.keys.is_empty());
    assert_eq!(g.snake.last_pressed, Dir::Down);
    assert!(1 <= g.foods.len() && g.foods.len() <= 6);
    for f in g.foods.iter() {
        assert!(f.pos != pt(2, 1) && f.pos != pt(2, 0));
        assert!(!g.free_pos.contains(f.pos));
    }
    assert!(!g.free_pos.contains(pt(2, 1)));
    assert!(!g.free_pos.contains(pt(2, 0)));
    assert_eq!(
        g.snake.tail.len() + g.free_pos.len() + g.foods.len(),
        board_area()
    );
}

#[test]
fn restart_works_after_a_loss() {
    let mut g = game_with(&[pt(0, 0), pt(1, 0)], Dir::Left, &[pt(10, 10)]);
    g.update(1);
    assert_eq!(g.state, State::GameOver);
    g.key_press(Action::Restart);
    assert_eq!(g.state, State::Playing);
    assert_eq!(snake_cells(&g), vec![pt(2, 1), pt(2, 0)]);
}

#[test]
fn no_cell_is_both_snake_and_free() {
    let mut g = Game::new();
    for _ in 0..20 {
        g.update(STEP_INTERVAL + 1);
        if g.state != State::Playing {
            break;
        }
        for p in g.snake.tail.iter() {
            assert!(!g.free_pos.contains(*p));
        }
        assert_eq!(
            g.snake.tail.len() + g.free_pos.len() + g.foods.len(),
            board_area()
        );
    }
}
