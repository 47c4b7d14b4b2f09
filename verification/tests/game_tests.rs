use snake_core::game::{FrameSnapshot, Game};
use snake_core::snake::{Cell, ConfigError, Direction, Snake};

fn cell(x: usize, y: usize) -> Cell {
    Cell { x, y }
}

fn body_covers(body: &Vec<Cell>, c: &Cell) -> bool {
    body.iter().any(|b| b.x == c.x && b.y == c.y)
}

fn standard_game() -> Game {
    let snake = Snake::new(4, 4, 15, Direction::East).unwrap();
    Game::new(30, 30, snake, 42).unwrap()
}

#[test]
fn new_game_places_food_on_a_free_cell() {
    let g = standard_game();
    assert!(g.food.x < 30 && g.food.y < 30);
    assert!(!body_covers(&g.snake.body, &g.food));
    assert!(g.running);
    assert_eq!(g.score, 0);
}

#[test]
fn food_placement_follows_the_generator() {
    // The food is the free cell, in row-major order, at the index the
    // xorshift generator draws from the seed.
    fn xorshift(s: u64) -> u64 {
        let a = s ^ (s << 13);
        let b = a ^ (a >> 7);
        b ^ (b << 17)
    }
    let snake = Snake {
        body: vec![cell(1, 1)],
        heading: Direction::East,
        pending_heading: Direction::East,
        alive: true,
    };
    let g = Game::new(3, 3, snake, 5).unwrap();
    let mut free: Vec<Cell> = Vec::new();
    for y in 0..3 {
        for x in 0..3 {
            if !(x == 1 && y == 1) {
                free.push(cell(x, y));
            }
        }
    }
    let idx = (xorshift(5) % free.len() as u64) as usize;
    assert_eq!(g.food, free[idx]);
}

#[test]
fn new_game_rejects_snake_off_the_grid() {
    let snake = Snake::new(2, 10, 10, Direction::East).unwrap();
    assert_eq!(Game::new(5, 5, snake, 1).unwrap_err(), ConfigError::SnakeOutsideGrid);
}

#[test]
fn new_game_rejects_grid_with_no_room_for_food() {
    let snake = Snake::new(2, 0, 1, Direction::South).unwrap();
    assert_eq!(Game::new(1, 2, snake, 1).unwrap_err(), ConfigError::GridFull);
}

#[test]
fn first_tick_moves_head_east_and_keeps_length() {
    // Grid 30 by 30, snake of length 4 starting at (4, 15) heading east,
    // no pending change and no food ahead: the head moves to (5, 15), the
    // tail cell is popped, and the length stays 4.
    let mut g = standard_game();
    if g.food == cell(5, 15) {
        g.food = cell(0, 0);
    }
    g.update_snake();
    assert!(g.snake.alive);
    assert_eq!(g.snake.body, vec![cell(5, 15), cell(4, 15), cell(3, 15), cell(2, 15)]);
    assert_eq!(g.score, 0);
}

#[test]
fn eating_food_grows_the_snake_and_moves_the_food() {
    let mut g = standard_game();
    g.food = cell(5, 15);
    g.update_snake();
    assert!(g.snake.alive);
    assert_eq!(
        g.snake.body,
        vec![cell(5, 15), cell(4, 15), cell(3, 15), cell(2, 15), cell(1, 15)]
    );
    assert_eq!(g.score, 1);
    // The food was re-placed off the grown body, on the grid.
    assert!(g.food.x < 30 && g.food.y < 30);
    assert!(!body_covers(&g.snake.body, &g.food));
}

#[test]
fn length_grows_only_on_the_tick_that_eats() {
    let mut g = standard_game();
    g.food = cell(6, 15);
    g.update_snake();
    assert_eq!(g.snake.body.len(), 4);
    g.update_snake();
    assert_eq!(g.snake.body.len(), 5);
    assert_eq!(g.score, 1);
}

#[test]
fn food_stays_off_the_body_across_many_meals() {
    // Keep laying the food right ahead of the eastbound snake: every tick
    // eats, and every re-placement must land off the grown body.
    let mut g = standard_game();
    loop {
        let head = g.snake.body[0];
        if head.x + 1 >= 30 {
            break;
        }
        g.food = cell(head.x + 1, head.y);
        let len = g.snake.body.len();
        g.update_snake();
        assert!(g.snake.alive);
        assert_eq!(g.snake.body.len(), len + 1);
        assert!(!body_covers(&g.snake.body, &g.food));
        assert!(g.food.x < 30 && g.food.y < 30);
    }
    assert_eq!(g.score, 25);
    assert_eq!(g.snake.body.len(), 29);
}

#[test]
fn boundary_collision_freezes_snake_but_keeps_game_running() {
    let snake = Snake::new(2, 1, 0, Direction::East).unwrap();
    let mut g = Game::new(2, 3, snake, 7).unwrap();
    g.update_snake();
    assert!(!g.snake.alive);
    assert!(g.running);
    assert_eq!(g.snake.body, vec![cell(1, 0), cell(0, 0)]);
    // Further updates are no-ops on a dead snake.
    let frozen = g.snake.body.clone();
    g.update_snake();
    assert_eq!(g.snake.body, frozen);
    assert!(!g.snake.alive);
}

#[test]
fn quit_key_stops_a_running_game() {
    let mut g = standard_game();
    g.handle_input('q');
    assert!(!g.running);
}

#[test]
fn quit_while_dead_stops_the_game_without_further_updates() {
    // The snake dies, the game keeps running to show the game-over frame,
    // and the next drained batch carrying 'q' stops it.
    let snake = Snake::new(2, 1, 0, Direction::East).unwrap();
    let mut g = Game::new(2, 3, snake, 7).unwrap();
    g.update_snake();
    assert!(!g.snake.alive);
    assert!(g.running);
    let frozen = g.snake.body.clone();
    g.apply_events(&vec!['q']);
    assert!(!g.running);
    g.update_snake();
    assert_eq!(g.snake.body, frozen);
}

#[test]
fn direction_keys_buffer_a_heading() {
    let mut g = standard_game();
    g.handle_input('s');
    assert_eq!(g.snake.pending_heading, Direction::South);
    g.handle_input('w');
    assert_eq!(g.snake.pending_heading, Direction::North);
    assert_eq!(g.snake.heading, Direction::East);
}

#[test]
fn unrecognized_keys_are_ignored() {
    let mut g = standard_game();
    g.handle_input('x');
    g.handle_input(' ');
    assert!(g.running);
    assert_eq!(g.snake.pending_heading, Direction::East);
}

#[test]
fn reverse_key_is_ignored_while_longer_than_one_cell() {
    let mut g = standard_game();
    g.handle_input('a');
    assert_eq!(g.snake.pending_heading, Direction::East);
}

#[test]
fn last_direction_key_of_a_batch_wins() {
    let mut g = standard_game();
    g.apply_events(&vec!['s', 'w', 'd']);
    assert_eq!(g.snake.pending_heading, Direction::East);
    g.apply_events(&vec!['d', 's']);
    assert_eq!(g.snake.pending_heading, Direction::South);
}

#[test]
fn committed_heading_turns_the_snake() {
    let mut g = standard_game();
    if g.food == cell(5, 15) || g.food == cell(5, 16) {
        g.food = cell(0, 0);
    }
    g.update_snake();
    g.handle_input('s');
    g.update_snake();
    assert_eq!(g.snake.body[0], cell(5, 16));
    assert_eq!(g.snake.heading, Direction::South);
}

#[test]
fn self_collision_through_update_freezes_the_snake() {
    let snake = Snake::new(5, 4, 15, Direction::East).unwrap();
    let mut g = Game::new(30, 30, snake, 9).unwrap();
    g.food = cell(20, 20);
    g.apply_events(&vec!['s']);
    g.update_snake();
    g.food = cell(20, 20);
    g.apply_events(&vec!['a']);
    g.update_snake();
    g.food = cell(20, 20);
    g.apply_events(&vec!['w']);
    let before = g.snake.body.clone();
    g.update_snake();
    assert!(!g.snake.alive);
    assert_eq!(g.snake.body, before);
    assert!(g.running);
}

#[test]
fn render_map_reports_the_whole_state() {
    let mut g = standard_game();
    let snap: FrameSnapshot = g.render_map();
    assert_eq!(snap.width, 30);
    assert_eq!(snap.height, 30);
    assert_eq!(snap.body, g.snake.body);
    assert_eq!(snap.food, g.food);
    assert!(snap.alive);
    assert!(snap.running);
    assert_eq!(snap.score, 0);
    g.update_snake();
    let snap2 = g.render_map();
    assert_eq!(snap2.body, g.snake.body);
}
