use snake_core::game::Direction;
use snake_core::game::SnakeGame;
use snake_core::game::EMPTY_COLOR;
use snake_core::game::FOOD_COLOR;
use snake_core::game::GRID_DIMENSIONS;
use snake_core::game::SNAKE_COLOR;
use snake_core::game::SQUARE_SIZE;

fn state(
    grid_dimensions: usize,
    snake: Vec<usize>,
    direction: Direction,
    food: usize,
    dead: bool,
) -> SnakeGame {
    SnakeGame {
        grid_dimensions,
        snake_position: snake,
        snake_direction: direction,
        food,
        dead,
        windows_buffer: Vec::new(),
    }
}

#[test]
fn center_walk_right_until_wall() {
    // Grid of side 5, snake in the center cell, food well away.
    let mut g = state(5, vec![12], Direction::Still, 7, false);
    g.set_direction(Direction::Right);
    assert_eq!(g.snake_direction, Direction::Right);
    g.move_snake();
    assert_eq!(g.snake_position, vec![13]);
    assert!(!g.dead);
    g.move_snake();
    assert_eq!(g.snake_position, vec![14]);
    assert!(!g.dead);
    // Head 14 sits in the last column: the next move kills, without moving.
    g.move_snake();
    assert!(g.dead);
    assert_eq!(g.snake_position, vec![14]);
}

#[test]
fn head_offsets_per_direction() {
    for (direction, expected) in [
        (Direction::Up, 7),
        (Direction::Down, 17),
        (Direction::Left, 11),
        (Direction::Right, 13),
    ] {
        let mut g = state(5, vec![12], direction, 24, false);
        g.move_snake();
        assert_eq!(g.snake_position, vec![expected]);
        assert!(!g.dead);
    }
}

#[test]
fn wall_hits_kill_on_the_pre_move_head() {
    for (start, direction) in [
        (2, Direction::Up),
        (22, Direction::Down),
        (10, Direction::Left),
        (14, Direction::Right),
    ] {
        let mut g = state(5, vec![start], direction, 7, false);
        g.move_snake();
        assert!(g.dead);
        assert_eq!(g.snake_position, vec![start]);
    }
}

#[test]
fn left_move_does_not_wrap_rows() {
    // Head in column 0 of the second row: a naive index decrement would
    // wrap to the first row; the move must kill instead.
    let mut g = state(5, vec![5], Direction::Left, 7, false);
    g.move_snake();
    assert!(g.dead);
    assert_eq!(g.snake_position, vec![5]);
}

#[test]
fn eating_grows_by_exactly_one() {
    let mut g = state(5, vec![12], Direction::Right, 13, false);
    g.move_snake();
    assert_eq!(g.snake_position, vec![13, 12]);
    assert!(!g.dead);
    // The food was relocated to a cell off the snake.
    assert!(g.food < 25);
    assert!(!g.snake_position.contains(&g.food));
}

#[test]
fn normal_move_keeps_length() {
    let mut g = state(5, vec![12, 11], Direction::Right, 7, false);
    g.move_snake();
    assert_eq!(g.snake_position, vec![13, 12]);
    assert!(!g.dead);
    assert_eq!(g.food, 7);
}

#[test]
fn self_collision_kills_and_keeps_the_tail() {
    // Moving right onto the own body: death, with the candidate head
    // inserted and the tail not removed.
    let mut g = state(5, vec![12, 13], Direction::Right, 7, false);
    g.move_snake();
    assert!(g.dead);
    assert_eq!(g.snake_position, vec![13, 12, 13]);
}

#[test]
fn revisiting_the_old_tail_cell_is_deadly() {
    // Landing on a free cell is a normal move, but landing on the tail
    // cell kills: the tail still counts as occupied on the tick of the
    // move, even though a normal move would have vacated it.
    let mut g = state(2, vec![0, 1], Direction::Down, 3, false);
    g.move_snake();
    assert_eq!(g.snake_position, vec![2, 0]);
    let mut g = state(2, vec![0, 2], Direction::Still, 3, false);
    g.set_direction(Direction::Down);
    g.move_snake();
    assert!(g.dead);
    assert_eq!(g.snake_position, vec![2, 0, 2]);
}

#[test]
fn still_direction_is_a_no_op_tick() {
    let mut g = state(5, vec![12], Direction::Still, 7, false);
    g.move_snake();
    assert_eq!(g.snake_position, vec![12]);
    assert_eq!(g.snake_direction, Direction::Still);
    assert_eq!(g.food, 7);
    assert!(!g.dead);
}

#[test]
fn reversal_is_ignored_and_other_turns_are_accepted() {
    let mut g = state(5, vec![12], Direction::Right, 7, false);
    g.set_direction(Direction::Left);
    assert_eq!(g.snake_direction, Direction::Right);
    g.set_direction(Direction::Right);
    assert_eq!(g.snake_direction, Direction::Right);
    g.set_direction(Direction::Up);
    assert_eq!(g.snake_direction, Direction::Up);
    g.set_direction(Direction::Down);
    assert_eq!(g.snake_direction, Direction::Up);
    g.set_direction(Direction::Left);
    assert_eq!(g.snake_direction, Direction::Left);
}

#[test]
fn dead_snake_ignores_intents_and_ticks() {
    let mut g = state(5, vec![12, 13], Direction::Right, 7, true);
    g.set_direction(Direction::Up);
    assert_eq!(g.snake_direction, Direction::Right);
    g.move_snake();
    assert_eq!(g.snake_position, vec![12, 13]);
    assert_eq!(g.snake_direction, Direction::Right);
    assert_eq!(g.food, 7);
    assert!(g.dead);
}

#[test]
fn create_food_avoids_a_nearly_full_grid() {
    // All cells of a 3-grid but one are occupied: the food must land on
    // the single free cell, every time.
    for _ in 0..50 {
        let mut g = state(3, vec![0, 1, 2, 3, 4, 5, 6, 7], Direction::Still, 0, false);
        g.create_food();
        assert_eq!(g.food, 8);
    }
}

#[test]
fn create_food_never_lands_on_the_snake() {
    for _ in 0..200 {
        let mut g = state(5, vec![0, 5, 10, 15, 20, 21, 22], Direction::Still, 0, false);
        g.create_food();
        assert!(g.food < 25);
        assert!(!g.snake_position.contains(&g.food));
    }
}

#[test]
fn eating_on_a_nearly_full_grid_relocates_to_the_free_cell() {
    // Snake fills all of a 3-grid but cells 5 and 8; eating on 5 leaves
    // 8 as the only free cell.
    let mut g = state(3, vec![4, 3, 0, 1, 2, 6, 7], Direction::Right, 5, false);
    g.move_snake();
    assert_eq!(g.snake_position, vec![5, 4, 3, 0, 1, 2, 6, 7]);
    assert!(!g.dead);
    assert_eq!(g.food, 8);
}

#[test]
fn new_game_starts_alive_still_and_consistent() {
    let g = SnakeGame::new();
    assert_eq!(g.grid_dimensions, GRID_DIMENSIONS);
    assert_eq!(g.snake_position.len(), 1);
    assert_eq!(g.snake_direction, Direction::Still);
    assert!(!g.dead);
    assert!(g.snake_position[0] < GRID_DIMENSIONS * GRID_DIMENSIONS);
    assert!(g.food < GRID_DIMENSIONS * GRID_DIMENSIONS);
    assert_ne!(g.food, g.snake_position[0]);
    let side = GRID_DIMENSIONS * SQUARE_SIZE;
    assert_eq!(g.windows_buffer.len(), side * side);
    assert!(g.windows_buffer.iter().all(|&p| p == EMPTY_COLOR));
}

#[test]
fn reset_after_death_revives_with_a_fresh_single_cell_snake() {
    for _ in 0..20 {
        let mut g = state(5, vec![12, 13, 14], Direction::Right, 7, true);
        g.reset();
        assert_eq!(g.grid_dimensions, 5);
        assert_eq!(g.snake_position.len(), 1);
        assert_eq!(g.snake_direction, Direction::Still);
        assert!(!g.dead);
        assert!(g.snake_position[0] < 25);
        assert!(g.food < 25);
        assert_ne!(g.food, g.snake_position[0]);
        let side = 5 * SQUARE_SIZE;
        assert_eq!(g.windows_buffer.len(), side * side);
        assert!(g.windows_buffer.iter().all(|&p| p == EMPTY_COLOR));
    }
}

#[test]
fn rendered_frame_paints_snake_food_and_background() {
    let mut g = state(2, vec![1], Direction::Still, 2, false);
    g.update_buffer();
    let side = 2 * SQUARE_SIZE;
    assert_eq!(g.windows_buffer.len(), side * side);
    let pixel = |px: usize, py: usize| g.windows_buffer[py * side + px];
    // Cell 0 (top left): background. Cell 1 (top right): snake.
    assert_eq!(pixel(0, 0), EMPTY_COLOR);
    assert_eq!(pixel(SQUARE_SIZE - 1, SQUARE_SIZE - 1), EMPTY_COLOR);
    assert_eq!(pixel(SQUARE_SIZE, 0), SNAKE_COLOR);
    assert_eq!(pixel(2 * SQUARE_SIZE - 1, SQUARE_SIZE - 1), SNAKE_COLOR);
    // Cell 2 (bottom left): food. Cell 3 (bottom right): background.
    assert_eq!(pixel(0, SQUARE_SIZE), FOOD_COLOR);
    assert_eq!(pixel(SQUARE_SIZE - 1, 2 * SQUARE_SIZE - 1), FOOD_COLOR);
    assert_eq!(pixel(SQUARE_SIZE, SQUARE_SIZE), EMPTY_COLOR);
    // The rendering does not touch the simulation fields.
    assert_eq!(g.snake_position, vec![1]);
    assert_eq!(g.food, 2);
    assert!(!g.dead);
}

#[test]
fn rendered_frame_blocks_are_uniform() {
    let mut g = state(2, vec![3], Direction::Still, 0, false);
    g.update_buffer();
    let side = 2 * SQUARE_SIZE;
    for py in 0..side {
        for px in 0..side {
            let cell = (py / SQUARE_SIZE) * 2 + px / SQUARE_SIZE;
            let expected = if cell == 3 {
                SNAKE_COLOR
            } else if cell == 0 {
                FOOD_COLOR
            } else {
                EMPTY_COLOR
            };
            assert_eq!(g.windows_buffer[py * side + px], expected);
        }
    }
}
