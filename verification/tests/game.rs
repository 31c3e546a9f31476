use rust_snake::map::{Grid, Tile};
use rust_snake::snake::Direction;
use rust_snake::{Game, State, INITIAL_SNAKE_SIZE};

fn tiles<const W: usize, const H: usize>(game: &Game<W, H>) -> Vec<Vec<Tile>> {
    game.display(|grid: &Grid<W, H>| {
        (0..W).map(|x| (0..H).map(|y| grid.get(x, y)).collect()).collect()
    })
}

fn cells_of(tiles: &[Vec<Tile>], tile: Tile) -> Vec<(usize, usize)> {
    let mut found = Vec::new();
    for (x, column) in tiles.iter().enumerate() {
        for (y, t) in column.iter().enumerate() {
            if *t == tile {
                found.push((x, y));
            }
        }
    }
    found
}

fn head<const W: usize, const H: usize>(game: &Game<W, H>) -> (isize, isize) {
    (game.snake().x(), game.snake().y())
}

#[test]
fn initial_size_is_three() {
    assert_eq!(INITIAL_SNAKE_SIZE, 3);
}

#[test]
fn new_game_is_paused_with_snake_in_the_middle() {
    let game = Game::<10, 8>::new();
    assert!(game.state == State::Paused);
    assert_eq!(head(&game), (5, 4));
    assert_eq!(game.snake().size, 3);
    let t = tiles(&game);
    assert_eq!(cells_of(&t, Tile::Snake), vec![(5, 4)]);
    assert_eq!(cells_of(&t, Tile::Food).len(), 1);
    assert_eq!(cells_of(&t, Tile::Empty).len(), 78);
}

#[test]
fn new_game_on_the_smallest_field() {
    for _ in 0..20 {
        let game = Game::<2, 1>::new();
        let t = tiles(&game);
        assert_eq!(t[1][0], Tile::Snake);
        assert_eq!(t[0][0], Tile::Food);
    }
}

#[test]
fn food_is_never_put_on_a_taken_cell() {
    // One free cell only: the draw must hit it each time.
    for _ in 0..50 {
        let mut game = Game::<2, 2>::with_start(0, 0, 3, 0, 1).unwrap();
        game.create_food();
        let t = tiles(&game);
        assert_eq!(t[0][0], Tile::Snake);
        assert_eq!(t[0][1], Tile::Food);
        let food = cells_of(&t, Tile::Food);
        assert_eq!(food.len(), 2);
        assert_eq!(cells_of(&t, Tile::Empty).len(), 1);
        assert!(game.state == State::Paused);
    }
}

#[test]
fn food_leaves_the_head_alone() {
    for _ in 0..50 {
        let mut game = Game::<3, 3>::with_start(0, 0, 3, 1, 1).unwrap();
        game.create_food();
        let t = tiles(&game);
        assert_eq!(t[0][0], Tile::Snake);
        assert_eq!(t[1][1], Tile::Food);
        assert_eq!(cells_of(&t, Tile::Food).len(), 2);
        assert_eq!(cells_of(&t, Tile::Snake).len(), 1);
    }
}

#[test]
fn food_reaches_every_free_cell() {
    let mut seen = [[false; 2]; 2];
    for _ in 0..400 {
        let game = Game::<2, 2>::new();
        let food = cells_of(&tiles(&game), Tile::Food);
        assert_eq!(food.len(), 1);
        seen[food[0].0][food[0].1] = true;
    }
    assert!(seen[0][0] && seen[0][1] && seen[1][0]);
    assert!(!seen[1][1]);
}

#[test]
fn create_food_on_a_full_field_ends_the_game() {
    let mut game = Game::<2, 1>::with_start(0, 0, 3, 1, 0).unwrap();
    let before = tiles(&game);
    game.create_food();
    assert!(game.state == State::GameOver);
    assert_eq!(tiles(&game), before);
}

#[test]
fn with_start_builds_what_it_is_told() {
    let game = Game::<3, 3>::with_start(1, 0, 1, 0, 0).unwrap();
    assert!(game.state == State::Paused);
    assert_eq!(head(&game), (1, 0));
    assert_eq!(game.snake().size, 1);
    let t = tiles(&game);
    assert_eq!(cells_of(&t, Tile::Snake), vec![(1, 0)]);
    assert_eq!(cells_of(&t, Tile::Food), vec![(0, 0)]);
}

#[test]
fn with_start_refuses_what_cannot_be() {
    assert!(Game::<3, 3>::with_start(3, 0, 1, 0, 0).is_none());
    assert!(Game::<3, 3>::with_start(0, 3, 1, 0, 0).is_none());
    assert!(Game::<3, 3>::with_start(1, 1, 1, 3, 0).is_none());
    assert!(Game::<3, 3>::with_start(1, 1, 1, 0, 3).is_none());
    assert!(Game::<3, 3>::with_start(1, 1, 1, 1, 1).is_none());
    assert!(Game::<3, 3>::with_start(1, 1, usize::MAX, 0, 0).is_none());
    assert!(Game::<3, 3>::with_start(1, 1, isize::MAX as usize, 0, 0).is_some());
    assert!(Game::<1, 1>::with_start(0, 0, 1, 0, 0).is_none());
}

#[test]
fn turn_snake_ignores_a_reversal() {
    let mut game = Game::<5, 5>::with_start(2, 2, 3, 0, 0).unwrap();
    game.turn_snake(Direction::Right);
    game.turn_snake(Direction::Left);
    assert!(game.state == State::Paused);
    game.move_snake();
    assert_eq!(head(&game), (3, 2));
    game.turn_snake(Direction::Up);
    game.move_snake();
    assert_eq!(head(&game), (3, 1));
    game.turn_snake(Direction::Down);
    game.move_snake();
    assert_eq!(head(&game), (3, 0));
    assert!(game.state == State::Paused);
}

#[test]
fn move_onto_an_empty_cell() {
    let mut game = Game::<5, 5>::with_start(2, 2, 3, 0, 0).unwrap();
    game.state = State::Running;
    game.turn_snake(Direction::Down);
    game.move_snake();
    assert!(game.state == State::Running);
    assert_eq!(head(&game), (2, 3));
    assert_eq!(game.snake().size, 3);
    let t = tiles(&game);
    assert_eq!(cells_of(&t, Tile::Snake), vec![(2, 2), (2, 3)]);
    assert_eq!(cells_of(&t, Tile::Food), vec![(0, 0)]);
}

#[test]
fn snake_at_full_length_covers_as_many_cells_as_its_size() {
    let mut game = Game::<8, 1>::with_start(0, 0, 2, 7, 0).unwrap();
    game.turn_snake(Direction::Right);
    game.move_snake();
    assert_eq!(cells_of(&tiles(&game), Tile::Snake), vec![(0, 0), (1, 0)]);
    game.move_snake();
    assert_eq!(cells_of(&tiles(&game), Tile::Snake), vec![(1, 0), (2, 0)]);
    game.move_snake();
    assert_eq!(cells_of(&tiles(&game), Tile::Snake), vec![(2, 0), (3, 0)]);
    assert_eq!(game.snake().size, 2);
    assert!(game.state == State::Paused);
}

#[test]
fn snake_may_follow_its_own_tail() {
    // A snake of four cells on a square of four: the cell ahead is always the
    // one that its trail has just given up.
    let mut game = Game::<3, 2>::with_start(0, 0, 4, 2, 0).unwrap();
    let round = [Direction::Down, Direction::Right, Direction::Up, Direction::Left];
    for lap in 0..3 {
        for dir in round {
            game.turn_snake(dir);
            game.move_snake();
            assert!(game.state == State::Paused, "lap {}", lap);
        }
        assert_eq!(head(&game), (0, 0));
    }
    let t = tiles(&game);
    assert_eq!(cells_of(&t, Tile::Snake).len(), 4);
    assert_eq!(cells_of(&t, Tile::Food), vec![(2, 0)]);
}

#[test]
fn snake_one_cell_longer_catches_its_tail() {
    let mut game = Game::<3, 2>::with_start(0, 0, 5, 2, 0).unwrap();
    for dir in [Direction::Down, Direction::Right, Direction::Up] {
        game.turn_snake(dir);
        game.move_snake();
        assert!(game.state == State::Paused);
    }
    game.turn_snake(Direction::Left);
    game.move_snake();
    assert!(game.state == State::GameOver);
}

#[test]
fn eating_grows_the_snake_and_brings_new_food() {
    for _ in 0..30 {
        let mut game = Game::<4, 4>::with_start(1, 1, 3, 2, 1).unwrap();
        game.turn_snake(Direction::Right);
        let before = tiles(&game);
        game.move_snake();
        assert!(game.state == State::Paused);
        assert_eq!(head(&game), (2, 1));
        assert_eq!(game.snake().size, 4);
        let t = tiles(&game);
        assert_eq!(cells_of(&t, Tile::Snake), vec![(1, 1), (2, 1)]);
        let food = cells_of(&t, Tile::Food);
        assert_eq!(food.len(), 1);
        assert_ne!(food[0], (2, 1));
        assert_eq!(before[food[0].0][food[0].1], Tile::Empty);
        assert_eq!(cells_of(&t, Tile::Empty).len(), 13);
    }
}

#[test]
fn eating_the_last_food_on_a_full_field_ends_the_game() {
    let mut game = Game::<2, 1>::with_start(0, 0, 3, 1, 0).unwrap();
    game.turn_snake(Direction::Right);
    game.move_snake();
    assert!(game.state == State::GameOver);
    assert_eq!(game.snake().size, 4);
    assert_eq!(head(&game), (1, 0));
    let t = tiles(&game);
    assert_eq!(cells_of(&t, Tile::Snake), vec![(0, 0), (1, 0)]);
    assert!(cells_of(&t, Tile::Food).is_empty());
}

#[test]
fn running_into_the_snake_ends_the_game() {
    let mut game = Game::<5, 5>::with_start(2, 2, 5, 0, 0).unwrap();
    game.state = State::Running;
    for dir in [Direction::Right, Direction::Down, Direction::Left] {
        game.turn_snake(dir);
        game.move_snake();
        assert!(game.state == State::Running);
    }
    let before = tiles(&game);
    game.turn_snake(Direction::Up);
    game.move_snake();
    assert!(game.state == State::GameOver);
    assert_eq!(head(&game), (2, 2));
    assert_eq!(game.snake().size, 5);
    assert_eq!(tiles(&game), before);
    game.move_snake();
    assert!(game.state == State::GameOver);
    game.move_snake();
    assert!(game.state == State::GameOver);
}

#[test]
fn snake_that_stands_still_runs_into_itself() {
    let mut game = Game::<5, 5>::new();
    let before = tiles(&game);
    game.move_snake();
    assert!(game.state == State::GameOver);
    assert_eq!(head(&game), (2, 2));
    assert_eq!(tiles(&game), before);
}

#[test]
fn leaving_the_field_ends_the_game_on_every_side() {
    let ways = [
        (Direction::Left, (0, 1), (-1, 1)),
        (Direction::Right, (2, 1), (3, 1)),
        (Direction::Up, (1, 0), (1, -1)),
        (Direction::Down, (1, 2), (1, 3)),
    ];
    for (dir, start, end) in ways {
        let food = if start == (0, 1) { (2, 2) } else { (0, 1) };
        let mut game = Game::<3, 3>::with_start(start.0, start.1, 3, food.0, food.1).unwrap();
        let before = tiles(&game);
        game.turn_snake(dir);
        game.move_snake();
        assert!(game.state == State::GameOver);
        assert_eq!(head(&game), end);
        assert_eq!(tiles(&game), before);
        assert_eq!(game.snake().size, 3);
    }
}

#[test]
fn leaving_the_field_still_frees_the_oldest_cell() {
    let mut game = Game::<3, 1>::with_start(1, 0, 1, 0, 0).unwrap();
    game.turn_snake(Direction::Right);
    game.move_snake();
    assert!(game.state == State::Paused);
    assert_eq!(cells_of(&tiles(&game), Tile::Snake), vec![(2, 0)]);
    game.move_snake();
    assert!(game.state == State::GameOver);
    assert_eq!(head(&game), (3, 0));
    let t = tiles(&game);
    assert!(cells_of(&t, Tile::Snake).is_empty());
    assert_eq!(cells_of(&t, Tile::Food), vec![(0, 0)]);
}

#[test]
fn eating_until_the_field_is_full() {
    let mut game = Game::<3, 1>::with_start(0, 0, 2, 1, 0).unwrap();
    game.turn_snake(Direction::Right);
    game.move_snake();
    assert_eq!(game.snake().size, 3);
    assert!(game.state == State::Paused);
    assert_eq!(cells_of(&tiles(&game), Tile::Food), vec![(2, 0)]);
    game.move_snake();
    assert_eq!(game.snake().size, 4);
    assert!(game.state == State::GameOver);
    let t = tiles(&game);
    assert_eq!(cells_of(&t, Tile::Snake), vec![(0, 0), (1, 0), (2, 0)]);
    assert!(cells_of(&t, Tile::Food).is_empty());
}

#[test]
fn game_over_is_kept() {
    let mut game = Game::<5, 5>::new();
    game.game_over();
    assert!(game.state == State::GameOver);
    game.game_over();
    assert!(game.state == State::GameOver);
    game.turn_snake(Direction::Left);
    assert!(game.state == State::GameOver);
    game.move_snake();
    assert!(game.state == State::GameOver);
}

#[test]
fn game_over_leaves_field_and_snake_alone() {
    let mut game = Game::<5, 5>::with_start(1, 2, 3, 4, 4).unwrap();
    let before = tiles(&game);
    game.game_over();
    assert_eq!(tiles(&game), before);
    assert_eq!(head(&game), (1, 2));
    assert_eq!(game.snake().size, 3);
}

#[test]
fn restart_starts_over() {
    let mut game = Game::<6, 4>::with_start(0, 0, 7, 1, 0).unwrap();
    game.turn_snake(Direction::Right);
    game.move_snake();
    game.move_snake();
    game.turn_snake(Direction::Up);
    game.move_snake();
    assert!(game.state == State::GameOver);
    game.restart();
    assert!(game.state == State::Paused);
    assert_eq!(head(&game), (3, 2));
    assert_eq!(game.snake().size, 3);
    let t = tiles(&game);
    assert_eq!(cells_of(&t, Tile::Snake), vec![(3, 2)]);
    assert_eq!(cells_of(&t, Tile::Food).len(), 1);
    assert_eq!(cells_of(&t, Tile::Empty).len(), 22);
    // The new snake faces no way: a turn down is taken, though the old snake
    // went up.
    game.turn_snake(Direction::Down);
    game.move_snake();
    assert_eq!(head(&game), (3, 3));
}

#[test]
fn restart_forgets_the_trail() {
    let mut game = Game::<7, 7>::with_start(3, 3, 3, 0, 0).unwrap();
    game.turn_snake(Direction::Right);
    game.move_snake();
    game.move_snake();
    game.restart();
    game.turn_snake(Direction::Left);
    game.move_snake();
    game.move_snake();
    // With the old trail kept, the cut would have come two ticks early.
    let snake = cells_of(&tiles(&game), Tile::Snake);
    assert_eq!(snake, vec![(1, 3), (2, 3), (3, 3)]);
}

#[test]
fn display_hands_back_what_the_closure_returns() {
    let game = Game::<4, 4>::with_start(1, 1, 3, 2, 3).unwrap();
    assert_eq!(game.display(|_grid| 17), 17);
    assert_eq!(game.display(|grid| grid.get(2, 3)), Tile::Food);
    assert_eq!(game.display(|grid| grid.get(1, 1)), Tile::Snake);
    assert_eq!(game.display(|grid| grid.get(0, 0)), Tile::Empty);
    assert!(game.display(|grid| grid.in_bounds(3, 3)));
}

#[test]
fn three_moves_to_the_right_leave_a_field_of_five() {
    let mut game = Game::<5, 5>::new();
    assert_eq!(head(&game), (2, 2));
    assert_eq!(game.snake().size, 3);
    game.turn_snake(Direction::Right);
    game.move_snake();
    assert_eq!(head(&game), (3, 2));
    assert!(game.state != State::GameOver);
    game.move_snake();
    assert_eq!(head(&game), (4, 2));
    assert!(game.state != State::GameOver);
    game.move_snake();
    assert!(game.state == State::GameOver);
    game.move_snake();
    assert!(game.state == State::GameOver);
}

#[test]
fn snake_of_one_eats_at_the_corner() {
    let mut game = Game::<3, 3>::with_start(1, 0, 1, 0, 0).unwrap();
    game.turn_snake(Direction::Left);
    let before = tiles(&game);
    game.move_snake();
    assert_eq!(head(&game), (0, 0));
    assert_eq!(game.snake().size, 2);
    assert!(game.state == State::Paused);
    let t = tiles(&game);
    assert_eq!(t[0][0], Tile::Snake);
    assert_eq!(cells_of(&t, Tile::Snake), vec![(0, 0)]);
    let food = cells_of(&t, Tile::Food);
    assert_eq!(food.len(), 1);
    // The new food lies on a cell that was empty when the head came in: one
    // that was empty all along, or the one that the trail has just given up.
    assert!(before[food[0].0][food[0].1] == Tile::Empty || food[0] == (1, 0));
    assert_eq!(cells_of(&t, Tile::Empty).len(), 7);
}

#[test]
fn state_can_be_read_and_set() {
    let mut game = Game::<5, 5>::new();
    assert!(game.state() == State::Paused);
    game.set_state(State::Running);
    assert!(game.state() == State::Running);
    assert!(game.state == State::Running);
    let before = tiles(&game);
    game.set_state(State::Paused);
    assert!(game.state() == State::Paused);
    assert_eq!(tiles(&game), before);
    assert_eq!(head(&game), (2, 2));
    game.state = State::GameOver;
    assert!(game.state() == State::GameOver);
}

#[test]
fn playable_fields() {
    assert!(Game::<2, 1>::is_playable());
    assert!(Game::<1, 2>::is_playable());
    assert!(Game::<30, 30>::is_playable());
    assert!(!Game::<1, 1>::is_playable());
    assert!(!Game::<0, 5>::is_playable());
    assert!(!Game::<5, 0>::is_playable());
}

#[test]
fn game_in_play_can_move() {
    let mut game = Game::<4, 4>::new();
    assert!(game.can_move());
    for dir in [Direction::Left, Direction::Up, Direction::Right, Direction::Down] {
        game.turn_snake(dir);
        assert!(game.can_move());
        game.move_snake();
        if game.state() == State::GameOver {
            break;
        }
        assert!(game.can_move());
    }
}

#[test]
fn game_can_move_until_the_trail_leaves_the_field() {
    // The snake leaves with the third move; from the sixth on, the cell that
    // the cut would give up is off the field.
    let mut game = Game::<5, 5>::with_start(2, 2, 3, 0, 0).unwrap();
    game.turn_snake(Direction::Right);
    for tick in 1..=5 {
        assert!(game.can_move(), "tick {}", tick);
        game.move_snake();
        assert_eq!(game.state() == State::GameOver, tick >= 3, "tick {}", tick);
        assert_eq!(head(&game), (2 + tick, 2));
    }
    assert!(!game.can_move());
    assert!(cells_of(&tiles(&game), Tile::Snake).is_empty());
}

#[test]
fn snake_of_one_cannot_move_once_it_has_left() {
    let mut game = Game::<3, 3>::with_start(2, 1, 1, 0, 0).unwrap();
    game.turn_snake(Direction::Right);
    assert!(game.can_move());
    game.move_snake();
    assert!(game.state() == State::GameOver);
    assert_eq!(head(&game), (3, 1));
    assert!(!game.can_move());
}
