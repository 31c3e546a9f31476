//! The game "Snake" as a state machine: a [`Game`] holds the playing field and
//! the snake, and each call of [`Game::move_snake`] is one tick. Input, pacing
//! and drawing are left to the program around it.

use rand::Rng;
use vstd::prelude::*;

pub mod map;
pub mod rules;
pub mod snake;

use crate::map::{blank, empties, inside, put, Grid, Tile};
use crate::rules::{
    food_added, lemma_fresh_in_play, lemma_in_play_fits, lemma_middle,
    lemma_room_beside_head, lemma_start_in_play, lemma_tick_keeps_play, playable, GameView,
};
use crate::snake::{Direction, Snake, SnakeView};

verus! {

/// The size a snake starts with.
pub const INITIAL_SNAKE_SIZE: usize = 3;

/// The states a [`Game`] can be in. The game itself only ever sets
/// `GameOver`; `Running` and `Paused` are for the program around it.
#[derive(Copy, Clone, PartialEq, Eq, Structural, Debug)]
pub enum State {
    Running,
    Paused,
    GameOver,
}

/// Draws a number below `n`.
///
/// Calls `gen_range` of the `rand` crate on its thread-local generator with
/// the range `0..n`. The call fails on an empty range, so `n` must not be 0;
/// what it returns lies in the range.
#[verifier::external_body]
fn random_below(n: usize) -> (r: usize)
    requires
        n > 0,
    ensures
        r < n,
{
    rand::thread_rng().gen_range(0..n)
}

/// The game: the field, the snake on it and the state of play.
pub struct Game<const W: usize, const H: usize> {
    map: Grid<W, H>,
    snake: Snake,
    pub state: State,
}

impl<const W: usize, const H: usize> View for Game<W, H> {
    type V = GameView;

    closed spec fn view(&self) -> GameView {
        GameView { grid: self.map@, snake: self.snake@, state: self.state }
    }
}

impl<const W: usize, const H: usize> Game<W, H> {
    /// The field of the game.
    pub closed spec fn field(&self) -> Grid<W, H> {
        self.map
    }

    /// A new game: the snake in the middle of the field, facing no way yet,
    /// food on some other cell, and the game paused.
    pub fn new() -> (g: Self)
        requires
            playable(W as int, H as int),
        ensures
            g@.fresh(W as int, H as int),
            g@.in_play(W as int, H as int),
    {
        proof {
            lemma_middle(W as int, H as int);
        }
        let mut game = Game {
            map: Grid::new(),
            snake: Snake::new(W / 2, H / 2, INITIAL_SNAKE_SIZE),
            state: State::Paused,
        };
        game.snake.place_head(&mut game.map);
        proof {
            lemma_room_beside_head(game.map@, W as int, H as int);
        }
        game.create_food();
        proof {
            lemma_fresh_in_play(game@, W as int, H as int);
        }
        game
    }

    /// A game that starts with the snake at `(x, y)`, facing no way yet and
    /// growing to `size`, and with the food at `(fx, fy)`; none where the
    /// field has more than `isize::MAX` cells, a cell is off the field, both
    /// are the same cell, or `size` is beyond `isize::MAX`.
    pub fn with_start(x: usize, y: usize, size: usize, fx: usize, fy: usize) -> (g: Option<Self>)
        ensures
            g is Some <==> W * H <= isize::MAX && inside(W as int, H as int, x as int, y as int)
                && inside(W as int, H as int, fx as int, fy as int) && (x != fx || y != fy)
                && size <= isize::MAX,
            g is Some ==> g.unwrap()@ == (GameView {
                grid: put(
                    put(blank(W as int, H as int), x as int, y as int, Tile::Snake),
                    fx as int,
                    fy as int,
                    Tile::Food,
                ),
                snake: SnakeView {
                    head: (x as int, y as int),
                    dir: Direction::Idle,
                    size: size as nat,
                    trail: Seq::empty(),
                },
                state: State::Paused,
            }) && g.unwrap()@.in_play(W as int, H as int),
    {
        let fits = match W.checked_mul(H) {
            Some(cells) => cells <= isize::MAX as usize,
            None => false,
        };
        let map = Grid::<W, H>::new();
        if !fits || !map.in_bounds(x, y) || !map.in_bounds(fx, fy) || (x == fx && y == fy)
            || size > isize::MAX as usize {
            return None;
        }
        proof {
            assert(W <= W * H && H <= W * H) by (nonlinear_arith)
                requires
                    0 < W,
                    0 < H,
            ;
        }
        let mut game = Game { map, snake: Snake::new(x, y, size), state: State::Paused };
        game.snake.place_head(&mut game.map);
        game.map.set(fx, fy, Tile::Food);
        proof {
            lemma_start_in_play(game@, W as int, H as int, x as int, y as int);
        }
        Some(game)
    }

    /// Starts the game anew: clears the field, puts a new snake in its
    /// middle and food on some other cell, and pauses the game.
    pub fn restart(&mut self)
        requires
            playable(W as int, H as int),
        ensures
            final(self)@.fresh(W as int, H as int),
            final(self)@.in_play(W as int, H as int),
    {
        proof {
            lemma_middle(W as int, H as int);
        }
        let mut x: usize = 0;
        while x < W
            invariant
                x <= W,
                forall|i: int, j: int|
                    0 <= i < x && 0 <= j < H ==> (#[trigger] self.map@[i][j]) == Tile::Empty,
            decreases W - x,
        {
            let mut y: usize = 0;
            while y < H
                invariant
                    y <= H,
                    x < W,
                    forall|i: int, j: int|
                        0 <= i < x && 0 <= j < H ==> (#[trigger] self.map@[i][j]) == Tile::Empty,
                    forall|j: int| 0 <= j < y ==> (#[trigger] self.map@[x as int][j]) == Tile::Empty,
                decreases H - y,
            {
                self.map.set(x, y, Tile::Empty);
                y += 1;
            }
            x += 1;
        }
        assert(self.map@ =~~= blank(W as int, H as int));
        self.snake = Snake::new(W / 2, H / 2, INITIAL_SNAKE_SIZE);
        self.snake.place_head(&mut self.map);
        proof {
            lemma_room_beside_head(self.map@, W as int, H as int);
        }
        self.create_food();
        self.state = State::Paused;
        proof {
            lemma_fresh_in_play(self@, W as int, H as int);
        }
    }

    /// Tries to turn the snake towards `dir`; a turn into the opposite of the
    /// way it faces is ignored.
    pub fn turn_snake(&mut self, dir: Direction)
        ensures
            final(self)@ == (GameView { snake: old(self)@.snake.turned(dir), ..old(self)@ }),
            final(self).field() == old(self).field(),
    {
        self.snake.turn(dir);
    }

    /// Whether a field of this size can be played on.
    pub fn is_playable() -> (b: bool)
        ensures
            b == playable(W as int, H as int),
    {
        match W.checked_mul(H) {
            Some(cells) => 2 <= cells && cells <= isize::MAX as usize,
            None => false,
        }
    }

    /// Whether the game can take a tick: whether `move_snake` may be called.
    /// A game in play always can.
    pub fn can_move(&self) -> (b: bool)
        ensures
            b == self@.can_move(W as int, H as int),
            self@.in_play(W as int, H as int) ==> b,
    {
        proof {
            if self@.in_play(W as int, H as int) {
                lemma_in_play_fits(self@, W as int, H as int);
            }
        }
        let fits = match W.checked_mul(H) {
            Some(cells) => cells <= isize::MAX as usize,
            None => false,
        };
        fits && self.snake.can_advance(&self.map)
    }

    /// Puts food on an empty cell of the field, each empty cell being as
    /// likely as any other. On a field without an empty cell there is no
    /// room for food: the field stays as it is and the game is over.
    pub fn create_food(&mut self)
        requires
            W * H <= usize::MAX,
        ensures
            final(self)@.snake == old(self)@.snake,
            empties(old(self)@.grid) == 0 ==> final(self)@.grid == old(self)@.grid
                && final(self)@.state == State::GameOver,
            empties(old(self)@.grid) > 0 ==> food_added(
                old(self)@.grid,
                final(self)@.grid,
                W as int,
                H as int,
            ) && final(self)@.state == old(self)@.state,
    {
        let n = self.map.count_empty();
        if n == 0 {
            self.game_over();
        } else {
            let k = random_below(n);
            let (fx, fy) = self.map.nth_empty(k);
            self.map.set(fx, fy, Tile::Food);
        }
    }

    /// Moves the snake one cell on: one tick of the game.
    ///
    /// The head moves, the trail is cut, and only then is the cell under the
    /// head looked at. On food the snake's size grows by one and new food is
    /// put on the field; on the snake itself, or off the field, the game is
    /// over. Unless the head has left the field, it is marked on the field
    /// last of all.
    pub fn move_snake(&mut self)
        requires
            old(self)@.can_move(W as int, H as int),
        ensures
            old(self)@.ticks_to(final(self)@, W as int, H as int),
            old(self)@.leaves_field(W as int, H as int) ==> final(self)@.state == State::GameOver
                && final(self)@.grid == old(self)@.next_grid(),
            !old(self)@.leaves_field(W as int, H as int) && old(self)@.lands_on() == Tile::Snake
                ==> final(self)@.state == State::GameOver,
            !old(self)@.leaves_field(W as int, H as int) && old(self)@.lands_on() == Tile::Food
                ==> final(self)@.snake.size == old(self)@.snake.size + 1,
            old(self)@.state == State::GameOver ==> final(self)@.state == State::GameOver,
            old(self)@.in_play(W as int, H as int) && !old(self)@.ends(W as int, H as int)
                ==> final(self)@.in_play(W as int, H as int),
    {
        proof {
            if old(self)@.in_play(W as int, H as int) {
                lemma_in_play_fits(old(self)@, W as int, H as int);
            }
        }
        self.snake.forward();
        self.snake.cut_tail(&mut self.map);

        if self.snake.in_bounds(&self.map) {
            match self.snake.touching_tile(&self.map) {
                Tile::Snake => {
                    self.game_over();
                },
                Tile::Food => {
                    self.snake.grow();
                    self.create_food();
                },
                Tile::Empty => (),
            }
            self.snake.place_head(&mut self.map);
        } else {
            self.game_over();
        }
        proof {
            if old(self)@.in_play(W as int, H as int) && !old(self)@.ends(W as int, H as int) {
                lemma_tick_keeps_play(old(self)@, self@, W as int, H as int);
            }
        }
    }

    /// Ends the game.
    pub fn game_over(&mut self)
        ensures
            final(self)@ == (GameView { state: State::GameOver, ..old(self)@ }),
            final(self).field() == old(self).field(),
    {
        self.state = State::GameOver;
    }

    /// The state of the game.
    pub fn state(&self) -> (s: State)
        ensures
            s == self@.state,
    {
        self.state
    }

    /// Sets the state of the game, as the program around it does to pause
    /// the game and to let it run.
    pub fn set_state(&mut self, state: State)
        ensures
            final(self)@ == (GameView { state, ..old(self)@ }),
            final(self).field() == old(self).field(),
    {
        self.state = state;
    }

    /// The snake of the game.
    pub fn snake(&self) -> (s: &Snake)
        ensures
            s@ == self@.snake,
    {
        &self.snake
    }

    /// Hands the field to `func` and returns what it makes of it. The game
    /// draws nothing itself.
    pub fn display<F, R>(&self, func: F) -> (r: R) where F: FnOnce(&Grid<W, H>) -> R
        requires
            func.requires((&self.field(),)),
        ensures
            func.ensures((&self.field(),), r),
            self.field()@ == self@.grid,
    {
        func(&self.map)
    }
}

} // verus!
