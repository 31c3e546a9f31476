//! The rules of the game, stated over plain values: what a tick does to a
//! game, what holds of a game in play, and why a tick keeps it so.

use crate::map::{
    blank, empties, inside, lemma_cells_fit, lemma_empty_cell_counted, put, shaped, Tile,
};
use crate::snake::{cell_of, lemma_trail_cut, lemma_trail_push, Direction, SnakeView};
use crate::{State, INITIAL_SNAKE_SIZE};
use vstd::prelude::*;

verus! {

/// Whether a field of `w` columns and `h` rows can be played on: it has room
/// for a snake and its food, and its cells can be counted.
pub open spec fn playable(w: int, h: int) -> bool {
    2 <= w * h <= isize::MAX
}

/// Whether the only food of the field `t` lies at `(fx, fy)`.
pub open spec fn food_only_at(t: Seq<Seq<Tile>>, w: int, h: int, fx: int, fy: int) -> bool {
    inside(w, h, fx, fy) && forall|x: int, y: int|
        inside(w, h, x, y) ==> (#[trigger] t[x][y] == Tile::Food <==> x == fx && y == fy)
}

/// Whether the field `t` holds exactly one food tile.
pub open spec fn one_food(t: Seq<Seq<Tile>>, w: int, h: int) -> bool {
    exists|fx: int, fy: int| food_only_at(t, w, h, fx, fy)
}

/// Whether `after` is `before` with food put on one of its empty cells.
pub open spec fn food_added(before: Seq<Seq<Tile>>, after: Seq<Seq<Tile>>, w: int, h: int) -> bool {
    exists|x: int, y: int|
        inside(w, h, x, y) && before[x][y] == Tile::Empty && after == #[trigger] put(
            before,
            x,
            y,
            Tile::Food,
        )
}

/// Whether `after` is `before` with food put on one of its empty cells and
/// then the snake's head put on `(hx, hy)`.
pub open spec fn fed_and_entered(
    before: Seq<Seq<Tile>>,
    after: Seq<Seq<Tile>>,
    w: int,
    h: int,
    hx: int,
    hy: int,
) -> bool {
    exists|x: int, y: int|
        inside(w, h, x, y) && before[x][y] == Tile::Empty && after == put(
            #[trigger] put(before, x, y, Tile::Food),
            hx,
            hy,
            Tile::Snake,
        )
}

/// A game as plain values.
pub ghost struct GameView {
    /// The field, column by column.
    pub grid: Seq<Seq<Tile>>,
    /// The snake.
    pub snake: SnakeView,
    /// The state of the game.
    pub state: State,
}

impl GameView {
    /// What holds while a game is played on a field of `w` columns and `h`
    /// rows: the head and the trail lie on the field and never on the same
    /// cell twice, the snake tiles of the field are exactly those cells, there
    /// is exactly one food tile, and the trail is no longer than the snake's
    /// size.
    pub open spec fn in_play(self, w: int, h: int) -> bool {
        &&& playable(w, h)
        &&& shaped(self.grid, w, h)
        &&& self.snake.on_field(w, h)
        &&& forall|i: int|
            0 <= i < self.snake.trail.len() ==> inside(
                w,
                h,
                (#[trigger] self.snake.trail[i]).0 as int,
                self.snake.trail[i].1 as int,
            )
        &&& self.snake.trail.no_duplicates()
        &&& !self.snake.trail.contains(cell_of(self.snake.head))
        &&& forall|x: int, y: int|
            inside(w, h, x, y) ==> (#[trigger] self.grid[x][y] == Tile::Snake <==> (x
                == self.snake.head.0 && y == self.snake.head.1) || self.snake.trail.contains(
                (x as usize, y as usize),
            ))
        &&& one_food(self.grid, w, h)
        &&& self.snake.trail.len() <= self.snake.size
        &&& self.snake.size - self.snake.trail.len() <= isize::MAX
    }

    /// What a tick needs of a game that is not in play, so that every step of
    /// it stays within the machine's numbers and on the field.
    pub open spec fn fit_to_move(self, w: int, h: int) -> bool {
        &&& w * h <= isize::MAX
        &&& shaped(self.grid, w, h)
        &&& self.snake.can_advance(w, h)
    }

    /// Whether the game can take a tick.
    pub open spec fn can_move(self, w: int, h: int) -> bool {
        self.in_play(w, h) || self.fit_to_move(w, h)
    }

    /// The snake after the first half of a tick: moved on, its trail cut.
    pub open spec fn next_snake(self) -> SnakeView {
        self.snake.forwarded().trimmed()
    }

    /// The field after the first half of a tick: the cell that the trail gave
    /// up is empty again.
    pub open spec fn next_grid(self) -> Seq<Seq<Tile>> {
        let s = self.snake.forwarded();
        if s.sheds() {
            put(self.grid, s.trail[0].0 as int, s.trail[0].1 as int, Tile::Empty)
        } else {
            self.grid
        }
    }

    /// Whether the head leaves the field with this tick.
    pub open spec fn leaves_field(self, w: int, h: int) -> bool {
        !self.next_snake().on_field(w, h)
    }

    /// What the head comes to lie on with this tick, if it stays on the
    /// field.
    pub open spec fn lands_on(self) -> Tile {
        self.next_grid()[self.next_snake().head.0][self.next_snake().head.1]
    }

    /// Whether this tick ends the game: the head leaves the field, runs into
    /// the snake, or eats on a field that has no empty cell left for new food.
    pub open spec fn ends(self, w: int, h: int) -> bool {
        self.leaves_field(w, h) || self.lands_on() == Tile::Snake || (self.lands_on()
            == Tile::Food && empties(self.next_grid()) == 0)
    }

    /// Whether `after` is this game one tick on.
    pub open spec fn ticks_to(self, after: GameView, w: int, h: int) -> bool {
        let s = self.next_snake();
        let g = self.next_grid();
        &&& after.state == if self.ends(w, h) {
            State::GameOver
        } else {
            self.state
        }
        &&& after.snake == if !self.leaves_field(w, h) && self.lands_on() == Tile::Food {
            s.grown()
        } else {
            s
        }
        &&& if self.leaves_field(w, h) {
            after.grid == g
        } else if self.lands_on() == Tile::Food && empties(g) > 0 {
            fed_and_entered(g, after.grid, w, h, s.head.0, s.head.1)
        } else {
            after.grid == put(g, s.head.0, s.head.1, Tile::Snake)
        }
    }

    /// Whether this is a game as it starts on a field of `w` columns and `h`
    /// rows: paused, the snake in the middle with nothing behind it, and one
    /// food tile on some other cell.
    pub open spec fn fresh(self, w: int, h: int) -> bool {
        &&& self.state == State::Paused
        &&& self.snake == (SnakeView {
            head: (w / 2, h / 2),
            dir: Direction::Idle,
            size: INITIAL_SNAKE_SIZE as nat,
            trail: Seq::empty(),
        })
        &&& food_added(put(blank(w, h), w / 2, h / 2, Tile::Snake), self.grid, w, h)
    }
}

/// A game in play can take a tick.
pub proof fn lemma_in_play_fits(g: GameView, w: int, h: int)
    requires
        g.in_play(w, h),
    ensures
        g.fit_to_move(w, h),
{
    let s = g.snake;
    let f = s.forwarded();
    assert(w <= w * h && h <= w * h) by (nonlinear_arith)
        requires
            0 < w,
            0 < h,
    ;
    lemma_cells_fit(s.trail, w, h);
    if s.trail.len() > 0 {
        assert(f.trail[0] == s.trail[0]);
    } else {
        assert(f.trail[0] == cell_of(s.head));
    }
}

/// A tick that does not end the game leaves a game in play in play: the
/// snake still lies on the field, on no cell twice, and the field holds
/// exactly one food tile.
pub proof fn lemma_tick_keeps_play(g: GameView, after: GameView, w: int, h: int)
    requires
        g.in_play(w, h),
        g.ticks_to(after, w, h),
        !g.ends(w, h),
    ensures
        after.in_play(w, h),
{
    let f = g.snake.forwarded();
    let s = g.next_snake();
    let t = g.next_grid();
    let entered = cell_of(g.snake.head);
    let (hx, hy) = s.head;
    let (fx, fy) = choose|fx: int, fy: int| food_only_at(g.grid, w, h, fx, fy);
    assert(w <= w * h && h <= w * h) by (nonlinear_arith)
        requires
            0 < w,
            0 < h,
    ;

    // The trail with the cell that the head has left.
    lemma_trail_push(g.snake.trail, entered);
    assert forall|i: int| 0 <= i < f.trail.len() implies inside(
        w,
        h,
        (#[trigger] f.trail[i]).0 as int,
        f.trail[i].1 as int,
    ) by {
        if i < g.snake.trail.len() {
            assert(f.trail[i] == g.snake.trail[i]);
        }
    }
    assert forall|x: int, y: int| inside(w, h, x, y) implies (#[trigger] g.grid[x][y]
        == Tile::Snake <==> f.trail.contains((x as usize, y as usize))) by {
        assert(f.trail.contains((x as usize, y as usize)) <==> g.snake.trail.contains(
            (x as usize, y as usize),
        ) || (x as usize, y as usize) == entered);
    }

    // The trail and the field after the cut.
    assert(shaped(t, w, h));
    assert(s.trail.no_duplicates() && (forall|i: int|
        0 <= i < s.trail.len() ==> inside(
            w,
            h,
            (#[trigger] s.trail[i]).0 as int,
            s.trail[i].1 as int,
        )) && (forall|x: int, y: int|
        inside(w, h, x, y) ==> (#[trigger] t[x][y] == Tile::Snake <==> s.trail.contains(
            (x as usize, y as usize),
        ))) && food_only_at(t, w, h, fx, fy)) by {
        if f.sheds() {
            lemma_trail_cut(f.trail);
            let gone = f.trail[0];
            assert(inside(w, h, gone.0 as int, gone.1 as int));
            assert(g.grid[gone.0 as int][gone.1 as int] == Tile::Snake);
            assert forall|i: int| 0 <= i < s.trail.len() implies inside(
                w,
                h,
                (#[trigger] s.trail[i]).0 as int,
                s.trail[i].1 as int,
            ) by {
                assert(s.trail[i] == f.trail[i + 1]);
            }
            assert forall|x: int, y: int| inside(w, h, x, y) implies (#[trigger] t[x][y]
                == Tile::Snake <==> s.trail.contains((x as usize, y as usize))) by {
                assert(s.trail.contains((x as usize, y as usize)) <==> f.trail.contains(
                    (x as usize, y as usize),
                ) && (x as usize, y as usize) != gone);
                assert(g.grid[x][y] == Tile::Snake <==> f.trail.contains((x as usize, y as usize)));
            }
            assert forall|x: int, y: int| inside(w, h, x, y) implies (#[trigger] t[x][y]
                == Tile::Food <==> x == fx && y == fy) by {
                assert(g.grid[x][y] == Tile::Food <==> x == fx && y == fy);
            }
        }
    }

    // The cell under the head is no part of the snake.
    assert(t[hx][hy] != Tile::Snake);
    assert(!s.trail.contains(cell_of(s.head)));

    if g.lands_on() == Tile::Food {
        assert(hx == fx && hy == fy);
        let (nx, ny) = choose|x: int, y: int|
            inside(w, h, x, y) && t[x][y] == Tile::Empty && after.grid == put(
                #[trigger] put(t, x, y, Tile::Food),
                hx,
                hy,
                Tile::Snake,
            );
        assert forall|x: int, y: int| inside(w, h, x, y) implies (#[trigger] after.grid[x][y]
            == Tile::Food <==> x == nx && y == ny) by {
            assert(t[x][y] == Tile::Food <==> x == fx && y == fy);
        }
        assert(food_only_at(after.grid, w, h, nx, ny));
        assert forall|x: int, y: int| inside(w, h, x, y) implies (#[trigger] after.grid[x][y]
            == Tile::Snake <==> (x == hx && y == hy) || s.trail.contains(
            (x as usize, y as usize),
        )) by {
            assert(t[x][y] == Tile::Snake <==> s.trail.contains((x as usize, y as usize)));
        }
        assert(shaped(after.grid, w, h));
    } else {
        assert(g.lands_on() == Tile::Empty);
        assert forall|x: int, y: int| inside(w, h, x, y) implies (#[trigger] after.grid[x][y]
            == Tile::Food <==> x == fx && y == fy) by {
            assert(t[x][y] == Tile::Food <==> x == fx && y == fy);
        }
        assert(food_only_at(after.grid, w, h, fx, fy));
        assert forall|x: int, y: int| inside(w, h, x, y) implies (#[trigger] after.grid[x][y]
            == Tile::Snake <==> (x == hx && y == hy) || s.trail.contains(
            (x as usize, y as usize),
        )) by {
            assert(t[x][y] == Tile::Snake <==> s.trail.contains((x as usize, y as usize)));
        }
        assert(shaped(after.grid, w, h));
    }
}

/// A snake in play that comes upon food grows by one. Where the field has an
/// empty cell left, food then lies on exactly one cell: one that was empty
/// when the head came in, and so not the cell that the head is on.
pub proof fn lemma_eating(g: GameView, after: GameView, w: int, h: int)
    requires
        g.in_play(w, h),
        g.ticks_to(after, w, h),
        !g.leaves_field(w, h),
        g.lands_on() == Tile::Food,
    ensures
        after.snake.size == g.snake.size + 1,
        empties(g.next_grid()) > 0 ==> exists|x: int, y: int| #[trigger]
            food_only_at(after.grid, w, h, x, y) && g.next_grid()[x][y] == Tile::Empty && (x, y)
                != g.next_snake().head,
        empties(g.next_grid()) > 0 ==> after.state == g.state,
{
    if empties(g.next_grid()) > 0 {
        lemma_tick_keeps_play(g, after, w, h);
        let t = g.next_grid();
        let (hx, hy) = g.next_snake().head;
        let (nx, ny) = choose|x: int, y: int|
            inside(w, h, x, y) && t[x][y] == Tile::Empty && after.grid == put(
                #[trigger] put(t, x, y, Tile::Food),
                hx,
                hy,
                Tile::Snake,
            );
        let (fx, fy) = choose|fx: int, fy: int| food_only_at(after.grid, w, h, fx, fy);
        assert(after.grid[nx][ny] == Tile::Food);
        assert(fx == nx && fy == ny);
        assert(food_only_at(after.grid, w, h, nx, ny));
    }
}

/// A tick can follow the tick that ended the game: after any tick of a game
/// in play whose snake grows to two cells or more, on a field with fewer
/// than `isize::MAX` cells, the game can take one more.
pub proof fn lemma_tick_leaves_fit(g: GameView, after: GameView, w: int, h: int)
    requires
        g.in_play(w, h),
        g.ticks_to(after, w, h),
        g.snake.size >= 2,
        w * h < isize::MAX,
    ensures
        after.can_move(w, h),
{
    lemma_in_play_fits(g, w, h);
    if !g.ends(w, h) {
        lemma_tick_keeps_play(g, after, w, h);
    } else {
        let f = g.snake.forwarded();
        let s = g.next_snake();
        let next = after.snake.forwarded();
        assert(w <= w * h && h <= w * h) by (nonlinear_arith)
            requires
                0 < w,
                0 < h,
        ;
        lemma_cells_fit(g.snake.trail, w, h);
        lemma_trail_push(g.snake.trail, cell_of(g.snake.head));
        assert(inside(w, h, f.trail[0].0 as int, f.trail[0].1 as int)) by {
            if g.snake.trail.len() > 0 {
                assert(f.trail[0] == g.snake.trail[0]);
            }
        }
        if f.sheds() {
            lemma_trail_cut(f.trail);
            assert(s.trail[0] == f.trail[1]);
            if g.snake.trail.len() > 1 {
                assert(f.trail[1] == g.snake.trail[1]);
            }
        }
        assert(s.trail.len() > 0);
        assert(next.trail[0] == s.trail[0]);
        assert(shaped(after.grid, w, h));
    }
}

/// The middle of a playable field is one of its cells, and a field that
/// fits the machine's numbers has sides that do.
pub proof fn lemma_middle(w: int, h: int)
    requires
        0 <= w,
        0 <= h,
        playable(w, h),
    ensures
        inside(w, h, w / 2, h / 2),
        w <= isize::MAX,
        h <= isize::MAX,
{
    assert(0 < w && 0 < h && w <= w * h && h <= w * h) by (nonlinear_arith)
        requires
            0 <= w,
            0 <= h,
            2 <= w * h,
    ;
}

/// A playable field with nothing on it but the head of a snake in its middle
/// has an empty cell.
pub proof fn lemma_room_beside_head(t: Seq<Seq<Tile>>, w: int, h: int)
    requires
        0 <= w,
        0 <= h,
        playable(w, h),
        t == put(blank(w, h), w / 2, h / 2, Tile::Snake),
    ensures
        empties(t) > 0,
{
    lemma_middle(w, h);
    assert(w >= 2 || h >= 2) by (nonlinear_arith)
        requires
            0 < w,
            0 < h,
            2 <= w * h,
    ;
    assert(t[0][0] == Tile::Empty);
    lemma_empty_cell_counted(t, w, h, 0, 0);
}

/// A game as it starts is in play.
pub proof fn lemma_fresh_in_play(g: GameView, w: int, h: int)
    requires
        playable(w, h),
        g.fresh(w, h),
    ensures
        g.in_play(w, h),
{
    lemma_start_in_play(g, w, h, w / 2, h / 2);
}

/// A field with nothing on it but the head of a snake that has no trail, and
/// food on one other cell, is in play.
pub proof fn lemma_start_in_play(g: GameView, w: int, h: int, x: int, y: int)
    requires
        w * h <= isize::MAX,
        inside(w, h, x, y),
        g.snake.head == (x, y),
        g.snake.trail.len() == 0,
        g.snake.size <= isize::MAX,
        food_added(put(blank(w, h), x, y, Tile::Snake), g.grid, w, h),
    ensures
        g.in_play(w, h),
{
    let base = put(blank(w, h), x, y, Tile::Snake);
    let (fx, fy) = choose|fx: int, fy: int|
        inside(w, h, fx, fy) && base[fx][fy] == Tile::Empty && g.grid == #[trigger] put(
            base,
            fx,
            fy,
            Tile::Food,
        );
    assert(w * h >= 2) by (nonlinear_arith)
        requires
            0 <= x < w,
            0 <= y < h,
            0 <= fx < w,
            0 <= fy < h,
            x != fx || y != fy,
    ;
    assert(food_only_at(g.grid, w, h, fx, fy));
}

} // verus!
