//! The snake and the ways it can face.

use crate::map::{inside, put, Grid, Tile};
use vstd::prelude::*;

verus! {

/// The four ways a snake can face, and `Idle` for a snake that has not
/// started to move.
#[derive(Copy, Clone, PartialEq, Eq, Structural, Debug)]
pub enum Direction {
    Left,
    Right,
    Up,
    Down,
    Idle,
}

impl Direction {
    /// The step along the x axis.
    pub open spec fn dx(self) -> int {
        match self {
            Direction::Left => -1,
            Direction::Right => 1,
            _ => 0,
        }
    }

    /// The step along the y axis.
    pub open spec fn dy(self) -> int {
        match self {
            Direction::Up => -1,
            Direction::Down => 1,
            _ => 0,
        }
    }

    /// Two directions oppose one another when their steps cancel out.
    pub open spec fn opposes(self, dir: Direction) -> bool {
        self.dx() + dir.dx() == 0 && self.dy() + dir.dy() == 0
    }

    /// The change on the x axis.
    pub fn x(&self) -> (r: isize)
        ensures
            r == self.dx(),
    {
        match self {
            Direction::Left => -1,
            Direction::Right => 1,
            _ => 0,
        }
    }

    /// The change on the y axis.
    pub fn y(&self) -> (r: isize)
        ensures
            r == self.dy(),
    {
        match self {
            Direction::Up => -1,
            Direction::Down => 1,
            _ => 0,
        }
    }

    /// Whether this and the given direction oppose one another.
    pub fn opposite(&self, dir: Direction) -> (b: bool)
        ensures
            b == self.opposes(dir),
    {
        self.x() + dir.x() == 0 && self.y() + dir.y() == 0
    }
}

/// Opposition is symmetric. Left opposes Right, Up opposes Down, and `Idle`
/// opposes itself: its step is zero, which cancels with itself. No other pair
/// is opposed, so no direction that moves opposes itself.
pub proof fn lemma_opposes(a: Direction, b: Direction)
    ensures
        a.opposes(b) == b.opposes(a),
        a.opposes(b) <==> (a == Direction::Left && b == Direction::Right) || (a
            == Direction::Right && b == Direction::Left) || (a == Direction::Up && b
            == Direction::Down) || (a == Direction::Down && b == Direction::Up) || (a
            == Direction::Idle && b == Direction::Idle),
        a.opposes(a) <==> a == Direction::Idle,
{
}

/// A snake as plain values.
pub ghost struct SnakeView {
    /// Where the head is; it may lie outside the field.
    pub head: (int, int),
    /// The way the snake faces.
    pub dir: Direction,
    /// The length the trail grows to.
    pub size: nat,
    /// The cells the head has left, oldest first.
    pub trail: Seq<(usize, usize)>,
}

/// The cell that a head position is recorded as in the trail: its
/// coordinates as unsigned numbers.
pub open spec fn cell_of(head: (int, int)) -> (usize, usize) {
    (head.0 as usize, head.1 as usize)
}

impl SnakeView {
    /// Whether the head lies on a field of `w` columns and `h` rows.
    pub open spec fn on_field(self, w: int, h: int) -> bool {
        inside(w, h, self.head.0, self.head.1)
    }

    /// The snake after a turn towards `dir`: a turn into the opposite of the
    /// way it faces is ignored.
    pub open spec fn turned(self, dir: Direction) -> SnakeView {
        if self.dir.opposes(dir) {
            self
        } else {
            SnakeView { dir, ..self }
        }
    }

    /// The snake one step on: the cell it leaves joins the trail.
    pub open spec fn forwarded(self) -> SnakeView {
        SnakeView {
            head: (self.head.0 + self.dir.dx(), self.head.1 + self.dir.dy()),
            trail: self.trail.push(cell_of(self.head)),
            ..self
        }
    }

    /// Whether the snake can take a step on a field of `w` columns and `h`
    /// rows, with the cut and the growth that may follow it: the head stays
    /// within the machine's numbers, the size can still grow, and the cell
    /// that the cut would give up lies on the field.
    pub open spec fn can_advance(self, w: int, h: int) -> bool {
        let s = self.forwarded();
        &&& isize::MIN <= s.head.0 <= isize::MAX
        &&& isize::MIN <= s.head.1 <= isize::MAX
        &&& self.size < usize::MAX
        &&& s.sheds() ==> inside(w, h, s.trail[0].0 as int, s.trail[0].1 as int)
    }

    /// The snake with one more cell to grow to.
    pub open spec fn grown(self) -> SnakeView {
        SnakeView { size: self.size + 1, ..self }
    }

    /// Whether the trail has reached the snake's size, so that its oldest
    /// cell is given up.
    pub open spec fn sheds(self) -> bool {
        self.trail.len() >= self.size
    }

    /// The snake after its trail was cut back.
    pub open spec fn trimmed(self) -> SnakeView {
        if self.sheds() {
            SnakeView { trail: self.trail.remove(0), ..self }
        } else {
            self
        }
    }
}

/// A snake at its full length keeps that length over a step forward and the
/// cut that follows it.
pub proof fn lemma_full_length_is_kept(s: SnakeView)
    requires
        s.trail.len() == s.size,
    ensures
        s.forwarded().trimmed().trail.len() == s.trail.len(),
        s.forwarded().trimmed().size == s.size,
{
}

/// A trail that takes in a cell holds that cell and what it held before.
pub proof fn lemma_trail_push(trail: Seq<(usize, usize)>, cell: (usize, usize))
    ensures
        forall|c: (usize, usize)| #[trigger]
            trail.push(cell).contains(c) <==> trail.contains(c) || c == cell,
        trail.no_duplicates() && !trail.contains(cell) ==> trail.push(cell).no_duplicates(),
{
    let longer = trail.push(cell);
    assert forall|c: (usize, usize)| #[trigger]
        longer.contains(c) <==> trail.contains(c) || c == cell by {
        if trail.contains(c) {
            let i = choose|i: int| 0 <= i < trail.len() && trail[i] == c;
            assert(longer[i] == c);
        }
        if c == cell {
            assert(longer[trail.len() as int] == c);
        }
        if longer.contains(c) {
            let i = choose|i: int| 0 <= i < longer.len() && longer[i] == c;
            if i < trail.len() {
                assert(trail[i] == c);
            }
        }
    }
    if trail.no_duplicates() && !trail.contains(cell) {
        assert forall|i: int, j: int|
            0 <= i < longer.len() && 0 <= j < longer.len() && i != j implies longer[i]
            != longer[j] by {
            if i < trail.len() {
                assert(trail[i] == longer[i]);
            }
            if j < trail.len() {
                assert(trail[j] == longer[j]);
            }
        }
    }
}

/// A trail without repeats that gives up its oldest cell holds what it held
/// before but that cell, and still repeats nothing.
pub proof fn lemma_trail_cut(trail: Seq<(usize, usize)>)
    requires
        trail.len() > 0,
        trail.no_duplicates(),
    ensures
        forall|c: (usize, usize)| #[trigger]
            trail.remove(0).contains(c) <==> trail.contains(c) && c != trail[0],
        trail.remove(0).no_duplicates(),
        forall|i: int| 0 <= i < trail.len() - 1 ==> #[trigger] trail.remove(0)[i] == trail[i + 1],
{
    let rest = trail.remove(0);
    assert forall|i: int| 0 <= i < trail.len() - 1 implies #[trigger] rest[i] == trail[i + 1] by {}
    assert forall|c: (usize, usize)| #[trigger]
        rest.contains(c) <==> trail.contains(c) && c != trail[0] by {
        if rest.contains(c) {
            let i = choose|i: int| 0 <= i < rest.len() && rest[i] == c;
            assert(trail[i + 1] == c);
        }
        if trail.contains(c) && c != trail[0] {
            let i = choose|i: int| 0 <= i < trail.len() && trail[i] == c;
            assert(rest[i - 1] == c);
        }
    }
    assert forall|i: int, j: int|
        0 <= i < rest.len() && 0 <= j < rest.len() && i != j implies rest[i] != rest[j] by {
        assert(rest[i] == trail[i + 1]);
        assert(rest[j] == trail[j + 1]);
    }
}

/// The snake: a head, the way it faces, the length it grows to and the trail
/// of cells behind the head.
pub struct Snake {
    head: (isize, isize),
    dir: Direction,
    pub size: usize,
    tail: Vec<(usize, usize)>,
}

impl View for Snake {
    type V = SnakeView;

    closed spec fn view(&self) -> SnakeView {
        SnakeView {
            head: (self.head.0 as int, self.head.1 as int),
            dir: self.dir,
            size: self.size as nat,
            trail: self.tail@,
        }
    }
}

impl Snake {
    /// A snake at `(x, y)` that faces `Idle`, has no trail yet and grows to
    /// `size`.
    pub fn new(x: usize, y: usize, size: usize) -> (s: Snake)
        requires
            x <= isize::MAX,
            y <= isize::MAX,
        ensures
            s@ == (SnakeView {
                head: (x as int, y as int),
                dir: Direction::Idle,
                size: size as nat,
                trail: Seq::empty(),
            }),
    {
        Snake { head: (x as isize, y as isize), dir: Direction::Idle, size, tail: Vec::new() }
    }

    /// The x coordinate of the head.
    pub fn x(&self) -> (r: isize)
        ensures
            r == self@.head.0,
    {
        self.head.0
    }

    /// The y coordinate of the head.
    pub fn y(&self) -> (r: isize)
        ensures
            r == self@.head.1,
    {
        self.head.1
    }

    /// The length the snake grows to.
    pub fn size(&self) -> (r: usize)
        ensures
            r == self@.size,
    {
        self.size
    }

    /// Faces the snake towards `dir`, unless that is the opposite of the way
    /// it faces now.
    pub fn turn(&mut self, dir: Direction)
        ensures
            final(self)@ == old(self)@.turned(dir),
            old(self)@.dir.opposes(dir) ==> final(self)@ == old(self)@,
    {
        if !self.dir.opposite(dir) {
            self.dir = dir;
        }
    }

    /// Whether the snake can take a step on `map`, with the cut and the
    /// growth that may follow it.
    pub fn can_advance<const W: usize, const H: usize>(&self, map: &Grid<W, H>) -> (b: bool)
        ensures
            b == self@.can_advance(W as int, H as int),
    {
        let dx = self.dir.x();
        let dy = self.dir.y();
        if (dx < 0 && self.head.0 == isize::MIN) || (dx > 0 && self.head.0 == isize::MAX) {
            return false;
        }
        if (dy < 0 && self.head.1 == isize::MIN) || (dy > 0 && self.head.1 == isize::MAX) {
            return false;
        }
        if self.size == usize::MAX {
            return false;
        }
        if self.size == 0 || self.tail.len() >= self.size - 1 {
            let front = if self.tail.len() > 0 {
                self.tail[0]
            } else {
                (self.head.0 as usize, self.head.1 as usize)
            };
            proof {
                assert(self@.forwarded().trail[0] == front);
            }
            map.in_bounds(front.0, front.1)
        } else {
            true
        }
    }

    /// Lets the snake grow by one more cell.
    pub fn grow(&mut self)
        requires
            old(self)@.size < usize::MAX,
        ensures
            final(self)@ == old(self)@.grown(),
    {
        self.size += 1;
    }

    /// Moves the head one cell on and appends the cell it left to the trail.
    /// The head may lie outside the field afterwards.
    pub fn forward(&mut self)
        requires
            isize::MIN <= old(self)@.head.0 + old(self)@.dir.dx() <= isize::MAX,
            isize::MIN <= old(self)@.head.1 + old(self)@.dir.dy() <= isize::MAX,
        ensures
            final(self)@ == old(self)@.forwarded(),
    {
        self.tail.push((self.x() as usize, self.y() as usize));
        self.head = (self.head.0 + self.dir.x(), self.head.1 + self.dir.y());
    }

    /// Gives up the oldest cell of the trail, on the field too, once the
    /// trail has reached the snake's size.
    pub fn cut_tail<const W: usize, const H: usize>(&mut self, map: &mut Grid<W, H>)
        requires
            old(self)@.sheds() ==> old(self)@.trail.len() > 0 && inside(
                W as int,
                H as int,
                old(self)@.trail[0].0 as int,
                old(self)@.trail[0].1 as int,
            ),
        ensures
            final(self)@ == old(self)@.trimmed(),
            final(map)@ == if old(self)@.sheds() {
                put(
                    old(map)@,
                    old(self)@.trail[0].0 as int,
                    old(self)@.trail[0].1 as int,
                    Tile::Empty,
                )
            } else {
                old(map)@
            },
    {
        if self.tail.len() >= self.size {
            let (x, y) = self.tail.remove(0);
            map.set(x, y, Tile::Empty);
        }
    }

    /// The tile under the head.
    pub fn touching_tile<const W: usize, const H: usize>(&self, map: &Grid<W, H>) -> (t: Tile)
        requires
            self@.on_field(W as int, H as int),
        ensures
            t == map@[self@.head.0][self@.head.1],
    {
        map.get(self.x() as usize, self.y() as usize)
    }

    /// Marks the cell under the head as part of the snake.
    pub fn place_head<const W: usize, const H: usize>(&self, map: &mut Grid<W, H>)
        requires
            self@.on_field(W as int, H as int),
        ensures
            final(map)@ == put(old(map)@, self@.head.0, self@.head.1, Tile::Snake),
    {
        map.set(self.x() as usize, self.y() as usize, Tile::Snake);
    }

    /// Whether the head lies on the field.
    pub fn in_bounds<const W: usize, const H: usize>(&self, map: &Grid<W, H>) -> (b: bool)
        ensures
            b == self@.on_field(W as int, H as int),
    {
        0 <= self.x() && 0 <= self.y() && map.in_bounds(self.x() as usize, self.y() as usize)
    }
}

} // verus!
