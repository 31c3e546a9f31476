//! The playing field and what lies on it.

use vstd::prelude::*;

verus! {

/// What a single cell of the playing field holds.
#[derive(Copy, Clone, PartialEq, Eq, Structural, Debug)]
pub enum Tile {
    Empty,
    Snake,
    Food,
}

/// Whether `(x, y)` names a cell of a field of `w` columns and `h` rows.
pub open spec fn inside(w: int, h: int, x: int, y: int) -> bool {
    0 <= x < w && 0 <= y < h
}

/// Whether `t` is a field of `w` columns that hold `h` tiles each.
pub open spec fn shaped(t: Seq<Seq<Tile>>, w: int, h: int) -> bool {
    t.len() == w && forall|x: int| 0 <= x < w ==> (#[trigger] t[x]).len() == h
}

/// A field of `w` columns and `h` rows with nothing on it.
pub open spec fn blank(w: int, h: int) -> Seq<Seq<Tile>> {
    Seq::new(w as nat, |x: int| Seq::new(h as nat, |y: int| Tile::Empty))
}

/// The field `t` with the tile at `(x, y)` replaced by `tile`.
pub open spec fn put(t: Seq<Seq<Tile>>, x: int, y: int, tile: Tile) -> Seq<Seq<Tile>> {
    t.update(x, t[x].update(y, tile))
}

/// How many of the first `y` tiles of a column are empty.
pub open spec fn column_empties(col: Seq<Tile>, y: int) -> nat
    decreases y,
{
    if y <= 0 {
        0
    } else {
        column_empties(col, y - 1) + if col[y - 1] == Tile::Empty {
            1nat
        } else {
            0nat
        }
    }
}

/// How many tiles of the first `x` columns are empty.
pub open spec fn empties_before(t: Seq<Seq<Tile>>, x: int) -> nat
    decreases x,
{
    if x <= 0 {
        0
    } else {
        empties_before(t, x - 1) + column_empties(t[x - 1], t[x - 1].len() as int)
    }
}

/// How many empty cells come before `(x, y)` when the field is read column by
/// column, each column from row 0 on.
pub open spec fn rank(t: Seq<Seq<Tile>>, x: int, y: int) -> nat {
    empties_before(t, x) + column_empties(t[x], y)
}

/// How many cells of the field are empty.
pub open spec fn empties(t: Seq<Seq<Tile>>) -> nat {
    empties_before(t, t.len() as int)
}

/// The empty tiles among the first `y` of a column are no fewer than those
/// among its first `lower`, for `lower <= y`.
pub proof fn lemma_column_empties_grow(col: Seq<Tile>, lower: int, y: int)
    requires
        0 <= lower <= y,
    ensures
        column_empties(col, lower) <= column_empties(col, y),
    decreases y - lower,
{
    if lower < y {
        lemma_column_empties_grow(col, lower, y - 1);
    }
}

/// The empty tiles of the first `x` columns are no fewer than those of the
/// first `lower`, for `lower <= x`.
pub proof fn lemma_empties_before_grow(t: Seq<Seq<Tile>>, lower: int, x: int)
    requires
        0 <= lower <= x,
    ensures
        empties_before(t, lower) <= empties_before(t, x),
    decreases x - lower,
{
    if lower < x {
        lemma_empties_before_grow(t, lower, x - 1);
    }
}

/// An empty cell is counted: fewer empty cells come before it than the field
/// has.
pub proof fn lemma_empty_cell_counted(t: Seq<Seq<Tile>>, w: int, h: int, x: int, y: int)
    requires
        shaped(t, w, h),
        inside(w, h, x, y),
        t[x][y] == Tile::Empty,
    ensures
        rank(t, x, y) < empties(t),
{
    lemma_column_empties_grow(t[x], y + 1, h);
    lemma_empties_before_grow(t, x + 1, w);
}

/// Cells of a field of `w` columns and `h` rows, none named twice, are at
/// most `w * h`.
pub proof fn lemma_cells_fit(cells: Seq<(usize, usize)>, w: int, h: int)
    requires
        0 <= w,
        0 <= h,
        cells.no_duplicates(),
        forall|i: int|
            0 <= i < cells.len() ==> inside(w, h, (#[trigger] cells[i]).0 as int, cells[i].1 as int),
    ensures
        cells.len() <= w * h,
{
    assert(0 <= w * h) by (nonlinear_arith)
        requires
            0 <= w,
            0 <= h,
    ;
    if cells.len() > 0 {
        let number = Seq::new(cells.len(), |i: int| cells[i].0 * h + cells[i].1);
        assert forall|i: int| 0 <= i < number.len() implies 0 <= #[trigger] number[i] < w * h by {
            let x = cells[i].0 as int;
            let y = cells[i].1 as int;
            assert(inside(w, h, x, y));
            assert(0 <= x * h + y < w * h) by (nonlinear_arith)
                requires
                    0 <= x < w,
                    0 <= y < h,
            ;
        }
        assert forall|i: int, j: int|
            0 <= i < number.len() && 0 <= j < number.len() && i != j implies number[i]
            != number[j] by {
            let xi = cells[i].0 as int;
            let yi = cells[i].1 as int;
            let xj = cells[j].0 as int;
            let yj = cells[j].1 as int;
            assert(inside(w, h, xi, yi));
            assert(inside(w, h, xj, yj));
            assert(cells[i] != cells[j]);
            assert(xi * h + yi == xj * h + yj ==> xi == xj) by (nonlinear_arith)
                requires
                    0 <= yi < h,
                    0 <= yj < h,
            ;
        }
        assert(number.no_duplicates());
        number.unique_seq_to_set();
        vstd::set_lib::lemma_int_range(0, w * h);
        assert(number.to_set().subset_of(vstd::set_lib::set_int_range(0, w * h))) by {
            assert forall|v: int| number.to_set().contains(v) implies vstd::set_lib::set_int_range(
                0,
                w * h,
            ).contains(v) by {
                let i = choose|i: int| 0 <= i < number.len() && number[i] == v;
                assert(0 <= number[i] < w * h);
            }
        }
        vstd::set_lib::lemma_len_subset(number.to_set(), vstd::set_lib::set_int_range(0, w * h));
    }
}

/// The playing field: `W` columns of `H` cells each.
pub struct Grid<const W: usize, const H: usize> {
    data: [[Tile; H]; W],
}

impl<const W: usize, const H: usize> View for Grid<W, H> {
    type V = Seq<Seq<Tile>>;

    /// The field as `W` columns of `H` tiles: `self@[x][y]` is the tile at
    /// column `x`, row `y`.
    open spec fn view(&self) -> Seq<Seq<Tile>> {
        Seq::new(W as nat, |x: int| Seq::new(H as nat, |y: int| self.tile(x, y)))
    }
}

impl<const W: usize, const H: usize> Grid<W, H> {
    /// The tile at column `x`, row `y`.
    pub closed spec fn tile(&self, x: int, y: int) -> Tile {
        self.data@[x]@[y]
    }

    /// A field on which every cell is empty.
    pub fn new() -> (m: Self)
        ensures
            m@ == blank(W as int, H as int),
            forall|x: int, y: int|
                inside(W as int, H as int, x, y) ==> (#[trigger] m@[x][y]) == Tile::Empty,
    {
        let m = Grid { data: [[Tile::Empty; H]; W] };
        assert(m@ =~~= blank(W as int, H as int));
        m
    }

    /// Whether `(x, y)` names a cell of the field.
    pub fn in_bounds(&self, x: usize, y: usize) -> (b: bool)
        ensures
            b == inside(W as int, H as int, x as int, y as int),
    {
        x < W && y < H
    }

    /// The tile at `(x, y)`.
    pub fn get(&self, x: usize, y: usize) -> (t: Tile)
        requires
            inside(W as int, H as int, x as int, y as int),
        ensures
            t == self@[x as int][y as int],
    {
        self.data[x][y]
    }

    /// How many cells of the field are empty.
    pub fn count_empty(&self) -> (n: usize)
        requires
            W * H <= usize::MAX,
        ensures
            n == empties(self@),
    {
        let mut n: usize = 0;
        let mut x: usize = 0;
        while x < W
            invariant
                x <= W,
                W * H <= usize::MAX,
                n == empties_before(self@, x as int),
                n <= x * H,
            decreases W - x,
        {
            let ghost base = n;
            let mut y: usize = 0;
            while y < H
                invariant
                    y <= H,
                    x < W,
                    W * H <= usize::MAX,
                    base <= x * H,
                    n == base + column_empties(self@[x as int], y as int),
                    n <= x * H + y,
                decreases H - y,
            {
                proof {
                    assert(x * H + H <= W * H) by (nonlinear_arith)
                        requires
                            x < W,
                    ;
                }
                if self.get(x, y) == Tile::Empty {
                    n += 1;
                }
                y += 1;
            }
            proof {
                assert(x * H + H == (x + 1) * H) by (nonlinear_arith);
            }
            x += 1;
        }
        n
    }

    /// The empty cell that has exactly `k` empty cells before it, the field
    /// read column by column.
    pub fn nth_empty(&self, k: usize) -> (c: (usize, usize))
        requires
            k < empties(self@),
        ensures
            inside(W as int, H as int, c.0 as int, c.1 as int),
            self@[c.0 as int][c.1 as int] == Tile::Empty,
            rank(self@, c.0 as int, c.1 as int) == k,
    {
        let mut n: usize = 0;
        let mut x: usize = 0;
        while x < W
            invariant
                x <= W,
                k < empties(self@),
                n == empties_before(self@, x as int),
                n <= k,
            decreases W - x,
        {
            let ghost base = n;
            let mut y: usize = 0;
            while y < H
                invariant
                    y <= H,
                    x < W,
                    base == empties_before(self@, x as int),
                    n == base + column_empties(self@[x as int], y as int),
                    n <= k,
                decreases H - y,
            {
                if self.get(x, y) == Tile::Empty {
                    if n == k {
                        return (x, y);
                    }
                    n += 1;
                }
                y += 1;
            }
            x += 1;
        }
        // Never reached: all `empties` empty cells have been passed by now,
        // and the `k`-th of them was among them.
        proof {
            assert(n == empties(self@));
        }
        (0, 0)
    }

    /// Overwrites the tile at `(x, y)` and leaves every other cell as it was.
    pub fn set(&mut self, x: usize, y: usize, tile: Tile)
        requires
            inside(W as int, H as int, x as int, y as int),
        ensures
            final(self)@ == put(old(self)@, x as int, y as int, tile),
    {
        self.data[x][y] = tile;
        assert(self@ =~~= put(old(self)@, x as int, y as int, tile));
    }
}

impl<const W: usize, const H: usize> Default for Grid<W, H> {
    /// A field on which every cell is empty.
    fn default() -> (m: Self)
        ensures
            m@ == blank(W as int, H as int),
    {
        Grid::new()
    }
}

} // verus!
