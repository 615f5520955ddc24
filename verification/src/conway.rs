//! A rectangular grid in row-major storage and the game-of-life stepper on
//! top of it.

use vstd::prelude::*;

verus! {

/// A rows x cols grid stored row-major: cell (r, c) lives at index
/// `r * cols + c`.
pub struct Grid<T: Copy> {
    rows: usize,
    cols: usize,
    grid: Vec<T>,
}

/// Row-major position (r, c) lies inside a rows x cols grid.
pub open spec fn in_bounds(rows: usize, cols: usize, r: int, c: int) -> bool {
    0 <= r < rows && 0 <= c < cols
}

/// A row-major index is injective over positions with a column inside the
/// row width.
proof fn lemma_row_major_injective(cols: int, r1: int, c1: int, r2: int, c2: int)
    requires
        cols > 0,
        0 <= c1 < cols,
        0 <= c2 < cols,
        r1 >= 0,
        r2 >= 0,
        r1 * cols + c1 == r2 * cols + c2,
    ensures
        r1 == r2 && c1 == c2,
{
    assert(r1 == r2 && c1 == c2) by (nonlinear_arith)
        requires
            cols > 0,
            0 <= c1 < cols,
            0 <= c2 < cols,
            r1 >= 0,
            r2 >= 0,
            r1 * cols + c1 == r2 * cols + c2,
    ;
}

/// A row-major index of an in-bounds position lies inside the storage.
proof fn lemma_row_major_bound(rows: int, cols: int, r: int, c: int)
    requires
        0 <= r < rows,
        0 <= c < cols,
    ensures
        0 <= r * cols + c < rows * cols,
{
    assert(0 <= r * cols + c < rows * cols) by (nonlinear_arith)
        requires
            0 <= r < rows,
            0 <= c < cols,
    ;
}

impl<T: Copy> Grid<T> {
    /// The cells, row-major.
    pub closed spec fn view(&self) -> Seq<T> {
        self.grid@
    }

    pub closed spec fn spec_rows(&self) -> usize {
        self.rows
    }

    pub closed spec fn spec_cols(&self) -> usize {
        self.cols
    }

    /// The storage holds exactly one cell per position.
    pub open spec fn wf(&self) -> bool {
        self.view().len() == self.spec_rows() * self.spec_cols()
    }

    /// A grid of the given dimensions with no cell storage yet; a usable grid
    /// is built with `from_slice`.
    pub fn new(rows: usize, cols: usize) -> (r: Self)
        ensures
            r.spec_rows() == rows,
            r.spec_cols() == cols,
            r.view() == Seq::<T>::empty(),
    {
        let grid: Vec<T> = Vec::new();
        Self { rows, cols, grid }
    }

    /// A grid of the given dimensions filled with a copy of the slice.
    pub fn from_slice(grid: &[T], rows: usize, cols: usize) -> (r: Self)
        ensures
            r.spec_rows() == rows,
            r.spec_cols() == cols,
            r.view() == grid@,
    {
        let grid_vec: Vec<T> = copy_slice(grid);
        Self { rows, cols, grid: grid_vec }
    }

    pub fn size(&self) -> (r: (usize, usize))
        ensures
            r.0 == self.spec_rows(),
            r.1 == self.spec_cols(),
    {
        (self.rows, self.cols)
    }

    pub fn get(&self, row: usize, col: usize) -> (r: &T)
        requires
            row * self.spec_cols() + col < self.view().len(),
        ensures
            *r == self.view()[row * self.spec_cols() + col],
    {
        let n = self.grid.len();
        &self.grid[row * self.cols + col]
    }

    pub fn set(&mut self, value: T, row: usize, col: usize)
        requires
            row * old(self).spec_cols() + col < old(self).view().len(),
        ensures
            final(self).spec_rows() == old(self).spec_rows(),
            final(self).spec_cols() == old(self).spec_cols(),
            final(self).view() == old(self).view().update(
                row * old(self).spec_cols() + col,
                value,
            ),
    {
        let n = self.grid.len();
        let idx = row * self.cols + col;
        self.grid[idx] = value;
    }

    /// The positions adjacent to (row, col) that lie inside the grid, in
    /// reading order: the row above left to right, the two sideways
    /// neighbours, then the row below left to right.
    pub fn neighbours(&self, row: usize, col: usize) -> (res: Vec<(usize, usize)>)
        requires
            self.spec_rows() > 0,
            self.spec_cols() > 0,
            row < self.spec_rows(),
            col < self.spec_cols(),
        ensures
            res@ == neighbour_list(self.spec_rows(), self.spec_cols(), row, col),
    {
        let mut res: Vec<(usize, usize)> = Vec::new();

        if row != 0 && col != 0 {
            res.push((row - 1, col - 1));
        }
        if row != 0 {
            res.push((row - 1, col));
        }
        if row != 0 && col != self.cols - 1 {
            res.push((row - 1, col + 1));
        }
        if col != 0 {
            res.push((row, col - 1));
        }
        if col != self.cols - 1 {
            res.push((row, col + 1));
        }
        if row != self.rows - 1 && col != 0 {
            res.push((row + 1, col - 1));
        }
        if row != self.rows - 1 {
            res.push((row + 1, col));
        }
        if row != self.rows - 1 && col != self.cols - 1 {
            res.push((row + 1, col + 1));
        }

        proof {
            assert(res@ =~= neighbour_list(self.spec_rows(), self.spec_cols(), row, col));
        }
        res
    }
}

impl<T: Copy> Clone for Grid<T> {
    fn clone(&self) -> (r: Self)
        ensures
            r.spec_rows() == self.spec_rows(),
            r.spec_cols() == self.spec_cols(),
            r.view() == self.view(),
    {
        Grid { rows: self.rows, cols: self.cols, grid: copy_vec(&self.grid) }
    }
}

/// A copy of a slice of copyable elements, element for element.
fn copy_slice<T: Copy>(s: &[T]) -> (r: Vec<T>)
    ensures
        r@ == s@,
{
    let mut r: Vec<T> = Vec::new();
    let mut i: usize = 0;
    while i < s.len()
        invariant
            i <= s@.len(),
            r@ == s@.take(i as int),
        decreases s@.len() - i,
    {
        let x = s[i];
        r.push(x);
        i = i + 1;
        proof {
            assert(r@ =~= s@.take(i as int));
        }
    }
    proof {
        assert(s@.take(s@.len() as int) =~= s@);
    }
    r
}

/// A copy of a vector of copyable elements, element for element.
fn copy_vec<T: Copy>(v: &Vec<T>) -> (r: Vec<T>)
    ensures
        r@ == v@,
{
    let mut r: Vec<T> = Vec::new();
    let mut i: usize = 0;
    while i < v.len()
        invariant
            i <= v@.len(),
            r@ == v@.take(i as int),
        decreases v@.len() - i,
    {
        let x = v[i];
        r.push(x);
        i = i + 1;
        proof {
            assert(r@ =~= v@.take(i as int));
        }
    }
    proof {
        assert(v@.take(v@.len() as int) =~= v@);
    }
    r
}

/// The in-bounds neighbours of (row, col), in the order `neighbours` lists
/// them.
pub open spec fn neighbour_list(rows: usize, cols: usize, row: usize, col: usize) -> Seq<
    (usize, usize),
>
    recommends
        rows > 0,
        cols > 0,
        row < rows,
        col < cols,
{
    let s = Seq::<(usize, usize)>::empty();
    let s = if row != 0 && col != 0 {
        s.push(((row - 1) as usize, (col - 1) as usize))
    } else {
        s
    };
    let s = if row != 0 {
        s.push(((row - 1) as usize, col))
    } else {
        s
    };
    let s = if row != 0 && col != cols - 1 {
        s.push(((row - 1) as usize, (col + 1) as usize))
    } else {
        s
    };
    let s = if col != 0 {
        s.push((row, (col - 1) as usize))
    } else {
        s
    };
    let s = if col != cols - 1 {
        s.push((row, (col + 1) as usize))
    } else {
        s
    };
    let s = if row != rows - 1 && col != 0 {
        s.push(((row + 1) as usize, (col - 1) as usize))
    } else {
        s
    };
    let s = if row != rows - 1 {
        s.push(((row + 1) as usize, col))
    } else {
        s
    };
    let s = if row != rows - 1 && col != cols - 1 {
        s.push(((row + 1) as usize, (col + 1) as usize))
    } else {
        s
    };
    s
}

/// One cell: dead or alive.
#[derive(Clone, Copy, PartialEq, Eq, Debug, Structural)]
pub enum Cell {
    Dead,
    Alive,
}

impl Default for Cell {
    fn default() -> (r: Self)
        ensures
            r == Cell::Dead,
    {
        Self::Dead
    }
}

/// How many of the listed positions hold a live cell in a row-major board.
pub open spec fn live_count(g: Seq<Cell>, cols: usize, ns: Seq<(usize, usize)>) -> int
    decreases ns.len(),
{
    if ns.len() == 0 {
        0
    } else {
        live_count(g, cols, ns.drop_last()) + (if g[ns.last().0 * cols + ns.last().1]
            == Cell::Alive {
            1int
        } else {
            0int
        })
    }
}

/// How many live neighbours cell (r, c) has.
pub open spec fn live_neighbours(g: Seq<Cell>, rows: usize, cols: usize, r: usize, c: usize) -> int {
    live_count(g, cols, neighbour_list(rows, cols, r, c))
}

/// The next state of one cell under the life rule: a dead cell with exactly
/// three live neighbours comes alive; a live cell with two or three live
/// neighbours stays alive; every other cell is dead afterwards.
pub open spec fn next_cell(cur: Cell, alive: int) -> Cell {
    match cur {
        Cell::Dead => if alive == 3 {
            Cell::Alive
        } else {
            Cell::Dead
        },
        Cell::Alive => if 2 <= alive <= 3 {
            Cell::Alive
        } else {
            Cell::Dead
        },
    }
}

/// A game-of-life board.
pub struct GameOfLife {
    grid: Grid<Cell>,
}

impl GameOfLife {
    pub closed spec fn spec_grid(&self) -> Grid<Cell> {
        self.grid
    }

    pub open spec fn wf(&self) -> bool {
        self.spec_grid().wf()
    }

    pub fn from_grid(grid: Grid<Cell>) -> (r: Self)
        ensures
            r.spec_grid() == grid,
    {
        Self { grid }
    }

    pub fn get_grid(&self) -> (r: &Grid<Cell>)
        ensures
            *r == self.spec_grid(),
    {
        &self.grid
    }

    /// Advance the whole board one generation: every cell moves to
    /// `next_cell` of its old state and its old live-neighbour count, all
    /// judged against the board as it was before the step.
    #[verifier::loop_isolation(false)]
    #[verifier::rlimit(100)]
    pub fn step(&mut self)
        requires
            old(self).wf(),
        ensures
            final(self).wf(),
            final(self).spec_grid().spec_rows() == old(self).spec_grid().spec_rows(),
            final(self).spec_grid().spec_cols() == old(self).spec_grid().spec_cols(),
            forall|r: usize, c: usize|
                #[trigger] in_bounds(
                    old(self).spec_grid().spec_rows(),
                    old(self).spec_grid().spec_cols(),
                    r as int,
                    c as int,
                ) ==> final(self).spec_grid().view()[r * old(self).spec_grid().spec_cols() + c]
                    == next_cell(
                    old(self).spec_grid().view()[r * old(self).spec_grid().spec_cols() + c],
                    live_neighbours(
                        old(self).spec_grid().view(),
                        old(self).spec_grid().spec_rows(),
                        old(self).spec_grid().spec_cols(),
                        r,
                        c,
                    ),
                ),
    {
        let cur_grid: Grid<Cell> = self.grid.clone();
        let rows = self.grid.rows;
        let cols = self.grid.cols;
        let ghost g0 = old(self).spec_grid().view();

        let mut i: usize = 0;
        while i < rows
            invariant
                self.grid.spec_rows() == rows,
                self.grid.spec_cols() == cols,
                self.grid.view().len() == rows * cols,
                cur_grid.spec_rows() == rows,
                cur_grid.spec_cols() == cols,
                cur_grid.view() == g0,
                g0.len() == rows * cols,
                i <= rows,
                forall|r: usize, c: usize|
                    #[trigger] in_bounds(rows, cols, r as int, c as int) && r < i
                        ==> self.grid.view()[r * cols + c] == next_cell(
                        g0[r * cols + c],
                        live_neighbours(g0, rows, cols, r, c),
                    ),
                forall|r: usize, c: usize|
                    #[trigger] in_bounds(rows, cols, r as int, c as int) && r >= i
                        ==> self.grid.view()[r * cols + c] == g0[r * cols + c],
            decreases rows - i,
        {
            let mut j: usize = 0;
            while j < cols
                invariant
                    self.grid.spec_rows() == rows,
                    self.grid.spec_cols() == cols,
                    self.grid.view().len() == rows * cols,
                    cur_grid.spec_rows() == rows,
                    cur_grid.spec_cols() == cols,
                    cur_grid.view() == g0,
                    g0.len() == rows * cols,
                    i < rows,
                    j <= cols,
                    forall|r: usize, c: usize|
                        #[trigger] in_bounds(rows, cols, r as int, c as int) && (r < i || (r == i
                            && c < j)) ==> self.grid.view()[r * cols + c] == next_cell(
                            g0[r * cols + c],
                            live_neighbours(g0, rows, cols, r, c),
                        ),
                    forall|r: usize, c: usize|
                        #[trigger] in_bounds(rows, cols, r as int, c as int) && (r > i || (r == i
                            && c >= j)) ==> self.grid.view()[r * cols + c] == g0[r * cols + c],
                decreases cols - j,
            {
                let ns = cur_grid.neighbours(i, j);
                let ghost nl = neighbour_list(rows, cols, i, j);

                let mut alive_ns: usize = 0;
                let mut k: usize = 0;
                while k < ns.len()
                    invariant
                        ns@ == nl,
                        cur_grid.view() == g0,
                        cur_grid.spec_rows() == rows,
                        cur_grid.spec_cols() == cols,
                        g0.len() == rows * cols,
                        rows > 0,
                        cols > 0,
                        i < rows,
                        j < cols,
                        forall|t: int|
                            0 <= t < nl.len() ==> in_bounds(
                                rows,
                                cols,
                                #[trigger] nl[t].0 as int,
                                nl[t].1 as int,
                            ),
                        k <= nl.len(),
                        alive_ns <= k,
                        alive_ns == live_count(g0, cols, nl.take(k as int)),
                    decreases nl.len() - k,
                {
                    let n = ns[k];
                    proof {
                        lemma_row_major_bound(rows as int, cols as int, n.0 as int, n.1 as int);
                    }
                    match *cur_grid.get(n.0, n.1) {
                        Cell::Dead => {},
                        Cell::Alive => {
                            alive_ns = alive_ns + 1;
                        },
                    }
                    k = k + 1;
                    proof {
                        assert(nl.take(k as int).drop_last() =~= nl.take(k as int - 1));
                        assert(nl.take(k as int).last() == nl[k as int - 1]);
                    }
                }
                proof {
                    assert(nl.take(nl.len() as int) =~= nl);
                    assert(alive_ns == live_neighbours(g0, rows, cols, i, j));
                    lemma_row_major_bound(rows as int, cols as int, i as int, j as int);
                }

                let ghost before = self.grid.view();
                proof {
                    assert(in_bounds(rows, cols, i as int, j as int));
                    assert(self.grid.view()[i * cols + j] == g0[i * cols + j]);
                }
                match *cur_grid.get(i, j) {
                    Cell::Dead => {
                        if alive_ns == 3 {
                            self.grid.set(Cell::Alive, i, j);
                        }
                    },
                    Cell::Alive => {
                        if !(2 <= alive_ns && alive_ns <= 3) {
                            self.grid.set(Cell::Dead, i, j);
                        }
                    },
                }
                proof {
                    assert forall|r: usize, c: usize|
                        in_bounds(rows, cols, r as int, c as int) && !(r == i && c == j) implies
                        self.grid.view()[r * cols + c] == before[r * cols + c] by {
                        lemma_row_major_bound(rows as int, cols as int, r as int, c as int);
                        if r * cols + c == i * cols + j {
                            lemma_row_major_injective(
                                cols as int,
                                r as int,
                                c as int,
                                i as int,
                                j as int,
                            );
                        }
                    }
                    assert(self.grid.view()[i * cols + j] == next_cell(
                        g0[i * cols + j],
                        live_neighbours(g0, rows, cols, i, j),
                    ));
                }
                j = j + 1;
            }
            i = i + 1;
        }
    }
}

} // verus!
