//! The dense board: a rectangular grid of cells stored row by row. This is
//! the canonical representation; every contract speaks of the board's view, a
//! boolean grid, through the spec functions of `crate::rules`.

use vstd::prelude::*;

use crate::rules::{
    alive_at, b2i, lemma_render_grid_take_step, live_neighbors, next_alive, next_grid,
    render_cells, render_char, render_grid,
};
use crate::seed::{random_u32, ALIVE_THRESHOLD};
use vstd::string::StringExecFns;

verus! {

/// The binary state of one cell.
#[derive(Clone, Copy, PartialEq, Eq, Structural, Debug)]
pub enum Cell {
    Alive,
    Dead,
}

/// A rectangular board of cells. Dimensions are fixed at construction: every
/// row has the same length, and `tick` never changes them.
pub struct Board {
    cells: Vec<Vec<Cell>>,
}

impl View for Board {
    type V = Seq<Seq<bool>>;

    closed spec fn view(&self) -> Seq<Seq<bool>> {
        Seq::new(
            self.cells@.len(),
            |y: int| Seq::new(self.cells@[y]@.len(), |x: int| self.cells@[y]@[x] is Alive),
        )
    }
}

impl Board {
    /// Number of rows.
    pub open spec fn height(&self) -> int {
        self@.len() as int
    }

    /// Number of columns; a board without rows has width zero.
    pub open spec fn width(&self) -> int {
        if self@.len() == 0 {
            0
        } else {
            self@[0].len() as int
        }
    }

    /// Well-formed: rectangular, every row as long as the first.
    pub open spec fn wf(&self) -> bool {
        forall|y: int| 0 <= y < self@.len() ==> (#[trigger] self@[y]).len() == self.width()
    }

    /// A freshly seeded board of `length` rows by `width` columns: each cell
    /// starts `Alive` with probability 0.2, decided by one draw from the
    /// external random source, and `Dead` otherwise. Which cells start alive
    /// is random, so the contract pins the dimensions alone.
    pub fn new(length: u8, width: u8) -> (b: Board)
        ensures
            b.wf(),
            b@.len() == length as int,
            forall|y: int| 0 <= y < length as int ==> (#[trigger] b@[y]).len() == width as int,
    {
        let mut cells: Vec<Vec<Cell>> = Vec::new();
        let mut y: u8 = 0;
        while y < length
            invariant
                y <= length,
                cells@.len() == y as int,
                forall|yy: int|
                    0 <= yy < y as int ==> (#[trigger] cells@[yy])@.len() == width as int,
            decreases length - y,
        {
            let mut row: Vec<Cell> = Vec::new();
            let mut x: u8 = 0;
            while x < width
                invariant
                    x <= width,
                    row@.len() == x as int,
                decreases width - x,
            {
                let draw: u32 = random_u32();
                let cell = if draw < ALIVE_THRESHOLD {
                    Cell::Alive
                } else {
                    Cell::Dead
                };
                row.push(cell);
                x += 1;
            }
            cells.push(row);
            y += 1;
        }
        let b = Board { cells };
        proof {
            b.lemma_view_mirrors_cells();
        }
        b
    }

    /// A board of `length` rows by `width` columns whose cells all hold the
    /// given state.
    pub fn uniform(length: u8, width: u8, cell: Cell) -> (b: Board)
        ensures
            b.wf(),
            b@.len() == length as int,
            forall|y: int| 0 <= y < length as int ==> (#[trigger] b@[y]).len() == width as int,
            forall|y: int, x: int|
                0 <= y < length as int && 0 <= x < width as int ==> #[trigger] b@[y][x] == (
                cell is Alive),
    {
        let mut cells: Vec<Vec<Cell>> = Vec::new();
        let mut y: u8 = 0;
        while y < length
            invariant
                y <= length,
                cells@.len() == y as int,
                forall|yy: int|
                    0 <= yy < y as int ==> (#[trigger] cells@[yy])@.len() == width as int,
                forall|yy: int, xx: int|
                    0 <= yy < y as int && 0 <= xx < width as int ==> #[trigger] cells@[yy]@[xx]
                        == cell,
            decreases length - y,
        {
            let mut row: Vec<Cell> = Vec::new();
            let mut x: u8 = 0;
            while x < width
                invariant
                    x <= width,
                    row@.len() == x as int,
                    forall|xx: int| 0 <= xx < x as int ==> #[trigger] row@[xx] == cell,
                decreases width - x,
            {
                row.push(cell);
                x += 1;
            }
            cells.push(row);
            y += 1;
        }
        let b = Board { cells };
        proof {
            b.lemma_view_mirrors_cells();
        }
        b
    }

    /// The state stored at (x, y).
    pub fn get(&self, x: usize, y: usize) -> (c: Cell)
        requires
            self.wf(),
            y < self@.len(),
            x < self.width(),
        ensures
            (c is Alive) == self@[y as int][x as int],
    {
        proof {
            self.lemma_view_mirrors_cells();
            assert(self@[y as int].len() == self.width());
        }
        self.cells[y][x]
    }

    /// Overwrite the state at (x, y); every other cell and the dimensions
    /// stay as they were.
    pub fn set(&mut self, x: usize, y: usize, cell: Cell)
        requires
            old(self).wf(),
            y < old(self)@.len(),
            x < old(self).width(),
        ensures
            final (self).wf(),
            final (self)@ == old(self)@.update(
                y as int,
                old(self)@[y as int].update(x as int, cell is Alive),
            ),
    {
        proof {
            self.lemma_view_mirrors_cells();
            assert(self@[y as int].len() == self.width());
        }
        self.cells[y][x] = cell;
        proof {
            self.lemma_view_mirrors_cells();
            assert(self@ =~~= old(self)@.update(
                y as int,
                old(self)@[y as int].update(x as int, cell is Alive),
            ));
        }
    }

    /// The view mirrors the stored vectors: same lengths, and a cell is true
    /// in the view exactly when the stored cell is `Alive`.
    proof fn lemma_view_mirrors_cells(&self)
        ensures
            self@.len() == self.cells@.len(),
            forall|y: int|
                0 <= y < self@.len() ==> (#[trigger] self@[y]).len() == self.cells@[y]@.len(),
            forall|y: int, x: int|
                0 <= y < self@.len() && 0 <= x < self@[y].len() ==> #[trigger] self@[y][x] == (
                self.cells@[y]@[x] is Alive),
    {
    }

    /// Living cells directly left and right of (x, y), fewer at an edge.
    pub fn neighbors_adjacent(&self, x: usize, y: usize) -> (n: u8)
        requires
            self.wf(),
            y < self@.len(),
            x < self.width(),
        ensures
            n as int == b2i(alive_at(self@, x as int - 1, y as int)) + b2i(
                alive_at(self@, x as int + 1, y as int),
            ),
    {
        proof {
            self.lemma_view_mirrors_cells();
            assert(self@[y as int].len() == self.width());
        }
        let mut n: u8 = 0;
        let row = &self.cells[y];
        let row_length = row.len();

        if x > 0 {
            match row[x - 1] {
                Cell::Alive => n += 1,
                Cell::Dead => (),
            }
        }
        if x + 1 < row_length {
            match row[x + 1] {
                Cell::Alive => n += 1,
                Cell::Dead => (),
            }
        }
        n
    }

    /// Living cells among the three positions in the row above (x, y).
    pub fn neighbors_above(&self, x: usize, y: usize) -> (n: u8)
        requires
            self.wf(),
            1 <= y < self@.len(),
            x < self.width(),
        ensures
            n as int == b2i(alive_at(self@, x as int - 1, y as int - 1)) + b2i(
                alive_at(self@, x as int, y as int - 1),
            ) + b2i(alive_at(self@, x as int + 1, y as int - 1)),
    {
        proof {
            self.lemma_view_mirrors_cells();
            assert(self@[y as int - 1].len() == self.width());
        }
        let mut n: u8 = match self.cells[y - 1][x] {
            Cell::Alive => 1,
            Cell::Dead => 0,
        };
        n += self.neighbors_adjacent(x, y - 1);
        n
    }

    /// Living cells among the three positions in the row below (x, y).
    pub fn neighbors_below(&self, x: usize, y: usize) -> (n: u8)
        requires
            self.wf(),
            y < self@.len(),
            y + 1 < self@.len(),
            x < self.width(),
        ensures
            n as int == b2i(alive_at(self@, x as int - 1, y as int + 1)) + b2i(
                alive_at(self@, x as int, y as int + 1),
            ) + b2i(alive_at(self@, x as int + 1, y as int + 1)),
    {
        proof {
            self.lemma_view_mirrors_cells();
            assert(self@[y as int + 1].len() == self.width());
        }
        // The exec row count bounds `y + 1` by a machine word.
        let _height = self.cells.len();
        let mut n: u8 = match self.cells[y + 1][x] {
            Cell::Alive => 1,
            Cell::Dead => 0,
        };
        n += self.neighbors_adjacent(x, y + 1);
        n
    }

    /// Count of living cells among the up-to-eight neighbors of (x, y); the
    /// positions that fall off the board contribute nothing.
    pub fn count_neighbors(&self, x: usize, y: usize) -> (n: u8)
        requires
            self.wf(),
            y < self@.len(),
            x < self.width(),
        ensures
            n as int == live_neighbors(self@, x as int, y as int),
    {
        proof {
            self.lemma_view_mirrors_cells();
        }
        let height = self.cells.len();
        let mut n: u8 = self.neighbors_adjacent(x, y);
        if y > 0 {
            n += self.neighbors_above(x, y);
        }
        if y + 1 < height {
            n += self.neighbors_below(x, y);
        }
        n
    }

    /// Advance the board one generation. Every next state is decided from a
    /// frozen snapshot of the current generation by the standard rule, so the
    /// result is a function of the current cell states alone, and the
    /// dimensions never change.
    pub fn tick(&mut self)
        requires
            old(self).wf(),
        ensures
            final (self).wf(),
            final (self)@ == next_grid(old(self)@),
            final (self)@.len() == old(self)@.len(),
            final (self).width() == old(self).width(),
    {
        proof {
            self.lemma_view_mirrors_cells();
        }
        let ghost g: Seq<Seq<bool>> = self@;
        let mut cells: Vec<Vec<Cell>> = Vec::new();
        let max_row_count = self.cells.len();

        let mut y: usize = 0;
        while y < max_row_count
            invariant
                self.wf(),
                g == self@,
                max_row_count == self@.len(),
                y <= max_row_count,
                cells@.len() == y as int,
                forall|yy: int|
                    0 <= yy < y as int ==> (#[trigger] cells@[yy])@.len() == next_grid(g)[yy].len(),
                forall|yy: int, xx: int|
                    0 <= yy < y as int && 0 <= xx < cells@[yy]@.len() ==> (
                    #[trigger] cells@[yy]@[xx] is Alive) == next_grid(g)[yy][xx],
            decreases max_row_count - y,
        {
            proof {
                self.lemma_view_mirrors_cells();
                assert(self@[y as int].len() == self.width());
            }
            let mut new_row: Vec<Cell> = Vec::new();
            let row_length = self.cells[y].len();

            let mut x: usize = 0;
            while x < row_length
                invariant
                    self.wf(),
                    g == self@,
                    y < self@.len(),
                    row_length == self@[y as int].len(),
                    row_length == self.width(),
                    x <= row_length,
                    new_row@.len() == x as int,
                    forall|xx: int|
                        0 <= xx < x as int ==> (#[trigger] new_row@[xx] is Alive) == next_grid(
                            g,
                        )[y as int][xx],
                decreases row_length - x,
            {
                let neighbor_count = self.count_neighbors(x, y);
                let cell = self.get(x, y);
                let new_cell = match cell {
                    Cell::Alive => {
                        if neighbor_count == 2 || neighbor_count == 3 {
                            Cell::Alive
                        } else {
                            Cell::Dead
                        }
                    },
                    Cell::Dead => {
                        if neighbor_count == 3 {
                            Cell::Alive
                        } else {
                            Cell::Dead
                        }
                    },
                };
                proof {
                    assert(next_grid(g)[y as int].len() == g[y as int].len());
                    assert(next_grid(g)[y as int][x as int] == next_alive(
                        g[y as int][x as int],
                        live_neighbors(g, x as int, y as int),
                    ));
                }
                new_row.push(new_cell);
                x += 1;
            }
            cells.push(new_row);
            y += 1;
        }
        self.cells = cells;
        proof {
            self.lemma_view_mirrors_cells();
            assert(self@ =~~= next_grid(g));
        }
    }

    /// The text rendering of the current generation: one line per row, 'O'
    /// for a living cell, a space for a dead one, every row ended by a line
    /// break.
    pub fn render(&self) -> (s: String)
        ensures
            s@ == render_grid(self@),
    {
        proof {
            self.lemma_view_mirrors_cells();
        }
        let mut out = String::new();
        let height = self.cells.len();
        let mut y: usize = 0;
        while y < height
            invariant
                height == self@.len(),
                y <= height,
                out@ == render_grid(self@.take(y as int)),
            decreases height - y,
        {
            proof {
                self.lemma_view_mirrors_cells();
            }
            let row_length = self.cells[y].len();
            let mut x: usize = 0;
            while x < row_length
                invariant
                    y < self@.len(),
                    height == self@.len(),
                    row_length == self@[y as int].len(),
                    x <= row_length,
                    out@ == render_grid(self@.take(y as int)) + render_cells(
                        self@[y as int].take(x as int),
                    ),
                decreases row_length - x,
            {
                proof {
                    self.lemma_view_mirrors_cells();
                }
                match self.cells[y][x] {
                    Cell::Alive => out.append("O"),
                    Cell::Dead => out.append(" "),
                }
                proof {
                    reveal_strlit("O");
                    reveal_strlit(" ");
                    assert(render_cells(self@[y as int].take(x as int + 1)) =~= render_cells(
                        self@[y as int].take(x as int),
                    ).push(render_char(self@[y as int][x as int])));
                }
                x += 1;
            }
            out.append("\n");
            proof {
                reveal_strlit("\n");
                assert(self@[y as int].take(row_length as int) =~= self@[y as int]);
                lemma_render_grid_take_step(self@, y as int);
                assert(out@ =~= render_grid(self@.take(y as int + 1)));
            }
            y += 1;
        }
        proof {
            assert(self@.take(height as int) =~= self@);
        }
        out
    }
}

} // verus!
