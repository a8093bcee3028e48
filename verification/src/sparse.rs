//! The sparse board: an explicit list of cells, each carrying its 1-based
//! position and state. The coordinate domain deliberately spans positions
//! `1..width` by `1..height` only, so a border ring of the `width` by
//! `height` bounding box is never simulated: it renders as dead and never
//! updates. The view of such a board is the full bounding box as a boolean
//! grid, in 0-based box coordinates, with the unmodeled border always false.

use vstd::prelude::*;

use crate::rules::{
    alive_at, lemma_render_grid_take_step, live_neighbors, next_alive, render_cells, render_char,
    render_grid,
};
use crate::seed::{random_u32, ALIVE_THRESHOLD};
use vstd::string::StringExecFns;

verus! {

/// The binary state of one stored cell.
#[derive(Clone, Copy, PartialEq, Eq, Structural, Debug)]
pub enum State {
    Alive,
    Dead,
}

/// A 1-based coordinate pair: column first, then row.
#[derive(Clone, Copy, PartialEq, Eq, Structural, Debug)]
pub struct Position(pub i32, pub i32);

impl Position {
    /// A copy of the given position.
    pub fn from(other: &Self) -> (p: Self)
        ensures
            p == *other,
    {
        Self(other.0, other.1)
    }
}

/// One stored cell: a position and its state.
#[derive(Clone, Copy, Debug)]
pub struct Cell {
    pub position: Position,
    pub state: State,
}

/// Where the cell at position (x, y) sits in the stored list: the cells are
/// kept in column-major order over the domain `1..width` by `1..height`.
pub open spec fn idx(h: int, x: int, y: int) -> int {
    (x - 1) * (h - 1) + (y - 1)
}

/// The next generation of a sparse board's bounding box: the rule is applied
/// on the modeled region (every box coordinate but the last column and the
/// last row), and the unmodeled border stays dead.
pub open spec fn interior_next(g: Seq<Seq<bool>>) -> Seq<Seq<bool>> {
    Seq::new(
        g.len(),
        |y: int|
            Seq::new(
                g[y].len(),
                |x: int|
                    y + 1 < g.len() && x + 1 < g[y].len() && next_alive(
                        g[y][x],
                        live_neighbors(g, x, y),
                    ),
            ),
    )
}

/// The stored index of an in-domain position lies within the list, and the
/// list never outgrows what a machine index holds.
proof fn lemma_idx_bounds(w: int, h: int, x: int, y: int)
    by (nonlinear_arith)
    requires
        1 <= x < w,
        1 <= y < h,
        w <= 30000,
        h <= 30000,
    ensures
        0 <= (x - 1) * (h - 1) + (y - 1),
        (x - 1) * (h - 1) + (y - 1) < (w - 1) * (h - 1),
        (w - 1) * (h - 1) <= 899940001,
{
}

/// Finishing one column of `h - 1` cells lands exactly at the start of the
/// next column.
proof fn lemma_column_total(x: int, h: int)
    by (nonlinear_arith)
    ensures
        (x - 1) * (h - 1) + (h - 1) == x * (h - 1),
{
}

/// A board of cells over the domain `1..width` by `1..height`, in a `width`
/// by `height` bounding box. Dimensions are fixed at construction.
pub struct Board {
    cells: Vec<Cell>,
    width: i32,
    height: i32,
}

impl View for Board {
    type V = Seq<Seq<bool>>;

    closed spec fn view(&self) -> Seq<Seq<bool>> {
        Seq::new(
            self.height as nat,
            |by: int|
                Seq::new(
                    self.width as nat,
                    |bx: int|
                        bx + 1 < self.width as int && by + 1 < self.height as int
                            && self.cells@[idx(self.height as int, bx + 1, by + 1)].state is Alive,
                ),
        )
    }
}

impl Board {
    /// Columns of the bounding box.
    pub closed spec fn width(&self) -> int {
        self.width as int
    }

    /// Rows of the bounding box.
    pub closed spec fn height(&self) -> int {
        self.height as int
    }

    /// Well-formed: positive dimensions within machine limits, exactly one
    /// stored cell per domain position, kept in column-major order.
    pub closed spec fn wf(&self) -> bool {
        &&& 1 <= self.width as int <= 30000
        &&& 1 <= self.height as int <= 30000
        &&& self.cells@.len() == (self.width as int - 1) * (self.height as int - 1)
        &&& forall|x: int, y: int|
            1 <= x < self.width as int && 1 <= y < self.height as int ==> {
                &&& 0 <= idx(self.height as int, x, y) < self.cells@.len()
                &&& (#[trigger] self.cells@[idx(self.height as int, x, y)]).position.0 as int == x
                &&& self.cells@[idx(self.height as int, x, y)].position.1 as int == y
            }
    }

    /// The view is the bounding box: `height` rows of `width` cells, the
    /// modeled ones mirroring the stored states, the border always false.
    proof fn lemma_view_unfold(&self)
        ensures
            self@.len() == self.height as nat,
            forall|by: int|
                0 <= by < self@.len() ==> (#[trigger] self@[by]).len() == self.width as nat,
            forall|by: int, bx: int|
                0 <= by < self@.len() && 0 <= bx < self@[by].len() ==> #[trigger] self@[by][bx] == (
                bx + 1 < self.width as int && by + 1 < self.height as int && self.cells@[idx(
                    self.height as int,
                    bx + 1,
                    by + 1,
                )].state is Alive),
    {
    }

    /// The stored index of the cell at position (x, y).
    fn index_of(&self, x: i32, y: i32) -> (i: usize)
        requires
            self.wf(),
            1 <= x < self.width(),
            1 <= y < self.height(),
        ensures
            i == idx(self.height(), x as int, y as int),
            i < self.cells@.len(),
    {
        proof {
            lemma_idx_bounds(self.width as int, self.height as int, x as int, y as int);
        }
        let xi = (x - 1) as usize;
        let yi = (y - 1) as usize;
        let hi = (self.height - 1) as usize;
        xi * hi + yi
    }

    /// A freshly seeded board: one stored cell per domain position, each
    /// independently `Alive` with probability 0.2 from the external random
    /// source. Which cells start alive is random, so the contract pins the
    /// dimensions alone.
    pub fn new(width: i32, height: i32) -> (b: Board)
        requires
            1 <= width <= 30000,
            1 <= height <= 30000,
        ensures
            b.wf(),
            b.width() == width as int,
            b.height() == height as int,
    {
        let mut cells: Vec<Cell> = Vec::new();
        let mut x: i32 = 1;
        while x < width
            invariant
                1 <= x <= width,
                1 <= width <= 30000,
                1 <= height <= 30000,
                cells@.len() == (x - 1) * (height - 1),
                forall|px: int, py: int|
                    1 <= px < x as int && 1 <= py < height as int ==> {
                        &&& 0 <= idx(height as int, px, py) < cells@.len()
                        &&& (#[trigger] cells@[idx(height as int, px, py)]).position.0 as int == px
                        &&& cells@[idx(height as int, px, py)].position.1 as int == py
                    },
            decreases width - x,
        {
            let mut y: i32 = 1;
            while y < height
                invariant
                    1 <= x < width,
                    1 <= y <= height,
                    1 <= width <= 30000,
                    1 <= height <= 30000,
                    cells@.len() == (x - 1) * (height - 1) + (y - 1),
                    forall|px: int, py: int|
                        1 <= px < width as int && 1 <= py < height as int && (px < x as int || (px
                            == x as int && py < y as int)) ==> {
                            &&& 0 <= idx(height as int, px, py) < cells@.len()
                            &&& (#[trigger] cells@[idx(height as int, px, py)]).position.0 as int
                                == px
                            &&& cells@[idx(height as int, px, py)].position.1 as int == py
                        },
                decreases height - y,
            {
                let draw: u32 = random_u32();
                let state = if draw < ALIVE_THRESHOLD {
                    State::Alive
                } else {
                    State::Dead
                };
                proof {
                    lemma_idx_bounds(width as int, height as int, x as int, y as int);
                }
                let ghost prev = cells@;
                cells.push(Cell { position: Position(x, y), state });
                proof {
                    let h = height as int;
                    assert forall|px: int, py: int|
                        1 <= px < width as int && 1 <= py < h && (px < x as int || (px == x as int
                            && py <= y as int)) implies {
                        &&& 0 <= idx(h, px, py) < cells@.len()
                        &&& (#[trigger] cells@[idx(h, px, py)]).position.0 as int == px
                        &&& cells@[idx(h, px, py)].position.1 as int == py
                    } by {
                        if px == x as int && py == y as int {
                            assert(idx(h, px, py) == prev.len());
                        } else {
                            assert(prev[idx(h, px, py)].position.0 as int == px);
                        }
                    }
                }
                y += 1;
            }
            proof {
                lemma_column_total(x as int, height as int);
            }
            x += 1;
        }
        let b = Board { cells, width, height };
        proof {
            assert(b.wf());
        }
        b
    }

    /// A board whose stored cells all hold the given state; the unmodeled
    /// border of the bounding box stays dead as always.
    pub fn uniform(width: i32, height: i32, state: State) -> (b: Board)
        requires
            1 <= width <= 30000,
            1 <= height <= 30000,
        ensures
            b.wf(),
            b.width() == width as int,
            b.height() == height as int,
            forall|by: int, bx: int|
                0 <= by < height as int && 0 <= bx < width as int ==> #[trigger] b@[by][bx] == (bx
                    + 1 < width as int && by + 1 < height as int && state is Alive),
    {
        let mut cells: Vec<Cell> = Vec::new();
        let mut x: i32 = 1;
        while x < width
            invariant
                1 <= x <= width,
                1 <= width <= 30000,
                1 <= height <= 30000,
                cells@.len() == (x - 1) * (height - 1),
                forall|px: int, py: int|
                    1 <= px < x as int && 1 <= py < height as int ==> {
                        &&& 0 <= idx(height as int, px, py) < cells@.len()
                        &&& (#[trigger] cells@[idx(height as int, px, py)]).position.0 as int == px
                        &&& cells@[idx(height as int, px, py)].position.1 as int == py
                        &&& cells@[idx(height as int, px, py)].state == state
                    },
            decreases width - x,
        {
            let mut y: i32 = 1;
            while y < height
                invariant
                    1 <= x < width,
                    1 <= y <= height,
                    1 <= width <= 30000,
                    1 <= height <= 30000,
                    cells@.len() == (x - 1) * (height - 1) + (y - 1),
                    forall|px: int, py: int|
                        1 <= px < width as int && 1 <= py < height as int && (px < x as int || (px
                            == x as int && py < y as int)) ==> {
                            &&& 0 <= idx(height as int, px, py) < cells@.len()
                            &&& (#[trigger] cells@[idx(height as int, px, py)]).position.0 as int
                                == px
                            &&& cells@[idx(height as int, px, py)].position.1 as int == py
                            &&& cells@[idx(height as int, px, py)].state == state
                        },
                decreases height - y,
            {
                proof {
                    lemma_idx_bounds(width as int, height as int, x as int, y as int);
                }
                let ghost prev = cells@;
                cells.push(Cell { position: Position(x, y), state });
                proof {
                    let h = height as int;
                    assert forall|px: int, py: int|
                        1 <= px < width as int && 1 <= py < h && (px < x as int || (px == x as int
                            && py <= y as int)) implies {
                        &&& 0 <= idx(h, px, py) < cells@.len()
                        &&& (#[trigger] cells@[idx(h, px, py)]).position.0 as int == px
                        &&& cells@[idx(h, px, py)].position.1 as int == py
                        &&& cells@[idx(h, px, py)].state == state
                    } by {
                        if px == x as int && py == y as int {
                            assert(idx(h, px, py) == prev.len());
                        } else {
                            assert(prev[idx(h, px, py)].position.0 as int == px);
                        }
                    }
                }
                y += 1;
            }
            proof {
                lemma_column_total(x as int, height as int);
            }
            x += 1;
        }
        let b = Board { cells, width, height };
        proof {
            assert(b.wf());
            b.lemma_view_unfold();
        }
        b
    }

    /// Overwrite the state stored at position (x, y); every other cell and
    /// the dimensions stay as they were. In box coordinates the view changes
    /// at (x - 1, y - 1) alone.
    pub fn set_state(&mut self, x: i32, y: i32, state: State)
        requires
            old(self).wf(),
            1 <= x < old(self).width(),
            1 <= y < old(self).height(),
        ensures
            final (self).wf(),
            final (self).width() == old(self).width(),
            final (self).height() == old(self).height(),
            final (self)@ == old(self)@.update(
                y as int - 1,
                old(self)@[y as int - 1].update(x as int - 1, state is Alive),
            ),
    {
        proof {
            self.lemma_view_unfold();
        }
        let i = self.index_of(x, y);
        let position = Position::from(&self.cells[i].position);
        self.cells[i] = Cell { position, state };
        proof {
            let h = self.height as int;
            assert forall|px: int, py: int|
                1 <= px < self.width as int && 1 <= py < h implies {
                &&& 0 <= idx(h, px, py) < self.cells@.len()
                &&& (#[trigger] self.cells@[idx(h, px, py)]).position.0 as int == px
                &&& self.cells@[idx(h, px, py)].position.1 as int == py
            } by {
                assert(old(self).cells@[idx(h, px, py)].position.0 as int == px);
            }
            assert(self.wf());
            self.lemma_view_unfold();
            assert(self@ =~~= old(self)@.update(
                y as int - 1,
                old(self)@[y as int - 1].update(x as int - 1, state is Alive),
            ));
        }
    }

    /// Count of living stored cells among the eight positions adjacent to
    /// position (x, y); positions outside the stored domain contribute
    /// nothing. In box coordinates this is the neighbor count at
    /// (x - 1, y - 1).
    pub fn count_neighbors(&self, x: i32, y: i32) -> (n: u8)
        requires
            self.wf(),
            1 <= x < self.width(),
            1 <= y < self.height(),
        ensures
            n as int == live_neighbors(self@, x as int - 1, y as int - 1),
    {
        let mut n: u8 = 0;
        if self.alive_at_pos(x - 1, y - 1) {
            n += 1;
        }
        if self.alive_at_pos(x, y - 1) {
            n += 1;
        }
        if self.alive_at_pos(x + 1, y - 1) {
            n += 1;
        }
        if self.alive_at_pos(x - 1, y) {
            n += 1;
        }
        if self.alive_at_pos(x + 1, y) {
            n += 1;
        }
        if self.alive_at_pos(x - 1, y + 1) {
            n += 1;
        }
        if self.alive_at_pos(x, y + 1) {
            n += 1;
        }
        if self.alive_at_pos(x + 1, y + 1) {
            n += 1;
        }
        n
    }

    /// Advance the board one generation. Every stored cell's next state is
    /// decided from a frozen snapshot of the current generation by the
    /// standard rule; the unmodeled border stays dead and the dimensions
    /// never change.
    pub fn tick(&mut self)
        requires
            old(self).wf(),
        ensures
            final (self).wf(),
            final (self).width() == old(self).width(),
            final (self).height() == old(self).height(),
            final (self)@.len() == old(self)@.len(),
            final (self)@ == interior_next(old(self)@),
    {
        proof {
            self.lemma_view_unfold();
        }
        let ghost g: Seq<Seq<bool>> = self@;
        let width = self.width;
        let height = self.height;
        proof {
            assert(g.len() == height as int);
            assert(forall|by: int| 0 <= by < g.len() ==> (#[trigger] g[by]).len() == width as int);
        }
        let mut cells: Vec<Cell> = Vec::new();
        let mut x: i32 = 1;
        while x < width
            invariant
                self.wf(),
                g == self@,
                width == self.width,
                height == self.height,
                1 <= x <= width,
                cells@.len() == (x - 1) * (height as int - 1),
                forall|px: int, py: int|
                    1 <= px < x as int && 1 <= py < height as int ==> {
                        &&& 0 <= idx(height as int, px, py) < cells@.len()
                        &&& (#[trigger] cells@[idx(height as int, px, py)]).position.0 as int == px
                        &&& cells@[idx(height as int, px, py)].position.1 as int == py
                        &&& (cells@[idx(height as int, px, py)].state is Alive) == next_alive(
                            g[py - 1][px - 1],
                            live_neighbors(g, px - 1, py - 1),
                        )
                    },
            decreases width - x,
        {
            let mut y: i32 = 1;
            while y < height
                invariant
                    self.wf(),
                    g == self@,
                    width == self.width,
                    height == self.height,
                    1 <= x < width,
                    1 <= y <= height,
                    cells@.len() == (x - 1) * (height as int - 1) + (y - 1),
                    forall|px: int, py: int|
                        1 <= px < width as int && 1 <= py < height as int && (px < x as int || (px
                            == x as int && py < y as int)) ==> {
                            &&& 0 <= idx(height as int, px, py) < cells@.len()
                            &&& (#[trigger] cells@[idx(height as int, px, py)]).position.0 as int
                                == px
                            &&& cells@[idx(height as int, px, py)].position.1 as int == py
                            &&& (cells@[idx(height as int, px, py)].state is Alive) == next_alive(
                                g[py - 1][px - 1],
                                live_neighbors(g, px - 1, py - 1),
                            )
                        },
                decreases height - y,
            {
                let i = self.index_of(x, y);
                let neighbors_count = self.count_neighbors(x, y);
                proof {
                    self.lemma_view_unfold();
                    lemma_idx_bounds(width as int, height as int, x as int, y as int);
                    assert(self@[y as int - 1][x as int - 1] == (self.cells@[idx(
                        self.height as int,
                        x as int,
                        y as int,
                    )].state is Alive));
                    assert(self.cells@[idx(self.height as int, x as int, y as int)].position.0
                        as int == x as int);
                }
                let state = match self.cells[i].state {
                    State::Alive => {
                        if neighbors_count == 2 || neighbors_count == 3 {
                            State::Alive
                        } else {
                            State::Dead
                        }
                    },
                    State::Dead => {
                        if neighbors_count == 3 {
                            State::Alive
                        } else {
                            State::Dead
                        }
                    },
                };
                let position = Position::from(&self.cells[i].position);
                let ghost prev = cells@;
                cells.push(Cell { position, state });
                proof {
                    let h = height as int;
                    assert forall|px: int, py: int|
                        1 <= px < width as int && 1 <= py < h && (px < x as int || (px == x as int
                            && py <= y as int)) implies {
                        &&& 0 <= idx(h, px, py) < cells@.len()
                        &&& (#[trigger] cells@[idx(h, px, py)]).position.0 as int == px
                        &&& cells@[idx(h, px, py)].position.1 as int == py
                        &&& (cells@[idx(h, px, py)].state is Alive) == next_alive(
                            g[py - 1][px - 1],
                            live_neighbors(g, px - 1, py - 1),
                        )
                    } by {
                        if px == x as int && py == y as int {
                            assert(idx(h, px, py) == prev.len());
                        } else {
                            assert(prev[idx(h, px, py)].position.0 as int == px);
                        }
                    }
                }
                y += 1;
            }
            proof {
                lemma_column_total(x as int, height as int);
            }
            x += 1;
        }
        self.cells = cells;
        proof {
            assert(self.wf());
            self.lemma_view_unfold();
            assert forall|by: int, bx: int|
                0 <= by < height as int && 0 <= bx < width as int implies #[trigger] self@[by][bx]
                == interior_next(g)[by][bx] by {
                if bx + 1 < width as int && by + 1 < height as int {
                    assert(cells@[idx(height as int, bx + 1, by + 1)].position.0 as int == bx + 1);
                    assert(g[by].len() == width as int);
                }
            }
            assert(self@ =~~= interior_next(g));
        }
    }

    /// Whether a living cell is stored at position (px, py); positions off
    /// the stored domain count as dead. In box coordinates this is the view
    /// at (px - 1, py - 1).
    pub fn alive_at_pos(&self, px: i32, py: i32) -> (r: bool)
        requires
            self.wf(),
            -1 <= px as int <= self.width(),
            -1 <= py as int <= self.height(),
        ensures
            r == alive_at(self@, px as int - 1, py as int - 1),
    {
        proof {
            self.lemma_view_unfold();
        }
        if px < 1 || px >= self.width || py < 1 || py >= self.height {
            proof {
                assert(!alive_at(self@, px as int - 1, py as int - 1));
            }
            false
        } else {
            let i = self.index_of(px, py);
            let r = match self.cells[i].state {
                State::Alive => true,
                State::Dead => false,
            };
            proof {
                assert(self@[py as int - 1][px as int - 1] == (self.cells@[idx(
                    self.height as int,
                    px as int,
                    py as int,
                )].state is Alive));
            }
            r
        }
    }

    /// The text rendering of the bounding box: one line per row, 'O' for a
    /// living stored cell, a space for a dead or unmodeled one, every row
    /// ended by a line break.
    pub fn render(&self) -> (s: String)
        requires
            self.wf(),
        ensures
            s@ == render_grid(self@),
    {
        proof {
            self.lemma_view_unfold();
        }
        let mut out = String::new();
        let width = self.width;
        let height = self.height;
        let mut by: i32 = 0;
        while by < height
            invariant
                self.wf(),
                width == self.width,
                height == self.height,
                0 <= by <= height,
                self@.len() == height as int,
                out@ == render_grid(self@.take(by as int)),
            decreases height - by,
        {
            proof {
                self.lemma_view_unfold();
            }
            let mut bx: i32 = 0;
            while bx < width
                invariant
                    self.wf(),
                    width == self.width,
                    height == self.height,
                    0 <= by < height,
                    0 <= bx <= width,
                    self@.len() == height as int,
                    self@[by as int].len() == width as int,
                    out@ == render_grid(self@.take(by as int)) + render_cells(
                        self@[by as int].take(bx as int),
                    ),
                decreases width - bx,
            {
                proof {
                    self.lemma_view_unfold();
                }
                if self.alive_at_pos(bx + 1, by + 1) {
                    out.append("O");
                } else {
                    out.append(" ");
                }
                proof {
                    reveal_strlit("O");
                    reveal_strlit(" ");
                    assert(alive_at(self@, bx as int, by as int) == self@[by as int][bx as int]);
                    assert(render_cells(self@[by as int].take(bx as int + 1)) =~= render_cells(
                        self@[by as int].take(bx as int),
                    ).push(render_char(self@[by as int][bx as int])));
                }
                bx += 1;
            }
            out.append("\n");
            proof {
                reveal_strlit("\n");
                assert(self@[by as int].take(width as int) =~= self@[by as int]);
                lemma_render_grid_take_step(self@, by as int);
                assert(out@ =~= render_grid(self@.take(by as int + 1)));
            }
            by += 1;
        }
        proof {
            assert(self@.take(height as int) =~= self@);
        }
        out
    }
}

} // verus!
