//! The mathematical description of the automaton, shared by every board
//! representation: a generation is a rectangular grid of booleans (`true` for
//! a living cell), and the transition and rendering are spec functions over
//! such grids.

use vstd::prelude::*;

verus! {

/// True when (x, y) lies on the grid and holds a living cell. Positions off
/// the grid never count, which is the non-wrapping boundary policy: an edge
/// cell simply has fewer neighbors.
pub open spec fn alive_at(g: Seq<Seq<bool>>, x: int, y: int) -> bool {
    0 <= y < g.len() && 0 <= x < g[y].len() && g[y][x]
}

pub open spec fn b2i(b: bool) -> int {
    if b {
        1
    } else {
        0
    }
}

/// Number of living cells among the eight positions adjacent to (x, y),
/// counting only positions that exist on the grid.
pub open spec fn live_neighbors(g: Seq<Seq<bool>>, x: int, y: int) -> int {
    b2i(alive_at(g, x - 1, y - 1)) + b2i(alive_at(g, x, y - 1)) + b2i(alive_at(g, x + 1, y - 1))
        + b2i(alive_at(g, x - 1, y)) + b2i(alive_at(g, x + 1, y)) + b2i(
        alive_at(g, x - 1, y + 1),
    ) + b2i(alive_at(g, x, y + 1)) + b2i(alive_at(g, x + 1, y + 1))
}

/// The standard rule: a cell is alive in the next generation exactly when it
/// has three living neighbors, or it is alive now and has two.
pub open spec fn next_alive(cur: bool, n: int) -> bool {
    n == 3 || (cur && n == 2)
}

/// The next generation of a whole grid: same dimensions, each cell decided by
/// `next_alive` over a frozen snapshot of the current generation.
pub open spec fn next_grid(g: Seq<Seq<bool>>) -> Seq<Seq<bool>> {
    Seq::new(
        g.len(),
        |y: int| Seq::new(g[y].len(), |x: int| next_alive(g[y][x], live_neighbors(g, x, y))),
    )
}

/// Birth/survival law: a cell with exactly three living neighbors is alive in
/// the next generation regardless of its current state.
pub proof fn lemma_three_neighbors_alive(g: Seq<Seq<bool>>, x: int, y: int)
    requires
        0 <= y < g.len(),
        0 <= x < g[y].len(),
        live_neighbors(g, x, y) == 3,
    ensures
        next_grid(g)[y][x],
{
}

/// Death law: a cell with fewer than two or more than three living neighbors
/// is dead in the next generation regardless of its current state.
pub proof fn lemma_under_over_population(g: Seq<Seq<bool>>, x: int, y: int)
    requires
        0 <= y < g.len(),
        0 <= x < g[y].len(),
        live_neighbors(g, x, y) < 2 || live_neighbors(g, x, y) > 3,
    ensures
        !next_grid(g)[y][x],
{
}

/// Two grids that agree at (a, b) (and on their dimensions) agree on whether
/// (a, b) holds a living cell.
proof fn lemma_alive_at_agree(g1: Seq<Seq<bool>>, g2: Seq<Seq<bool>>, a: int, b: int)
    requires
        g1.len() == g2.len(),
        forall|r: int| 0 <= r < g1.len() ==> (#[trigger] g1[r]).len() == g2[r].len(),
        0 <= b < g1.len() && 0 <= a < g1[b].len() ==> g1[b][a] == g2[b][a],
    ensures
        alive_at(g1, a, b) == alive_at(g2, a, b),
{
}

/// Non-wrapping boundary law: the state of the corner cell at (0, 0) can
/// influence the neighbor counts of (0, 1), (1, 0) and (1, 1) only. Two
/// grids of the same dimensions that agree everywhere except possibly at the
/// corner give every other position the same neighbor count — in particular
/// the corner never contributes to any count near the opposite edges.
pub proof fn lemma_corner_influence(g1: Seq<Seq<bool>>, g2: Seq<Seq<bool>>, x: int, y: int)
    requires
        g1.len() == g2.len(),
        forall|r: int| 0 <= r < g1.len() ==> (#[trigger] g1[r]).len() == g2[r].len(),
        forall|r: int, c: int|
            0 <= r < g1.len() && 0 <= c < g1[r].len() && !(r == 0 && c == 0) ==> #[trigger] g1[r][c]
                == g2[r][c],
        0 <= x,
        0 <= y,
        !(x == 0 && y == 1),
        !(x == 1 && y == 0),
        !(x == 1 && y == 1),
    ensures
        live_neighbors(g1, x, y) == live_neighbors(g2, x, y),
{
    lemma_alive_at_agree(g1, g2, x - 1, y - 1);
    lemma_alive_at_agree(g1, g2, x, y - 1);
    lemma_alive_at_agree(g1, g2, x + 1, y - 1);
    lemma_alive_at_agree(g1, g2, x - 1, y);
    lemma_alive_at_agree(g1, g2, x + 1, y);
    lemma_alive_at_agree(g1, g2, x - 1, y + 1);
    lemma_alive_at_agree(g1, g2, x, y + 1);
    lemma_alive_at_agree(g1, g2, x + 1, y + 1);
}

/// The character a cell renders as: 'O' for a living cell, a space for a
/// dead one.
pub open spec fn render_char(b: bool) -> char {
    if b {
        'O'
    } else {
        ' '
    }
}

/// The characters of one row, without the line break.
pub open spec fn render_cells(r: Seq<bool>) -> Seq<char> {
    r.map_values(|b: bool| render_char(b))
}

/// One rendered row: one character per cell, then a line break.
pub open spec fn render_row(r: Seq<bool>) -> Seq<char> {
    render_cells(r).push('\n')
}

/// The full rendering of a grid: its rows in order, top to bottom.
pub open spec fn render_grid(g: Seq<Seq<bool>>) -> Seq<char>
    decreases g.len(),
{
    if g.len() == 0 {
        Seq::empty()
    } else {
        render_grid(g.drop_last()) + render_row(g.last())
    }
}

/// Taking one more row into the rendering appends that row's line.
pub proof fn lemma_render_grid_take_step(g: Seq<Seq<bool>>, k: int)
    requires
        0 <= k < g.len(),
    ensures
        render_grid(g.take(k + 1)) == render_grid(g.take(k)) + render_row(g[k]),
{
    let t = g.take(k + 1);
    assert(t.drop_last() =~= g.take(k));
    assert(t.last() == g[k]);
}

/// `n` copies of a sequence of characters, one after the other.
pub open spec fn repeat_seq(l: Seq<char>, n: nat) -> Seq<char>
    decreases n,
{
    if n == 0 {
        Seq::empty()
    } else {
        repeat_seq(l, (n - 1) as nat) + l
    }
}

/// The line that a row of `w` cells in state `b` renders as: `w` copies of
/// that state's character, then a line break.
pub open spec fn uniform_line(b: bool, w: nat) -> Seq<char> {
    Seq::new(w, |i: int| render_char(b)).push('\n')
}

/// Rendering law: a rectangular grid whose cells all hold the state `b`
/// renders as `height` lines, each of `w` copies of the state's character
/// followed by a line break. With `b == false` this says that an all-dead
/// board renders as `height` lines of `w` spaces; with `b == true`, as
/// `height` lines of `w` 'O' characters.
pub proof fn lemma_render_uniform(g: Seq<Seq<bool>>, b: bool, w: nat)
    requires
        forall|y: int| 0 <= y < g.len() ==> (#[trigger] g[y]).len() == w,
        forall|y: int, x: int|
            0 <= y < g.len() && 0 <= x < w ==> #[trigger] g[y][x] == b,
    ensures
        render_grid(g) == repeat_seq(uniform_line(b, w), g.len()),
    decreases g.len(),
{
    if g.len() == 0 {
    } else {
        let d = g.drop_last();
        assert(forall|y: int| 0 <= y < d.len() ==> (#[trigger] d[y]).len() == w);
        assert(forall|y: int, x: int|
            0 <= y < d.len() && 0 <= x < w ==> #[trigger] d[y][x] == b);
        lemma_render_uniform(d, b, w);
        assert(render_row(g.last()) =~= uniform_line(b, w));
    }
}

} // verus!
