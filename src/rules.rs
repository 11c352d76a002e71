//! The rule engine: toroidal neighbourhoods and the B3/S23 rule, stated over
//! the cells of a grid as a sequence of booleans in row-major order.
use vstd::prelude::*;

use vstd::arithmetic::div_mod::{
    lemma_fundamental_div_mod, lemma_fundamental_div_mod_converse, lemma_mod_bound, lemma_small_mod,
};

verus! {

/// The linear position of cell (`row`, `col`) in a grid `w` cells wide.
pub open spec fn cell_index(w: int, row: int, col: int) -> int {
    row * w + col
}

/// The row offset of neighbour `k` (0 to 7): three above, two beside, three below.
pub open spec fn neighbor_row_offset(k: int) -> int {
    if k < 3 {
        -1
    } else if k < 5 {
        0
    } else {
        1
    }
}

/// The column offset of neighbour `k` (0 to 7).
pub open spec fn neighbor_col_offset(k: int) -> int {
    if k == 0 || k == 3 || k == 5 {
        -1
    } else if k == 1 || k == 6 {
        0
    } else {
        1
    }
}

/// The linear position of neighbour `k` of cell (`row`, `col`), with rows taken
/// modulo `h` and columns modulo `w`.
pub open spec fn neighbor_index(w: int, h: int, row: int, col: int, k: int) -> int {
    cell_index(w, (row + neighbor_row_offset(k)) % h, (col + neighbor_col_offset(k)) % w)
}

/// 1 where neighbour `k` of cell (`row`, `col`) is alive, else 0.
pub open spec fn neighbor_alive(cells: Seq<bool>, w: int, h: int, row: int, col: int, k: int) -> int {
    if cells[neighbor_index(w, h, row, col, k)] {
        1
    } else {
        0
    }
}

/// The number of live cells among the eight toroidal neighbours of (`row`, `col`).
pub open spec fn live_neighbors(cells: Seq<bool>, w: int, h: int, row: int, col: int) -> int {
    neighbor_alive(cells, w, h, row, col, 0) + neighbor_alive(cells, w, h, row, col, 1)
        + neighbor_alive(cells, w, h, row, col, 2) + neighbor_alive(cells, w, h, row, col, 3)
        + neighbor_alive(cells, w, h, row, col, 4) + neighbor_alive(cells, w, h, row, col, 5)
        + neighbor_alive(cells, w, h, row, col, 6) + neighbor_alive(cells, w, h, row, col, 7)
}

/// The next state of a cell from its state and its number of live neighbours.
pub open spec fn next_alive(alive: bool, live: int) -> bool {
    if alive {
        live == 2 || live == 3
    } else {
        live == 3
    }
}

/// The generation that follows `cells` on a `w` by `h` torus.
pub open spec fn next_generation(cells: Seq<bool>, w: int, h: int) -> Seq<bool> {
    Seq::new(
        cells.len(),
        |i: int| next_alive(cells[i], live_neighbors(cells, w, h, i / w, i % w)),
    )
}

/// The generation `n` steps after `cells`.
pub open spec fn generation(cells: Seq<bool>, w: int, h: int, n: nat) -> Seq<bool>
    decreases n,
{
    if n == 0 {
        cells
    } else {
        next_generation(generation(cells, w, h, (n - 1) as nat), w, h)
    }
}

/// A grid of `w` by `h` cells, in row-major order.
pub open spec fn is_grid(cells: Seq<bool>, w: int, h: int) -> bool {
    w >= 0 && h >= 0 && cells.len() == w * h
}

/// Applies the rule table to one cell.
pub fn next_cell_state(alive: bool, live_neighbors: u8) -> (r: bool)
    ensures
        r == next_alive(alive, live_neighbors as int),
{
    match (alive, live_neighbors) {
        (true, x) if x < 2 => false,
        (true, 2) | (true, 3) => true,
        (true, x) if x > 3 => false,
        (false, 3) => true,
        (otherwise, _) => otherwise,
    }
}

/// A cell inside the grid has its position inside the cell sequence, and that
/// position gives back its row and column.
pub proof fn lemma_cell_index(w: int, h: int, row: int, col: int)
    requires
        0 <= row < h,
        0 <= col < w,
    ensures
        0 <= cell_index(w, row, col) < w * h,
        cell_index(w, row, col) / w == row,
        cell_index(w, row, col) % w == col,
{
    assert(0 <= row * w + col < w * h) by (nonlinear_arith)
        requires
            0 <= row < h,
            0 <= col < w,
    ;
    lemma_fundamental_div_mod_converse(row * w + col, w, row, col);
}

/// Stepping one place from a coordinate inside `0..n` wraps round at the edges.
pub proof fn lemma_wrap(x: int, n: int)
    requires
        0 <= x < n,
    ensures
        (x - 1) % n == (if x == 0 { n - 1 } else { x - 1 }),
        x % n == x,
        (x + 1) % n == (if x == n - 1 { 0 } else { x + 1 }),
{
    lemma_small_mod(x as nat, n as nat);
    if x == 0 {
        lemma_small_mod((n - 1) as nat, n as nat);
        lemma_fundamental_div_mod_converse(-1, n, -1, n - 1);
    } else {
        lemma_small_mod((x - 1) as nat, n as nat);
    }
    if x == n - 1 {
        lemma_fundamental_div_mod_converse(n, n, 1, 0);
    } else {
        lemma_small_mod((x + 1) as nat, n as nat);
    }
}

/// Every position of the cell sequence is the cell of one row and one column.
pub proof fn lemma_row_col(w: int, h: int, i: int)
    requires
        0 <= i < w * h,
        w > 0,
    ensures
        0 <= i / w < h,
        0 <= i % w < w,
        i == cell_index(w, i / w, i % w),
{
    lemma_fundamental_div_mod(i, w);
    lemma_mod_bound(i, w);
    let r = i / w;
    let c = i % w;
    assert(0 <= r < h) by (nonlinear_arith)
        requires
            i == w * r + c,
            0 <= c < w,
            0 <= i < w * h,
    ;
    assert(w * r == r * w) by (nonlinear_arith);
}

/// The eight neighbours of a cell inside the grid lie inside the grid.
pub proof fn lemma_neighbors_in_grid(w: int, h: int, row: int, col: int)
    requires
        0 <= row < h,
        0 <= col < w,
    ensures
        forall|k: int|
            0 <= k < 8 ==> 0 <= #[trigger] neighbor_index(w, h, row, col, k) < w * h,
{
    assert forall|k: int| 0 <= k < 8 implies 0 <= #[trigger] neighbor_index(w, h, row, col, k) < w
        * h by {
        lemma_mod_bound(row + neighbor_row_offset(k), h);
        lemma_mod_bound(col + neighbor_col_offset(k), w);
        lemma_cell_index(
            w,
            h,
            (row + neighbor_row_offset(k)) % h,
            (col + neighbor_col_offset(k)) % w,
        );
    }
}

/// A grid with no live cell has no live cell in any later generation: it is a
/// fixed point of the rule.
pub proof fn lemma_dead_grid_stays_dead(cells: Seq<bool>, w: int, h: int, n: nat)
    requires
        is_grid(cells, w, h),
        forall|i: int| 0 <= i < cells.len() ==> !#[trigger] cells[i],
    ensures
        generation(cells, w, h, n) == cells,
    decreases n,
{
    if n > 0 {
        lemma_dead_grid_stays_dead(cells, w, h, (n - 1) as nat);
        assert forall|i: int| 0 <= i < cells.len() implies !#[trigger] next_generation(
            cells,
            w,
            h,
        )[i] by {
            lemma_row_col(w, h, i);
            lemma_neighbors_in_grid(w, h, i / w, i % w);
            assert(neighbor_alive(cells, w, h, i / w, i % w, 0) == 0);
            assert(neighbor_alive(cells, w, h, i / w, i % w, 1) == 0);
            assert(neighbor_alive(cells, w, h, i / w, i % w, 2) == 0);
            assert(neighbor_alive(cells, w, h, i / w, i % w, 3) == 0);
            assert(neighbor_alive(cells, w, h, i / w, i % w, 4) == 0);
            assert(neighbor_alive(cells, w, h, i / w, i % w, 5) == 0);
            assert(neighbor_alive(cells, w, h, i / w, i % w, 6) == 0);
            assert(neighbor_alive(cells, w, h, i / w, i % w, 7) == 0);
        }
        assert(next_generation(cells, w, h) =~= cells);
    }
}

/// On a torus of at least 3 by 3 cells the eight neighbours of a cell are
/// eight distinct cells of the grid, none of them the cell itself, so the wrap
/// counts no cell twice; and a live cell with 2 or 3 live neighbours lives on,
/// a dead cell with 3 is born.
pub proof fn lemma_rule_on_torus(cells: Seq<bool>, w: int, h: int, row: int, col: int)
    requires
        is_grid(cells, w, h),
        w >= 3,
        h >= 3,
        0 <= row < h,
        0 <= col < w,
    ensures
        forall|k: int|
            0 <= k < 8 ==> 0 <= #[trigger] neighbor_index(w, h, row, col, k) < cells.len()
                && neighbor_index(w, h, row, col, k) != cell_index(w, row, col),
        forall|k1: int, k2: int|
            0 <= k1 < k2 < 8 ==> #[trigger] neighbor_index(w, h, row, col, k1)
                != #[trigger] neighbor_index(w, h, row, col, k2),
        cells[cell_index(w, row, col)] && (live_neighbors(cells, w, h, row, col) == 2
            || live_neighbors(cells, w, h, row, col) == 3) ==> next_generation(cells, w, h)[cell_index(
            w,
            row,
            col,
        )],
        !cells[cell_index(w, row, col)] && live_neighbors(cells, w, h, row, col) == 3
            ==> next_generation(cells, w, h)[cell_index(w, row, col)],
{
    lemma_wrap(row, h);
    lemma_wrap(col, w);
    lemma_cell_index(w, h, row, col);
    lemma_neighbors_in_grid(w, h, row, col);
    assert forall|k: int| 0 <= k < 8 implies #[trigger] neighbor_index(w, h, row, col, k)
        != cell_index(w, row, col) by {
        let r = (row + neighbor_row_offset(k)) % h;
        let c = (col + neighbor_col_offset(k)) % w;
        lemma_cell_index(w, h, r, c);
    }
    assert forall|k1: int, k2: int| 0 <= k1 < k2 < 8 implies #[trigger] neighbor_index(
        w,
        h,
        row,
        col,
        k1,
    ) != #[trigger] neighbor_index(w, h, row, col, k2) by {
        let r1 = (row + neighbor_row_offset(k1)) % h;
        let c1 = (col + neighbor_col_offset(k1)) % w;
        let r2 = (row + neighbor_row_offset(k2)) % h;
        let c2 = (col + neighbor_col_offset(k2)) % w;
        lemma_cell_index(w, h, r1, c1);
        lemma_cell_index(w, h, r2, c2);
    }
}

/// A live cell with no live neighbour is dead in the next generation.
pub proof fn lemma_isolated_cell_dies(cells: Seq<bool>, w: int, h: int, row: int, col: int)
    requires
        is_grid(cells, w, h),
        0 <= row < h,
        0 <= col < w,
        cells[cell_index(w, row, col)],
        live_neighbors(cells, w, h, row, col) == 0,
    ensures
        !next_generation(cells, w, h)[cell_index(w, row, col)],
{
    lemma_cell_index(w, h, row, col);
}


/// Whether (`row`, `col`) is a cell of the blinker centred on (`r0`, `c0`) of
/// a `w` by `h` torus: the row of three cells through the centre, or the
/// column of three, wrapping round the edges.
pub open spec fn in_blinker(w: int, h: int, r0: int, c0: int, vertical: bool, row: int, col: int) -> bool {
    if vertical {
        col == c0 && (row == (r0 - 1) % h || row == r0 || row == (r0 + 1) % h)
    } else {
        row == r0 && (col == (c0 - 1) % w || col == c0 || col == (c0 + 1) % w)
    }
}

/// A `w` by `h` grid whose only live cells are the blinker centred on
/// (`r0`, `c0`).
pub open spec fn blinker(w: int, h: int, r0: int, c0: int, vertical: bool) -> Seq<bool> {
    Seq::new((w * h) as nat, |i: int| in_blinker(w, h, r0, c0, vertical, i / w, i % w))
}

proof fn lemma_blinker_neighbor(
    w: int,
    h: int,
    r0: int,
    c0: int,
    vertical: bool,
    row: int,
    col: int,
    k: int,
)
    requires
        w >= 5,
        h >= 5,
        0 <= row < h,
        0 <= col < w,
        0 <= k < 8,
    ensures
        blinker(w, h, r0, c0, vertical)[neighbor_index(w, h, row, col, k)] == in_blinker(
            w,
            h,
            r0,
            c0,
            vertical,
            (row + neighbor_row_offset(k)) % h,
            (col + neighbor_col_offset(k)) % w,
        ),
{
    let r = (row + neighbor_row_offset(k)) % h;
    let c = (col + neighbor_col_offset(k)) % w;
    lemma_mod_bound(row + neighbor_row_offset(k), h);
    lemma_mod_bound(col + neighbor_col_offset(k), w);
    lemma_cell_index(w, h, r, c);
}

proof fn lemma_blinker_step(w: int, h: int, r0: int, c0: int, vertical: bool)
    requires
        w >= 5,
        h >= 5,
        0 <= r0 < h,
        0 <= c0 < w,
    ensures
        next_generation(blinker(w, h, r0, c0, vertical), w, h) == blinker(w, h, r0, c0, !vertical),
{
    let cells = blinker(w, h, r0, c0, vertical);
    lemma_wrap(r0, h);
    lemma_wrap(c0, w);
    assert forall|i: int| 0 <= i < w * h implies #[trigger] next_generation(cells, w, h)[i]
        == blinker(w, h, r0, c0, !vertical)[i] by {
        lemma_row_col(w, h, i);
        let row = i / w;
        let col = i % w;
        lemma_wrap(row, h);
        lemma_wrap(col, w);
        lemma_blinker_neighbor(w, h, r0, c0, vertical, row, col, 0);
        lemma_blinker_neighbor(w, h, r0, c0, vertical, row, col, 1);
        lemma_blinker_neighbor(w, h, r0, c0, vertical, row, col, 2);
        lemma_blinker_neighbor(w, h, r0, c0, vertical, row, col, 3);
        lemma_blinker_neighbor(w, h, r0, c0, vertical, row, col, 4);
        lemma_blinker_neighbor(w, h, r0, c0, vertical, row, col, 5);
        lemma_blinker_neighbor(w, h, r0, c0, vertical, row, col, 6);
        lemma_blinker_neighbor(w, h, r0, c0, vertical, row, col, 7);
    }
    assert(next_generation(cells, w, h) =~= blinker(w, h, r0, c0, !vertical));
}

/// On a torus of at least 5 by 5 cells, with no other live cell, a horizontal
/// blinker becomes vertical, the vertical one horizontal again, and two
/// generations give back the start, wherever the blinker stands.
pub proof fn lemma_blinker_period_two(w: int, h: int, r0: int, c0: int)
    requires
        w >= 5,
        h >= 5,
        0 <= r0 < h,
        0 <= c0 < w,
    ensures
        next_generation(blinker(w, h, r0, c0, false), w, h) == blinker(w, h, r0, c0, true),
        next_generation(blinker(w, h, r0, c0, true), w, h) == blinker(w, h, r0, c0, false),
        generation(blinker(w, h, r0, c0, false), w, h, 2) == blinker(w, h, r0, c0, false),
{
    lemma_blinker_step(w, h, r0, c0, false);
    lemma_blinker_step(w, h, r0, c0, true);
    assert(generation(blinker(w, h, r0, c0, false), w, h, 0) == blinker(w, h, r0, c0, false));
    assert(generation(blinker(w, h, r0, c0, false), w, h, 1) == blinker(w, h, r0, c0, true));
}

} // verus!
