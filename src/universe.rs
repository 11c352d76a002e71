//! The grid of cells, its editing operations and the generation-advance
//! algorithm, which also records the cells that changed.
use vstd::prelude::*;

use fixedbitset::FixedBitSet;

use crate::bits::bits_of;
use crate::rules::{
    cell_index, is_grid, lemma_cell_index, lemma_wrap, live_neighbors, neighbor_index,
    next_cell_state, next_generation,
};

verus! {

/// One cell whose state changed in the last generation: its linear index and
/// its new state.
#[derive(Clone, Copy, PartialEq, Eq, Structural, Debug)]
pub struct Delta {
    pub state: bool,
    pub index: usize,
}

impl Delta {
    pub fn new(state: bool, index: usize) -> (r: Delta)
        ensures
            r == (Delta { state, index }),
    {
        Delta { state, index }
    }
}

/// The changes that turn `before` into `after` among their first `n` cells, in
/// increasing order of index.
pub open spec fn changes(before: Seq<bool>, after: Seq<bool>, n: int) -> Seq<Delta>
    decreases n,
{
    if n <= 0 {
        Seq::empty()
    } else if before[n - 1] != after[n - 1] {
        changes(before, after, n - 1).push(Delta { state: after[n - 1], index: (n - 1) as usize })
    } else {
        changes(before, after, n - 1)
    }
}

/// The glyph that shows a cell.
pub open spec fn glyph(alive: bool) -> char {
    if alive {
        '◼'
    } else {
        '◻'
    }
}

/// The glyphs of the first `n` cells of row `row`.
pub open spec fn row_text(cells: Seq<bool>, w: int, row: int, n: int) -> Seq<char>
    decreases n,
{
    if n <= 0 {
        Seq::empty()
    } else {
        row_text(cells, w, row, n - 1).push(glyph(cells[cell_index(w, row, n - 1)]))
    }
}

/// The first `rows` rows of a grid `w` cells wide, one line each, top to bottom.
pub open spec fn grid_text(cells: Seq<bool>, w: int, rows: int) -> Seq<char>
    decreases rows,
{
    if rows <= 0 {
        Seq::empty()
    } else {
        grid_text(cells, w, rows - 1) + row_text(cells, w, rows - 1, w).push('\n')
    }
}

/// Whether cell (`row`, `col`) is alive in `v`.
pub open spec fn alive_at(v: GridView, row: int, col: int) -> bool {
    v.cells[cell_index(v.width as int, row, col)]
}

/// `v` with every cell dead and no recorded change.
pub open spec fn blanked(v: GridView) -> GridView {
    GridView { cells: Seq::new(v.cells.len(), |i: int| false), deltas: Seq::empty(), ..v }
}

/// `cells` with the changes `ds` applied one after the other.
pub open spec fn apply_deltas(cells: Seq<bool>, ds: Seq<Delta>) -> Seq<bool>
    decreases ds.len(),
{
    if ds.len() == 0 {
        cells
    } else {
        apply_deltas(cells, ds.drop_last()).update(ds.last().index as int, ds.last().state)
    }
}

/// The changes among the first `n` cells name each differing cell once, in
/// increasing order, with its new state, and no other cell; applied to
/// `before` they give `after` on those cells.
proof fn lemma_changes_prefix(before: Seq<bool>, after: Seq<bool>, n: int)
    requires
        before.len() == after.len(),
        before.len() <= usize::MAX,
        0 <= n <= before.len(),
    ensures
        ({
            let ds = changes(before, after, n);
            &&& forall|k: int|
                0 <= k < ds.len() ==> {
                    let i = (#[trigger] ds[k]).index as int;
                    &&& 0 <= i < n
                    &&& before[i] != after[i]
                    &&& ds[k].state == after[i]
                }
            &&& forall|k1: int, k2: int|
                0 <= k1 < k2 < ds.len() ==> (#[trigger] ds[k1]).index < (#[trigger] ds[k2]).index
            &&& forall|i: int|
                0 <= i < n && before[i] != after[i] ==> exists|k: int|
                    0 <= k < ds.len() && (#[trigger] ds[k]).index == i
            &&& apply_deltas(before, ds).len() == before.len()
            &&& forall|i: int|
                0 <= i < before.len() ==> #[trigger] apply_deltas(before, ds)[i] == if i < n {
                    after[i]
                } else {
                    before[i]
                }
        }),
    decreases n,
{
    if n > 0 {
        lemma_changes_prefix(before, after, n - 1);
        let prev = changes(before, after, n - 1);
        let ds = changes(before, after, n);
        if before[n - 1] != after[n - 1] {
            assert(ds.drop_last() =~= prev);
            assert forall|i: int| 0 <= i < n && before[i] != after[i] implies exists|k: int|
                0 <= k < ds.len() && (#[trigger] ds[k]).index == i by {
                if i == n - 1 {
                    assert(ds[prev.len() as int].index == i);
                } else {
                    let k = choose|k: int| 0 <= k < prev.len() && (#[trigger] prev[k]).index == i;
                    assert(ds[k] == prev[k]);
                }
            }
        }
    }
}

/// The changes that a generation records are exactly the cells whose state
/// differs between the grid before and the grid after: each once, in
/// increasing order, with its new state; applying them to the grid before
/// gives the grid after.
pub proof fn lemma_changes_exact(before: Seq<bool>, after: Seq<bool>)
    requires
        before.len() == after.len(),
        before.len() <= usize::MAX,
    ensures
        ({
            let ds = changes(before, after, before.len() as int);
            &&& forall|k: int|
                0 <= k < ds.len() ==> {
                    let i = (#[trigger] ds[k]).index as int;
                    &&& 0 <= i < before.len()
                    &&& before[i] != after[i]
                    &&& ds[k].state == after[i]
                }
            &&& forall|k1: int, k2: int|
                0 <= k1 < k2 < ds.len() ==> (#[trigger] ds[k1]).index < (#[trigger] ds[k2]).index
            &&& forall|i: int|
                0 <= i < before.len() && before[i] != after[i] ==> exists|k: int|
                    0 <= k < ds.len() && (#[trigger] ds[k]).index == i
            &&& apply_deltas(before, ds) == after
        }),
{
    lemma_changes_prefix(before, after, before.len() as int);
    let ds = changes(before, after, before.len() as int);
    assert(apply_deltas(before, ds) =~= after);
}

/// After `blank` no cell of the grid is alive and no change is recorded.
pub proof fn lemma_blank_leaves_all_dead(v: GridView)
    requires
        is_grid(v.cells, v.width as int, v.height as int),
    ensures
        forall|row: int, col: int|
            0 <= row < v.height && 0 <= col < v.width ==> !#[trigger] alive_at(blanked(v), row, col),
        blanked(v).deltas.len() == 0,
{
    assert forall|row: int, col: int| 0 <= row < v.height && 0 <= col < v.width implies !#[trigger] alive_at(
        blanked(v),
        row,
        col,
    ) by {
        lemma_cell_index(v.width as int, v.height as int, row, col);
    }
}

/// What a universe holds: its dimensions, its cells in row-major order, and
/// the changes made by the last generation.
pub struct GridView {
    pub width: nat,
    pub height: nat,
    pub cells: Seq<bool>,
    pub deltas: Seq<Delta>,
}

/// A toroidal grid of cells stored one bit each, with the list of cells that
/// the last generation changed.
pub struct Universe {
    width: u32,
    height: u32,
    cells: FixedBitSet,
    next_gen: Vec<Delta>,
}

impl View for Universe {
    type V = GridView;

    closed spec fn view(&self) -> GridView {
        GridView {
            width: self.width as nat,
            height: self.height as nat,
            cells: bits_of(self.cells),
            deltas: self.next_gen@,
        }
    }
}

/// A bit set that holds `seeds`, one bit per entry.
fn seeded_bits(seeds: &Vec<bool>) -> (r: FixedBitSet)
    ensures
        bits_of(r) == seeds@,
        seeds@.len() <= usize::MAX,
{
    let n = seeds.len();
    let mut bits = FixedBitSet::with_capacity(n);
    let mut i: usize = 0;
    while i < n
        invariant
            n == seeds@.len(),
            0 <= i <= n,
            bits_of(bits).len() == n,
            forall|j: int| 0 <= j < i ==> bits_of(bits)[j] == seeds@[j],
        decreases n - i,
    {
        bits.set(i, seeds[i]);
        i += 1;
    }
    assert(bits_of(bits) =~= seeds@);
    bits
}

impl Universe {
    /// The cells fill a `width` by `height` grid whose size fits in `usize`.
    pub open spec fn wf(&self) -> bool {
        &&& is_grid(self@.cells, self@.width as int, self@.height as int)
        &&& self@.width * self@.height <= usize::MAX
    }

    /// A `width` by `height` universe whose cells are `seeds`, in row-major
    /// order; the caller draws them at the wanted live probability.
    pub fn new(width: u32, height: u32, seeds: &Vec<bool>) -> (r: Universe)
        requires
            seeds@.len() == width * height,
        ensures
            r.wf(),
            r@ == (GridView {
                width: width as nat,
                height: height as nat,
                cells: seeds@,
                deltas: Seq::empty(),
            }),
    {
        let cells = seeded_bits(seeds);
        let r = Universe { width, height, cells, next_gen: Vec::new() };
        assert(r@.deltas =~= Seq::empty());
        r
    }

    /// The linear index of cell (`row`, `column`).
    pub fn get_index(&self, row: u32, column: u32) -> (r: usize)
        requires
            self.wf(),
            row < self@.height,
            column < self@.width,
        ensures
            r == cell_index(self@.width as int, row as int, column as int),
            r < self@.cells.len(),
    {
        proof {
            lemma_cell_index(self.width as int, self.height as int, row as int, column as int);
        }
        row as usize * self.width as usize + column as usize
    }

    /// Whether cell (`row`, `column`) is alive.
    pub fn is_alive(&self, row: u32, column: u32) -> (r: bool)
        requires
            self.wf(),
            row < self@.height,
            column < self@.width,
        ensures
            r == alive_at(self@, row as int, column as int),
    {
        let idx = self.get_index(row, column);
        self.cells.contains(idx)
    }

    /// The number of live cells among the eight toroidal neighbours of
    /// (`row`, `column`).
    pub fn live_neighbor_count(&self, row: u32, column: u32) -> (r: u8)
        requires
            self.wf(),
            row < self@.height,
            column < self@.width,
        ensures
            r as int == live_neighbors(
                self@.cells,
                self@.width as int,
                self@.height as int,
                row as int,
                column as int,
            ),
            r <= 8,
    {
        let ghost w = self.width as int;
        let ghost h = self.height as int;
        proof {
            lemma_wrap(row as int, h);
            lemma_wrap(column as int, w);
        }
        let mut count: u8 = 0;

        // Edge rows and columns wrap to the opposite edge.
        let north = if row == 0 {
            self.height - 1
        } else {
            row - 1
        };
        let south = if row == self.height - 1 {
            0
        } else {
            row + 1
        };
        let west = if column == 0 {
            self.width - 1
        } else {
            column - 1
        };
        let east = if column == self.width - 1 {
            0
        } else {
            column + 1
        };

        let nw = self.get_index(north, west);
        assert(nw == neighbor_index(w, h, row as int, column as int, 0));
        if self.cells.contains(nw) {
            count += 1;
        }
        let n = self.get_index(north, column);
        assert(n == neighbor_index(w, h, row as int, column as int, 1));
        if self.cells.contains(n) {
            count += 1;
        }
        let ne = self.get_index(north, east);
        assert(ne == neighbor_index(w, h, row as int, column as int, 2));
        if self.cells.contains(ne) {
            count += 1;
        }
        let we = self.get_index(row, west);
        assert(we == neighbor_index(w, h, row as int, column as int, 3));
        if self.cells.contains(we) {
            count += 1;
        }
        let e = self.get_index(row, east);
        assert(e == neighbor_index(w, h, row as int, column as int, 4));
        if self.cells.contains(e) {
            count += 1;
        }
        let sw = self.get_index(south, west);
        assert(sw == neighbor_index(w, h, row as int, column as int, 5));
        if self.cells.contains(sw) {
            count += 1;
        }
        let s = self.get_index(south, column);
        assert(s == neighbor_index(w, h, row as int, column as int, 6));
        if self.cells.contains(s) {
            count += 1;
        }
        let se = self.get_index(south, east);
        assert(se == neighbor_index(w, h, row as int, column as int, 7));
        if self.cells.contains(se) {
            count += 1;
        }
        count
    }

    /// Advances the universe by one generation, every cell at once, and
    /// records the cells that changed in increasing order of index.
    pub fn tick(&mut self)
        requires
            old(self).wf(),
        ensures
            final(self).wf(),
            final(self)@ == (GridView {
                width: old(self)@.width,
                height: old(self)@.height,
                cells: next_generation(
                    old(self)@.cells,
                    old(self)@.width as int,
                    old(self)@.height as int,
                ),
                deltas: changes(
                    old(self)@.cells,
                    next_generation(
                        old(self)@.cells,
                        old(self)@.width as int,
                        old(self)@.height as int,
                    ),
                    old(self)@.cells.len() as int,
                ),
            }),
    {
        let ghost w = self.width as int;
        let ghost h = self.height as int;
        let ghost cur = self@.cells;
        let ghost gen = next_generation(cur, w, h);
        let mut deltas: Vec<Delta> = Vec::new();
        let mut next = self.cells.clone();
        let mut row: u32 = 0;
        while row < self.height
            invariant
                self@ == old(self)@,
                self.wf(),
                w == self.width,
                h == self.height,
                cur == self@.cells,
                gen == next_generation(cur, w, h),
                0 <= row <= h,
                bits_of(next).len() == cur.len(),
                forall|j: int| 0 <= j < row * w ==> bits_of(next)[j] == gen[j],
                forall|j: int| row * w <= j < cur.len() ==> bits_of(next)[j] == cur[j],
                deltas@ == changes(cur, gen, row * w),
            decreases h - row,
        {
            let mut col: u32 = 0;
            while col < self.width
                invariant
                    self@ == old(self)@,
                    self.wf(),
                    w == self.width,
                    h == self.height,
                    cur == self@.cells,
                    gen == next_generation(cur, w, h),
                    0 <= row < h,
                    0 <= col <= w,
                    bits_of(next).len() == cur.len(),
                    forall|j: int| 0 <= j < row * w + col ==> bits_of(next)[j] == gen[j],
                    forall|j: int| row * w + col <= j < cur.len() ==> bits_of(next)[j] == cur[j],
                    deltas@ == changes(cur, gen, row * w + col),
                decreases w - col,
            {
                proof {
                    lemma_cell_index(w, h, row as int, col as int);
                }
                let idx = self.get_index(row, col);
                let cell = self.cells.contains(idx);
                let live_neighbors = self.live_neighbor_count(row, col);
                let next_cell = next_cell_state(cell, live_neighbors);
                assert(next_cell == gen[idx as int]);
                if next_cell != cell {
                    deltas.push(Delta { state: next_cell, index: idx });
                }
                next.set(idx, next_cell);
                col += 1;
            }
            proof {
                assert((row + 1) * w == row * w + w) by (nonlinear_arith);
            }
            row += 1;
        }
        proof {
            assert(h * w == w * h) by (nonlinear_arith);
        }
        assert(bits_of(next) =~= gen);
        self.next_gen = deltas;
        self.cells = next;
    }

    pub fn width(&self) -> (r: u32)
        ensures
            r == self@.width,
    {
        self.width
    }

    pub fn height(&self) -> (r: u32)
        ensures
            r == self@.height,
    {
        self.height
    }

    /// Changes the width and replaces every cell by `seeds`, drawn afresh by
    /// the caller: no cell of the old pattern is kept.
    pub fn set_width(&mut self, width: u32, seeds: &Vec<bool>)
        requires
            seeds@.len() == width * old(self)@.height,
        ensures
            final(self).wf(),
            final(self)@ == (GridView { width: width as nat, cells: seeds@, ..old(self)@ }),
    {
        self.width = width;
        self.cells = seeded_bits(seeds);
    }

    /// Changes the height and replaces every cell by `seeds`, drawn afresh by
    /// the caller: no cell of the old pattern is kept.
    pub fn set_height(&mut self, height: u32, seeds: &Vec<bool>)
        requires
            seeds@.len() == old(self)@.width * height,
        ensures
            final(self).wf(),
            final(self)@ == (GridView { height: height as nat, cells: seeds@, ..old(self)@ }),
    {
        self.height = height;
        self.cells = seeded_bits(seeds);
    }

    /// The packed cells as `u32` blocks, cell `i` at bit `i % 32` of block
    /// `i / 32`; valid until the next change to the universe.
    pub fn cells(&self) -> (r: &[u32])
        ensures
            r@.len() == (self@.cells.len() + 31) / 32,
            forall|i: int|
                0 <= i < self@.cells.len() ==> (#[trigger] self@.cells[i] <==> (r@[i / 32] & (
                1u32 << (i % 32) as u32)) != 0),
    {
        self.cells.as_slice()
    }

    /// The cells that the last generation changed.
    pub fn next_gen(&self) -> (r: &Vec<Delta>)
        ensures
            r@ == self@.deltas,
    {
        &self.next_gen
    }

    /// Flips cell (`row`, `col`).
    pub fn toggle_cell(&mut self, row: u32, col: u32)
        requires
            old(self).wf(),
            row < old(self)@.height,
            col < old(self)@.width,
        ensures
            final(self).wf(),
            final(self)@ == (GridView {
                cells: old(self)@.cells.update(
                    cell_index(old(self)@.width as int, row as int, col as int),
                    !old(self)@.cells[cell_index(old(self)@.width as int, row as int, col as int)],
                ),
                ..old(self)@
            }),
    {
        let idx = self.get_index(row, col);
        if self.cells.contains(idx) {
            self.cells.set(idx, false);
        } else {
            self.cells.set(idx, true);
        }
    }

    /// Sets cell (`row`, `col`) alive or dead.
    pub fn set_cell(&mut self, row: u32, col: u32, alive: bool)
        requires
            old(self).wf(),
            row < old(self)@.height,
            col < old(self)@.width,
        ensures
            final(self).wf(),
            final(self)@ == (GridView {
                cells: old(self)@.cells.update(
                    cell_index(old(self)@.width as int, row as int, col as int),
                    alive,
                ),
                ..old(self)@
            }),
    {
        let idx = self.get_index(row, col);
        self.cells.set(idx, alive);
    }

    /// Replaces every cell by `seeds`, in place, keeping the dimensions.
    pub fn randomize(&mut self, seeds: &Vec<bool>)
        requires
            old(self).wf(),
            seeds@.len() == old(self)@.cells.len(),
        ensures
            final(self).wf(),
            final(self)@ == (GridView { cells: seeds@, ..old(self)@ }),
    {
        let size = self.cells.len();
        let mut i: usize = 0;
        while i < size
            invariant
                self.wf(),
                self.width == old(self).width,
                self.height == old(self).height,
                self.next_gen == old(self).next_gen,
                size == self@.cells.len(),
                seeds@.len() == size,
                0 <= i <= size,
                forall|j: int| 0 <= j < i ==> self@.cells[j] == seeds@[j],
            decreases size - i,
        {
            self.cells.set(i, seeds[i]);
            i += 1;
        }
        assert(self@.cells =~= seeds@);
    }

    /// Kills every cell and empties the list of changes.
    pub fn blank(&mut self)
        requires
            old(self).wf(),
        ensures
            final(self).wf(),
            final(self)@ == blanked(old(self)@),
    {
        let size = self.cells.len();
        let mut i: usize = 0;
        while i < size
            invariant
                self.wf(),
                self.width == old(self).width,
                self.height == old(self).height,
                size == self@.cells.len(),
                0 <= i <= size,
                forall|j: int| 0 <= j < i ==> !self@.cells[j],
            decreases size - i,
        {
            self.cells.set(i, false);
            i += 1;
        }
        self.next_gen = Vec::new();
        assert(self@.cells =~= Seq::new(size as nat, |i: int| false));
        assert(self@.deltas =~= Seq::empty());
    }

    /// The bit set that holds the cells.
    pub fn get_cells(&self) -> (r: &FixedBitSet)
        ensures
            bits_of(*r) == self@.cells,
    {
        &self.cells
    }

    /// Sets alive each cell of `cells`, given as (row, column); the others
    /// keep their state.
    pub fn set_cells(&mut self, cells: &[(u32, u32)])
        requires
            old(self).wf(),
            forall|k: int|
                0 <= k < cells@.len() ==> #[trigger] cells@[k].0 < old(self)@.height
                    && cells@[k].1 < old(self)@.width,
        ensures
            final(self).wf(),
            final(self)@ == (GridView {
                cells: Seq::new(
                    old(self)@.cells.len(),
                    |i: int|
                        old(self)@.cells[i] || exists|k: int|
                            0 <= k < cells@.len() && cell_index(
                                old(self)@.width as int,
                                #[trigger] cells@[k].0 as int,
                                cells@[k].1 as int,
                            ) == i,
                ),
                ..old(self)@
            }),
    {
        let ghost w = self.width as int;
        let mut n: usize = 0;
        while n < cells.len()
            invariant
                self.wf(),
                self.width == old(self).width,
                self.height == old(self).height,
                self.next_gen == old(self).next_gen,
                w == self.width,
                0 <= n <= cells@.len(),
                forall|k: int|
                    0 <= k < cells@.len() ==> #[trigger] cells@[k].0 < self@.height && cells@[k].1
                        < self@.width,
                self@.cells.len() == old(self)@.cells.len(),
                forall|i: int|
                    0 <= i < self@.cells.len() ==> #[trigger] self@.cells[i] == (old(self)@.cells[i]
                        || exists|k: int|
                        0 <= k < n && cell_index(w, #[trigger] cells@[k].0 as int, cells@[k].1 as int)
                            == i),
            decreases cells@.len() - n,
        {
            let (row, col) = cells[n];
            let idx = self.get_index(row, col);
            self.cells.set(idx, true);
            assert forall|i: int| 0 <= i < self@.cells.len() implies #[trigger] self@.cells[i] == (
            old(self)@.cells[i] || exists|k: int|
                0 <= k < n + 1 && cell_index(w, #[trigger] cells@[k].0 as int, cells@[k].1 as int)
                    == i) by {
                if i == idx {
                    assert(cell_index(w, cells@[n as int].0 as int, cells@[n as int].1 as int) == i);
                }
            }
            n += 1;
        }
        assert(self@.cells =~= Seq::new(
            old(self)@.cells.len(),
            |i: int|
                old(self)@.cells[i] || exists|k: int|
                    0 <= k < cells@.len() && cell_index(
                        w,
                        #[trigger] cells@[k].0 as int,
                        cells@[k].1 as int,
                    ) == i,
        ));
    }

    /// The grid as text: one line per row, one glyph per cell.
    pub fn render(&self) -> (r: String)
        requires
            self.wf(),
        ensures
            r@ == grid_text(self@.cells, self@.width as int, self@.height as int),
    {
        let ghost w = self.width as int;
        let mut text = String::new();
        let mut row: u32 = 0;
        while row < self.height
            invariant
                self.wf(),
                w == self.width,
                0 <= row <= self.height,
                text@ == grid_text(self@.cells, w, row as int),
            decreases self.height - row,
        {
            let ghost done = text@;
            let mut col: u32 = 0;
            while col < self.width
                invariant
                    self.wf(),
                    w == self.width,
                    row < self.height,
                    0 <= col <= self.width,
                    text@ == done + row_text(self@.cells, w, row as int, col as int),
                decreases self.width - col,
            {
                proof {
                    reveal_strlit("◼");
                    reveal_strlit("◻");
                }
                if self.is_alive(row, col) {
                    text.append("◼");
                } else {
                    text.append("◻");
                }
                assert(text@ =~= done + row_text(self@.cells, w, row as int, col + 1));
                col += 1;
            }
            proof {
                reveal_strlit("\n");
            }
            text.append("\n");
            assert(text@ =~= grid_text(self@.cells, w, row + 1));
            row += 1;
        }
        text
    }
}

} // verus!
