//! The universe: grid dimensions and the current generation, packed one bit
//! per cell.
use vstd::prelude::*;
use fixedbitset::FixedBitSet;
use crate::bitset::{bits_of, bits_cleared, bits_len, bits_get, bits_set, bits_blocks};
use crate::rules::{
    live, neighbor_count, next_cells, with_live, all_in_range, listed, lemma_index,
    lemma_wrap_small,
};

verus! {

/// The state of one cell.
#[derive(Clone, Copy, Debug, PartialEq, Eq, Structural)]
pub enum Cell {
    Dead,
    Alive,
}

impl Cell {
    /// The cell state for a liveness bit.
    pub open spec fn of_bit(alive: bool) -> Cell {
        if alive {
            Cell::Alive
        } else {
            Cell::Dead
        }
    }
}

impl From<u32> for Cell {
    /// One stands for a live cell, any other value for a dead one.
    fn from(x: u32) -> (r: Cell)
        ensures
            r == Cell::of_bit(x == 1),
    {
        if x == 1 {
            Cell::Alive
        } else {
            Cell::Dead
        }
    }
}

impl vstd::std_specs::convert::FromSpecImpl<u32> for Cell {
    open spec fn obeys_from_spec() -> bool {
        true
    }

    open spec fn from_spec(x: u32) -> Cell {
        Cell::of_bit(x == 1)
    }
}

/// Why a universe could not be built or changed.
#[derive(Clone, Copy, Debug, PartialEq, Eq, Structural)]
pub enum UniverseError {
    /// The width or the height is zero.
    EmptyGrid,
    /// `width * height` does not fit in a `u32`.
    TooLarge,
    /// The initial liveness does not hold one value per cell.
    CellCountMismatch,
    /// A coordinate lies outside the grid.
    OutOfRange,
}

/// The abstract value of a universe: its dimensions and its generation, in
/// row-major order.
pub struct Grid {
    pub width: nat,
    pub height: nat,
    pub cells: Seq<bool>,
}

impl Grid {
    /// The universe one generation later.
    pub open spec fn next(self) -> Grid {
        Grid {
            width: self.width,
            height: self.height,
            cells: next_cells(self.cells, self.width as int, self.height as int),
        }
    }
}

/// A toroidal Game of Life grid.
pub struct Universe {
    width: u32,
    height: u32,
    cells: FixedBitSet,
}

impl View for Universe {
    type V = Grid;

    /// The dimensions, and the bits of the packed generation.
    closed spec fn view(&self) -> Grid {
        Grid { width: self.width as nat, height: self.height as nat, cells: bits_of(self.cells) }
    }
}

impl Universe {
    /// Both dimensions are positive, the cell count fits in a `u32`, and the
    /// generation holds one bit per cell.
    pub open spec fn wf(&self) -> bool {
        &&& self@.width >= 1
        &&& self@.height >= 1
        &&& self@.width * self@.height <= u32::MAX
        &&& self@.cells.len() == self@.width * self@.height
    }

    /// The flat index of (row, column).
    fn get_index(&self, row: u32, column: u32) -> (r: usize)
        requires
            self.wf(),
            row < self@.height,
            column < self@.width,
        ensures
            r == row * self@.width + column,
            r < self@.cells.len(),
    {
        proof {
            lemma_index(self.width as int, self.height as int, row as int, column as int);
            assert(row * self.width <= row * self.width + column) by (nonlinear_arith)
                requires column >= 0;
        }
        (row * self.width + column) as usize
    }

    /// One for a live cell at (row, column), zero for a dead one.
    fn cell_value(&self, row: u32, column: u32) -> (r: u8)
        requires
            self.wf(),
            row < self@.height,
            column < self@.width,
        ensures
            r as int == live(self@.cells, self@.width as int, self@.height as int, row as int, column as int),
    {
        let idx = self.get_index(row, column);
        proof {
            lemma_wrap_small(row as int, self.height as int);
            lemma_wrap_small(column as int, self.width as int);
        }
        if bits_get(&self.cells, idx) {
            1
        } else {
            0
        }
    }

    /// The number of live cells among the eight around (row, column), rows and
    /// columns wrapping around the edges.
    pub fn live_neighbor_count(&self, row: u32, column: u32) -> (r: u8)
        requires
            self.wf(),
            row < self@.height,
            column < self@.width,
        ensures
            r as int == neighbor_count(self@.cells, self@.width as int, self@.height as int, row as int, column as int),
            r <= 8,
    {
        let north = if row == 0 { self.height - 1 } else { row - 1 };
        let south = if row + 1 == self.height { 0 } else { row + 1 };
        let west = if column == 0 { self.width - 1 } else { column - 1 };
        let east = if column + 1 == self.width { 0 } else { column + 1 };
        proof {
            let (w, h) = (self.width as int, self.height as int);
            lemma_wrap_small(north as int, h);
            lemma_wrap_small(south as int, h);
            lemma_wrap_small(row as int, h);
            lemma_wrap_small(west as int, w);
            lemma_wrap_small(east as int, w);
            lemma_wrap_small(column as int, w);
            assert((row - 1) % h == north as int);
            assert((row + 1) % h == south as int);
            assert((column - 1) % w == west as int);
            assert((column + 1) % w == east as int);
        }
        let mut count: u8 = 0;
        count += self.cell_value(north, west);
        count += self.cell_value(north, column);
        count += self.cell_value(north, east);
        count += self.cell_value(row, west);
        count += self.cell_value(row, east);
        count += self.cell_value(south, west);
        count += self.cell_value(south, column);
        count += self.cell_value(south, east);
        count
    }

    /// Advances one generation: every cell takes the rule's value for its
    /// state and neighbour count in the generation before, all at once.
    pub fn tick(&mut self)
        requires
            old(self).wf(),
        ensures
            final(self).wf(),
            final(self)@ == old(self)@.next(),
    {
        let ghost w = self.width as int;
        let ghost h = self.height as int;
        let ghost gen = next_cells(self@.cells, w, h);
        let size = (self.width * self.height) as usize;
        let mut next = bits_cleared(size);
        let mut row: u32 = 0;
        while row < self.height
            invariant
                self.wf(),
                w == self.width,
                h == self.height,
                gen == next_cells(self@.cells, w, h),
                size == w * h,
                0 <= row <= h,
                bits_of(next).len() == size,
                forall|i: int| 0 <= i < row * w ==> #[trigger] bits_of(next)[i] == gen[i],
            decreases h - row,
        {
            let mut column: u32 = 0;
            while column < self.width
                invariant
                    self.wf(),
                    w == self.width,
                    h == self.height,
                    gen == next_cells(self@.cells, w, h),
                    size == w * h,
                    0 <= row < h,
                    0 <= column <= w,
                    bits_of(next).len() == size,
                    forall|i: int| 0 <= i < row * w + column ==> #[trigger] bits_of(next)[i] == gen[i],
                decreases w - column,
            {
                let idx = self.get_index(row, column);
                let cell = bits_get(&self.cells, idx);
                let live_neighbors = self.live_neighbor_count(row, column);
                let next_cell = if cell {
                    live_neighbors == 2 || live_neighbors == 3
                } else {
                    live_neighbors == 3
                };
                proof {
                    lemma_index(w, h, row as int, column as int);
                    assert(next_cell == gen[idx as int]);
                }
                bits_set(&mut next, idx, next_cell);
                column = column + 1;
            }
            proof {
                assert(row * w + w == (row + 1) * w) by (nonlinear_arith);
            }
            row = row + 1;
        }
        proof {
            assert(h * w == w * h) by (nonlinear_arith);
            assert(bits_of(next) =~= gen);
        }
        self.cells = next;
    }

    /// A `width` x `height` universe whose cell at flat index `i` is alive
    /// exactly when `alive[i]` holds.
    pub fn new(width: u32, height: u32, alive: &[bool]) -> (r: Result<Universe, UniverseError>)
        ensures
            r is Err <==> (width == 0 || height == 0 || width * height > u32::MAX
                || alive@.len() != width * height),
            width == 0 || height == 0 ==> r == Err::<Universe, UniverseError>(UniverseError::EmptyGrid),
            width > 0 && height > 0 && width * height > u32::MAX ==> r == Err::<Universe, UniverseError>(
                UniverseError::TooLarge),
            width > 0 && height > 0 && width * height <= u32::MAX && alive@.len() != width * height
                ==> r == Err::<Universe, UniverseError>(UniverseError::CellCountMismatch),
            r matches Ok(u) ==> u.wf() && u@ == (Grid { width: width as nat, height: height as nat, cells: alive@ }),
    {
        if width == 0 || height == 0 {
            return Err(UniverseError::EmptyGrid);
        }
        let size = match width.checked_mul(height) {
            Some(n) => n as usize,
            None => {
                return Err(UniverseError::TooLarge);
            },
        };
        if alive.len() != size {
            return Err(UniverseError::CellCountMismatch);
        }
        let mut cells = bits_cleared(size);
        let mut i: usize = 0;
        while i < size
            invariant
                size == alive@.len(),
                i <= size,
                bits_of(cells).len() == size,
                forall|j: int| 0 <= j < i ==> #[trigger] bits_of(cells)[j] == alive@[j],
            decreases size - i,
        {
            bits_set(&mut cells, i, alive[i]);
            i = i + 1;
        }
        proof {
            assert(bits_of(cells) =~= alive@);
        }
        Ok(Universe { cells, width, height })
    }

    /// Makes alive every cell named in `cells`, as (row, column) pairs, and
    /// leaves every other cell as it was. Where a pair lies off the grid,
    /// nothing changes and the call fails.
    pub fn set_cells(&mut self, cells: &[(u32, u32)]) -> (r: Result<(), UniverseError>)
        requires
            old(self).wf(),
        ensures
            final(self).wf(),
            r is Err <==> !all_in_range(cells@, old(self)@.width as int, old(self)@.height as int),
            r is Err ==> r == Err::<(), UniverseError>(UniverseError::OutOfRange) && final(self)@ == old(self)@,
            r is Ok ==> final(self)@ == (Grid {
                width: old(self)@.width,
                height: old(self)@.height,
                cells: with_live(old(self)@.cells, old(self)@.width as int, cells@),
            }),
    {
        let ghost w = self.width as int;
        let ghost h = self.height as int;
        let ghost start = self@.cells;
        let mut k: usize = 0;
        while k < cells.len()
            invariant
                self.wf(),
                w == self.width,
                h == self.height,
                k <= cells@.len(),
                forall|j: int| 0 <= j < k ==> #[trigger] cells@[j].0 < h && cells@[j].1 < w,
            decreases cells@.len() - k,
        {
            let (row, column) = cells[k];
            if row >= self.height || column >= self.width {
                return Err(UniverseError::OutOfRange);
            }
            k = k + 1;
        }
        assert(all_in_range(cells@, w, h));
        let mut k: usize = 0;
        while k < cells.len()
            invariant
                self.wf(),
                w == self.width,
                h == self.height,
                all_in_range(cells@, w, h),
                k <= cells@.len(),
                start.len() == w * h,
                self@.cells == with_live(start, w, cells@.subrange(0, k as int)),
            decreases cells@.len() - k,
        {
            let (row, column) = cells[k];
            assert(cells@[k as int].0 < h && cells@[k as int].1 < w);
            let idx = self.get_index(row, column);
            let ghost before = cells@.subrange(0, k as int);
            let ghost after = cells@.subrange(0, k + 1);
            bits_set(&mut self.cells, idx, true);
            proof {
                assert forall|i: int| 0 <= i < start.len() implies listed(after, w, i) == (listed(
                    before,
                    w,
                    i,
                ) || i == idx) by {
                    if listed(after, w, i) {
                        let j = choose|j: int|
                            0 <= j < after.len() && (#[trigger] after[j]).0 * w + after[j].1 == i;
                        if j < k {
                            assert(before[j] == after[j]);
                        }
                    }
                    if listed(before, w, i) {
                        let j = choose|j: int|
                            0 <= j < before.len() && (#[trigger] before[j]).0 * w + before[j].1 == i;
                        assert(before[j] == after[j]);
                    }
                    if i == idx {
                        assert(after[k as int] == cells@[k as int]);
                    }
                }
                assert(self@.cells =~= with_live(start, w, after));
            }
            k = k + 1;
        }
        proof {
            assert(cells@.subrange(0, cells@.len() as int) =~= cells@);
        }
        Ok(())
    }

    /// A copy of the generation, one cell per index in row-major order.
    pub fn get_cells(&self) -> (r: Vec<Cell>)
        requires
            self.wf(),
        ensures
            r@.len() == self@.width * self@.height,
            forall|i: int| 0 <= i < r@.len() ==> #[trigger] r@[i] == Cell::of_bit(self@.cells[i]),
    {
        let size = bits_len(&self.cells);
        let mut out: Vec<Cell> = Vec::new();
        let mut i: usize = 0;
        while i < size
            invariant
                size == self@.cells.len(),
                i <= size,
                out@.len() == i,
                forall|j: int| 0 <= j < i ==> #[trigger] out@[j] == Cell::of_bit(self@.cells[j]),
            decreases size - i,
        {
            let cell = if bits_get(&self.cells, i) {
                Cell::Alive
            } else {
                Cell::Dead
            };
            out.push(cell);
            i = i + 1;
        }
        out
    }

    /// The number of columns.
    pub fn width(&self) -> (r: u32)
        ensures
            r == self@.width,
    {
        self.width
    }

    /// The number of rows.
    pub fn height(&self) -> (r: u32)
        ensures
            r == self@.height,
    {
        self.height
    }

    /// The packed generation as `u32` blocks, cell `i` being bit `i % 32` of
    /// block `i / 32`. It borrows the universe, so no `tick` or `set_cells`
    /// can happen while it is held.
    pub fn cells(&self) -> (r: &[u32])
        ensures
            r@.len() == (self@.cells.len() + 31) / 32,
            forall|i: int|
                0 <= i < self@.cells.len() ==> #[trigger] self@.cells[i] == ((r@[i / 32] >> ((i
                    % 32) as u32)) & 1u32 == 1u32),
    {
        bits_blocks(&self.cells)
    }
}

} // verus!
