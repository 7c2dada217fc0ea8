//! The mathematical model of a generation and of the transition rule.
//!
//! A generation of a `width` x `height` grid is a `Seq<bool>` of length
//! `width * height`, the cell at (row, column) standing at index
//! `row * width + column`. Rows and columns wrap around: the grid is a torus.
use vstd::prelude::*;

verus! {

/// What a cell becomes, given whether it is alive and how many of its eight
/// neighbours are: it survives with two or three, is born with exactly three,
/// and is dead otherwise.
pub open spec fn next_state(alive: bool, n: int) -> bool {
    if alive {
        n == 2 || n == 3
    } else {
        n == 3
    }
}

/// The cell at (r, c) of a `w` x `h` generation, for any integers `r` and `c`:
/// both wrap around the torus.
pub open spec fn alive_at(cells: Seq<bool>, w: int, h: int, r: int, c: int) -> bool {
    cells[(r % h) * w + (c % w)]
}

/// One for a live cell at (r, c), zero for a dead one.
pub open spec fn live(cells: Seq<bool>, w: int, h: int, r: int, c: int) -> int {
    if alive_at(cells, w, h, r, c) {
        1
    } else {
        0
    }
}

/// How many of the eight cells around (r, c) are alive, on the torus.
pub open spec fn neighbor_count(cells: Seq<bool>, w: int, h: int, r: int, c: int) -> int {
    live(cells, w, h, r - 1, c - 1) + live(cells, w, h, r - 1, c) + live(cells, w, h, r - 1, c + 1)
        + live(cells, w, h, r, c - 1) + live(cells, w, h, r, c + 1) + live(cells, w, h, r + 1, c - 1)
        + live(cells, w, h, r + 1, c) + live(cells, w, h, r + 1, c + 1)
}

/// The generation that follows `cells`: every cell takes `next_state` of its
/// own state and of its neighbour count in `cells`.
pub open spec fn next_cells(cells: Seq<bool>, w: int, h: int) -> Seq<bool> {
    Seq::new(
        (w * h) as nat,
        |i: int| next_state(cells[i], neighbor_count(cells, w, h, i / w, i % w)),
    )
}

/// The generation reached from `cells` after `k` steps.
pub open spec fn evolve(cells: Seq<bool>, w: int, h: int, k: nat) -> Seq<bool>
    decreases k,
{
    if k == 0 {
        cells
    } else {
        next_cells(evolve(cells, w, h, (k - 1) as nat), w, h)
    }
}

/// Whether the flat index `i` is one of the coordinates in `coords`, on a grid
/// `w` cells wide.
pub open spec fn listed(coords: Seq<(u32, u32)>, w: int, i: int) -> bool {
    exists|j: int| 0 <= j < coords.len() && (#[trigger] coords[j]).0 * w + coords[j].1 == i
}

/// `cells` with every cell named in `coords` made alive and every other cell
/// left as it was.
pub open spec fn with_live(cells: Seq<bool>, w: int, coords: Seq<(u32, u32)>) -> Seq<bool> {
    Seq::new(cells.len(), |i: int| cells[i] || listed(coords, w, i))
}

/// Whether every coordinate in `coords` lies on a `w` x `h` grid.
pub open spec fn all_in_range(coords: Seq<(u32, u32)>, w: int, h: int) -> bool {
    forall|j: int| 0 <= j < coords.len() ==> (#[trigger] coords[j]).0 < h && coords[j].1 < w
}

/// The cell at (r, c) lies at index `r * w + c`, and that index is in the grid.
pub proof fn lemma_index(w: int, h: int, r: int, c: int)
    requires
        0 <= r < h,
        0 <= c < w,
    ensures
        0 <= r * w + c < w * h,
        (r * w + c) / w == r,
        (r * w + c) % w == c,
{
    assert(0 <= r * w + c < w * h) by (nonlinear_arith)
        requires
            0 <= r < h,
            0 <= c < w,
    ;
    vstd::arithmetic::div_mod::lemma_fundamental_div_mod_converse(r * w + c, w, r, c);
}

/// Wrapping a row or column that is already on the grid leaves it alone.
pub proof fn lemma_wrap_small(x: int, m: int)
    requires
        0 <= x < m,
    ensures
        x % m == x,
        (x - m) % m == x,
        (x + m) % m == x,
{
    vstd::arithmetic::div_mod::lemma_fundamental_div_mod_converse(x, m, 0, x);
    vstd::arithmetic::div_mod::lemma_fundamental_div_mod_converse(x - m, m, -1, x);
    vstd::arithmetic::div_mod::lemma_fundamental_div_mod_converse(x + m, m, 1, x);
}

} // verus!
