//! Properties of the transition rule: patterns that are still or oscillate,
//! determinism, and the meaning of bulk setting.
use vstd::prelude::*;
use crate::universe::Grid;
use crate::rules::{alive_at, neighbor_count, next_cells, evolve, with_live, listed, lemma_index};

verus! {

/// A `rows` x `cols` rectangle of live cells whose top-left corner is
/// (r0, c0), on an otherwise dead `w` x `h` torus (it may wrap over the edges).
pub open spec fn rectangle(w: int, h: int, r0: int, c0: int, rows: int, cols: int) -> Seq<bool> {
    Seq::new((w * h) as nat, |i: int| (i / w - r0) % h < rows && (i % w - c0) % w < cols)
}

/// `y % m`, for a `y` within two of `x`, read from `x % m`.
proof fn lemma_mod_near(x: int, y: int, m: int)
    requires
        m >= 2,
        -2 <= y - x <= 2,
    ensures
        0 <= x % m < m,
        y % m == (if x % m + (y - x) < 0 {
            x % m + (y - x) + m
        } else if x % m + (y - x) >= m {
            x % m + (y - x) - m
        } else {
            x % m + (y - x)
        }),
{
    let d = x % m;
    let q = x / m;
    let k = y - x;
    vstd::arithmetic::div_mod::lemma_fundamental_div_mod(x, m);
    vstd::arithmetic::div_mod::lemma_mod_bound(x, m);
    if d + k < 0 {
        assert(y == (q - 1) * m + (d + k + m)) by (nonlinear_arith)
            requires x == m * q + d, k == y - x;
        vstd::arithmetic::div_mod::lemma_fundamental_div_mod_converse(y, m, q - 1, d + k + m);
    } else if d + k >= m {
        assert(y == (q + 1) * m + (d + k - m)) by (nonlinear_arith)
            requires x == m * q + d, k == y - x;
        vstd::arithmetic::div_mod::lemma_fundamental_div_mod_converse(y, m, q + 1, d + k - m);
    } else {
        assert(y == q * m + (d + k)) by (nonlinear_arith)
            requires x == m * q + d, k == y - x;
        vstd::arithmetic::div_mod::lemma_fundamental_div_mod_converse(y, m, q, d + k);
    }
}

/// `(p % m + q) % m == (p + q) % m`.
proof fn lemma_mod_shift(p: int, q: int, m: int)
    requires
        m > 0,
    ensures
        (p % m + q) % m == (p + q) % m,
{
    vstd::arithmetic::div_mod::lemma_fundamental_div_mod(p, m);
    vstd::arithmetic::div_mod::lemma_mod_multiples_vanish(p / m, p % m + q, m);
    assert(p + q == m * (p / m) + (p % m + q));
}

/// Whether a rectangle holds the cell at (nr, nc), for any wrapped position.
proof fn lemma_rectangle_at(w: int, h: int, r0: int, c0: int, rows: int, cols: int, nr: int, nc: int)
    requires
        w >= 1,
        h >= 1,
    ensures
        alive_at(rectangle(w, h, r0, c0, rows, cols), w, h, nr, nc) == ((nr - r0) % h < rows && (nc
            - c0) % w < cols),
{
    let x = nr % h;
    let y = nc % w;
    vstd::arithmetic::div_mod::lemma_mod_bound(nr, h);
    vstd::arithmetic::div_mod::lemma_mod_bound(nc, w);
    lemma_index(w, h, x, y);
    lemma_mod_shift(nr, -r0, h);
    lemma_mod_shift(nc, -c0, w);
}

/// The state of cell `i` of a rectangle after one generation, as a function of
/// the cell's row and column offsets from the corner.
proof fn lemma_rectangle_step(w: int, h: int, r0: int, c0: int, rows: int, cols: int, i: int)
    requires
        w >= 2,
        h >= 2,
        0 <= i < w * h,
    ensures
        ({
            let s = rectangle(w, h, r0, c0, rows, cols);
            let (r, c) = (i / w, i % w);
            &&& s[i] == (alive_at(s, w, h, r, c))
            &&& alive_at(s, w, h, r, c) == ((r - r0) % h < rows && (c - c0) % w < cols)
            &&& alive_at(s, w, h, r - 1, c - 1) == ((r - 1 - r0) % h < rows && (c - 1 - c0) % w < cols)
            &&& alive_at(s, w, h, r - 1, c) == ((r - 1 - r0) % h < rows && (c - c0) % w < cols)
            &&& alive_at(s, w, h, r - 1, c + 1) == ((r - 1 - r0) % h < rows && (c + 1 - c0) % w < cols)
            &&& alive_at(s, w, h, r, c - 1) == ((r - r0) % h < rows && (c - 1 - c0) % w < cols)
            &&& alive_at(s, w, h, r, c + 1) == ((r - r0) % h < rows && (c + 1 - c0) % w < cols)
            &&& alive_at(s, w, h, r + 1, c - 1) == ((r + 1 - r0) % h < rows && (c - 1 - c0) % w < cols)
            &&& alive_at(s, w, h, r + 1, c) == ((r + 1 - r0) % h < rows && (c - c0) % w < cols)
            &&& alive_at(s, w, h, r + 1, c + 1) == ((r + 1 - r0) % h < rows && (c + 1 - c0) % w < cols)
        }),
{
    let r = i / w;
    let c = i % w;
    vstd::arithmetic::div_mod::lemma_fundamental_div_mod(i, w);
    vstd::arithmetic::div_mod::lemma_mod_bound(i, w);
    assert(0 <= r < h) by (nonlinear_arith)
        requires i == w * r + c, 0 <= c < w, 0 <= i < w * h, w >= 2;
    lemma_index(w, h, r, c);
    vstd::arithmetic::div_mod::lemma_small_mod(r as nat, h as nat);
    vstd::arithmetic::div_mod::lemma_small_mod(c as nat, w as nat);
    lemma_rectangle_at(w, h, r0, c0, rows, cols, r, c);
    lemma_rectangle_at(w, h, r0, c0, rows, cols, r - 1, c - 1);
    lemma_rectangle_at(w, h, r0, c0, rows, cols, r - 1, c);
    lemma_rectangle_at(w, h, r0, c0, rows, cols, r - 1, c + 1);
    lemma_rectangle_at(w, h, r0, c0, rows, cols, r, c - 1);
    lemma_rectangle_at(w, h, r0, c0, rows, cols, r, c + 1);
    lemma_rectangle_at(w, h, r0, c0, rows, cols, r + 1, c - 1);
    lemma_rectangle_at(w, h, r0, c0, rows, cols, r + 1, c);
    lemma_rectangle_at(w, h, r0, c0, rows, cols, r + 1, c + 1);
}

/// A 2x2 block of live cells on an otherwise dead torus of at least 4x4 is a
/// still life: a generation leaves it as it is, and so do any number of them.
pub proof fn lemma_block_is_still(w: int, h: int, r0: int, c0: int)
    requires
        w >= 4,
        h >= 4,
    ensures
        next_cells(rectangle(w, h, r0, c0, 2, 2), w, h) == rectangle(w, h, r0, c0, 2, 2),
        forall|k: nat| #[trigger] evolve(rectangle(w, h, r0, c0, 2, 2), w, h, k) == rectangle(w, h, r0, c0, 2, 2),
{
    let s = rectangle(w, h, r0, c0, 2, 2);
    assert forall|i: int| 0 <= i < w * h implies #[trigger] next_cells(s, w, h)[i] == s[i] by {
        lemma_rectangle_step(w, h, r0, c0, 2, 2, i);
        let (r, c) = (i / w, i % w);
        lemma_mod_near(r - r0, r - 1 - r0, h);
        lemma_mod_near(r - r0, r + 1 - r0, h);
        lemma_mod_near(c - c0, c - 1 - c0, w);
        lemma_mod_near(c - c0, c + 1 - c0, w);
    }
    assert(next_cells(s, w, h) =~= s);
    assert forall|k: nat| #[trigger] evolve(s, w, h, k) == s by {
        lemma_fixed_point_stays(s, w, h, k);
    }
}

/// A generation that the rule leaves as it is stays so for any number of
/// generations.
pub proof fn lemma_fixed_point_stays(s: Seq<bool>, w: int, h: int, k: nat)
    requires
        next_cells(s, w, h) == s,
    ensures
        evolve(s, w, h, k) == s,
    decreases k,
{
    if k > 0 {
        lemma_fixed_point_stays(s, w, h, (k - 1) as nat);
    }
}

/// Cell `i` of the horizontal blinker at (r0, c0) after one generation is cell
/// `i` of the vertical one through its middle, and the other way round.
proof fn lemma_blinker_cell(w: int, h: int, r0: int, c0: int, i: int)
    requires
        w >= 5,
        h >= 5,
        0 <= i < w * h,
    ensures
        ({
            let s = rectangle(w, h, r0, c0, 1, 3);
            let t = rectangle(w, h, r0 - 1, c0 + 1, 3, 1);
            &&& next_cells(s, w, h)[i] == t[i]
            &&& next_cells(t, w, h)[i] == s[i]
        }),
{
    let (r, c) = (i / w, i % w);
    lemma_rectangle_step(w, h, r0, c0, 1, 3, i);
    lemma_rectangle_step(w, h, r0 - 1, c0 + 1, 3, 1, i);
    lemma_mod_near(r - r0, r - 1 - r0, h);
    lemma_mod_near(r - r0, r + 1 - r0, h);
    lemma_mod_near(r - r0, r - (r0 - 1), h);
    lemma_mod_near(r - r0, r - 1 - (r0 - 1), h);
    lemma_mod_near(r - r0, r + 1 - (r0 - 1), h);
    lemma_mod_near(c - c0, c - 1 - c0, w);
    lemma_mod_near(c - c0, c + 1 - c0, w);
    lemma_mod_near(c - c0, c - (c0 + 1), w);
    lemma_mod_near(c - c0, c - 1 - (c0 + 1), w);
    lemma_mod_near(c - c0, c + 1 - (c0 + 1), w);
}

/// A blinker, three live cells in a row on an otherwise dead torus of at
/// least 5x5, turns into the three cells in a column through its middle cell
/// and back: it oscillates with period two.
pub proof fn lemma_blinker_oscillates(w: int, h: int, r0: int, c0: int)
    requires
        w >= 5,
        h >= 5,
    ensures
        next_cells(rectangle(w, h, r0, c0, 1, 3), w, h) == rectangle(w, h, r0 - 1, c0 + 1, 3, 1),
        next_cells(rectangle(w, h, r0 - 1, c0 + 1, 3, 1), w, h) == rectangle(w, h, r0, c0, 1, 3),
        evolve(rectangle(w, h, r0, c0, 1, 3), w, h, 2) == rectangle(w, h, r0, c0, 1, 3),
        rectangle(w, h, r0, c0, 1, 3) != rectangle(w, h, r0 - 1, c0 + 1, 3, 1),
{
    let s = rectangle(w, h, r0, c0, 1, 3);
    let t = rectangle(w, h, r0 - 1, c0 + 1, 3, 1);
    assert forall|i: int| 0 <= i < w * h implies #[trigger] next_cells(s, w, h)[i] == t[i] by {
        lemma_blinker_cell(w, h, r0, c0, i);
    }
    assert(next_cells(s, w, h) =~= t);
    assert forall|i: int| 0 <= i < w * h implies #[trigger] next_cells(t, w, h)[i] == s[i] by {
        lemma_blinker_cell(w, h, r0, c0, i);
    }
    assert(next_cells(t, w, h) =~= s);
    assert(evolve(s, w, h, 2) == next_cells(evolve(s, w, h, 1), w, h));
    assert(evolve(s, w, h, 1) == next_cells(evolve(s, w, h, 0), w, h));
    // The cell to the left of the middle tells the two shapes apart.
    let a = (r0 % h) * w + (c0 % w);
    vstd::arithmetic::div_mod::lemma_mod_bound(r0, h);
    vstd::arithmetic::div_mod::lemma_mod_bound(c0, w);
    lemma_index(w, h, r0 % h, c0 % w);
    lemma_rectangle_at(w, h, r0, c0, 1, 3, r0, c0);
    lemma_rectangle_at(w, h, r0 - 1, c0 + 1, 3, 1, r0, c0);
    lemma_mod_near(0, -1, w);
    vstd::arithmetic::div_mod::lemma_small_mod(0, h as nat);
    vstd::arithmetic::div_mod::lemma_small_mod(0, w as nat);
    lemma_mod_near(0, 1, h);
    assert(s[a] != t[a]);
}

/// The rule has no hidden input: two universes with the same dimensions and
/// the same cells pass through the same generations.
pub proof fn lemma_deterministic(a: Grid, b: Grid, k: nat)
    requires
        a.width == b.width,
        a.height == b.height,
        a.cells == b.cells,
    ensures
        evolve(a.cells, a.width as int, a.height as int, k) == evolve(
            b.cells,
            b.width as int,
            b.height as int,
            k,
        ),
        a.next() == b.next(),
{
}

/// After a generation a cell is what the rule makes of its neighbour count:
/// a dead cell with exactly three live neighbours is born and with any other
/// count stays dead; a live cell survives with two or three and dies with
/// fewer or more. The count is between zero and eight.
pub proof fn lemma_birth_and_death(g: Grid, r: int, c: int)
    requires
        g.width >= 1,
        g.height >= 1,
        g.cells.len() == g.width * g.height,
        0 <= r < g.height,
        0 <= c < g.width,
    ensures
        ({
            let (w, h) = (g.width as int, g.height as int);
            let n = neighbor_count(g.cells, w, h, r, c);
            let before = g.cells[r * w + c];
            let after = g.next().cells[r * w + c];
            &&& 0 <= n <= 8
            &&& !before && n == 3 ==> after
            &&& !before && n != 3 ==> !after
            &&& before && n < 2 ==> !after
            &&& before && (n == 2 || n == 3) ==> after
            &&& before && n > 3 ==> !after
        }),
{
    lemma_index(g.width as int, g.height as int, r, c);
}

/// Where a coordinate is listed in the concatenation of two lists.
proof fn lemma_listed_concat(a: Seq<(u32, u32)>, b: Seq<(u32, u32)>, w: int, i: int)
    ensures
        listed(a + b, w, i) == (listed(a, w, i) || listed(b, w, i)),
{
    let ab = a + b;
    if listed(ab, w, i) {
        let j = choose|j: int| 0 <= j < ab.len() && (#[trigger] ab[j]).0 * w + ab[j].1 == i;
        if j < a.len() {
            assert(ab[j] == a[j]);
        } else {
            assert(ab[j] == b[j - a.len()]);
        }
    }
    if listed(a, w, i) {
        let j = choose|j: int| 0 <= j < a.len() && (#[trigger] a[j]).0 * w + a[j].1 == i;
        assert(ab[j] == a[j]);
    }
    if listed(b, w, i) {
        let j = choose|j: int| 0 <= j < b.len() && (#[trigger] b[j]).0 * w + b[j].1 == i;
        assert(ab[a.len() + j] == b[j]);
    }
}

/// Setting cells only ever makes cells alive: a cell that was alive stays
/// so, a listed cell becomes alive, and a cell that is not listed keeps its
/// state.
pub proof fn lemma_set_cells_only_adds(cells: Seq<bool>, w: int, coords: Seq<(u32, u32)>)
    ensures
        with_live(cells, w, coords).len() == cells.len(),
        forall|i: int|
            0 <= i < cells.len() ==> (cells[i] ==> #[trigger] with_live(cells, w, coords)[i]),
        forall|i: int|
            0 <= i < cells.len() && listed(coords, w, i) ==> #[trigger] with_live(cells, w, coords)[i],
        forall|i: int|
            0 <= i < cells.len() && !listed(coords, w, i) ==> #[trigger] with_live(cells, w, coords)[i]
                == cells[i],
{
}

/// Setting the cells of one list and then those of another is setting the
/// cells of both lists at once; in particular, setting the same list twice is
/// setting it once.
pub proof fn lemma_set_cells_twice(
    cells: Seq<bool>,
    w: int,
    a: Seq<(u32, u32)>,
    b: Seq<(u32, u32)>,
)
    ensures
        with_live(with_live(cells, w, a), w, b) == with_live(cells, w, a + b),
        with_live(with_live(cells, w, a), w, a) == with_live(cells, w, a),
{
    assert forall|i: int| 0 <= i < cells.len() implies #[trigger] with_live(
        with_live(cells, w, a),
        w,
        b,
    )[i] == with_live(cells, w, a + b)[i] by {
        lemma_listed_concat(a, b, w, i);
    }
    assert(with_live(with_live(cells, w, a), w, b) =~= with_live(cells, w, a + b));
    assert(with_live(with_live(cells, w, a), w, a) =~= with_live(cells, w, a));
}

/// The order of the list, and repetitions in it, do not matter: two lists
/// that name the same coordinates set the same cells.
pub proof fn lemma_set_cells_order_free(
    cells: Seq<bool>,
    w: int,
    a: Seq<(u32, u32)>,
    b: Seq<(u32, u32)>,
)
    requires
        a.to_set() == b.to_set(),
    ensures
        with_live(cells, w, a) == with_live(cells, w, b),
{
    assert forall|i: int| 0 <= i < cells.len() implies listed(a, w, i) == listed(b, w, i) by {
        if listed(a, w, i) {
            let j = choose|j: int| 0 <= j < a.len() && (#[trigger] a[j]).0 * w + a[j].1 == i;
            assert(a.to_set().contains(a[j]));
            assert(b.to_set().contains(a[j]));
            let k = choose|k: int| 0 <= k < b.len() && b[k] == a[j];
            assert(b[k].0 * w + b[k].1 == i);
        }
        if listed(b, w, i) {
            let j = choose|j: int| 0 <= j < b.len() && (#[trigger] b[j]).0 * w + b[j].1 == i;
            assert(b.to_set().contains(b[j]));
            assert(a.to_set().contains(b[j]));
            let k = choose|k: int| 0 <= k < a.len() && a[k] == b[j];
            assert(a[k].0 * w + a[k].1 == i);
        }
    }
    assert(with_live(cells, w, a) =~= with_live(cells, w, b));
}

} // verus!
