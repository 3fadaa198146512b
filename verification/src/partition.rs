//! Tile partitioning: enumerates the grid of tile cells of one pyramid
//! level, clamping the cells of the last row and column to the pixels that
//! remain at the right and bottom edges.

use vstd::prelude::*;
use vstd::arithmetic::div_mod::{
    lemma_div_pos_is_pos, lemma_fundamental_div_mod, lemma_fundamental_div_mod_converse,
    lemma_mod_bound,
};
use vstd::arithmetic::mul::lemma_mul_inequality;

verus! {

/// One rectangular cell of a level's tile grid: its grid coordinates and
/// the pixel rectangle it crops from the level's raster.
#[derive(Debug, Clone, Copy, PartialEq, Eq, Structural)]
pub struct TileCell {
    pub level: u32,
    pub row: u32,
    pub col: u32,
    pub left: u32,
    pub upper: u32,
    pub width: u32,
    pub height: u32,
}

/// How many grid slots an extent of `dim` pixels needs when each tile holds
/// `ts` pixels of it: `ceil(dim / ts)`.
pub open spec fn grid_count(dim: nat, ts: nat) -> nat
    recommends
        1 <= ts,
{
    ((dim + ts - 1) / (ts as int)) as nat
}

/// The cell at grid position `(i, j)` of a `w × h` level with tile size
/// `ts`: the rectangle starts at `(j*ts, i*ts)` and is `ts` wide and high
/// except where the level's edge cuts it short.
pub open spec fn cell_matches(
    c: TileCell,
    level: u32,
    w: u32,
    h: u32,
    ts: u32,
    i: int,
    j: int,
) -> bool {
    &&& c.level == level
    &&& c.row == i
    &&& c.col == j
    &&& c.left == j * ts
    &&& c.upper == i * ts
    &&& c.width == (if j * ts + ts >= w {
        w - j * ts
    } else {
        ts as int
    })
    &&& c.height == (if i * ts + ts >= h {
        h - i * ts
    } else {
        ts as int
    })
}

/// The cells are exactly the full row-major grid of a `w × h` level: one
/// cell per grid position, in row-major order.
pub open spec fn partition_matches(
    cells: Seq<TileCell>,
    level: u32,
    w: u32,
    h: u32,
    ts: u32,
) -> bool {
    let cols = grid_count(w as nat, ts as nat) as int;
    &&& cells.len() == grid_count(h as nat, ts as nat) * grid_count(w as nat, ts as nat)
    &&& forall|t: int|
        0 <= t < cells.len() ==> cell_matches(
            #[trigger] cells[t],
            level,
            w,
            h,
            ts,
            t / cols,
            t % cols,
        )
}

/// The Euclidean facts behind `grid_count`: its value is the integer
/// quotient of `dim + ts - 1` by `ts`, with the matching remainder.
proof fn lemma_grid_count_div(dim: nat, ts: nat)
    requires
        1 <= ts,
    ensures
        grid_count(dim, ts) as int == (dim as int + ts - 1) / (ts as int),
        dim as int + ts - 1 == (ts as int) * (grid_count(dim, ts) as int) + ((dim as int + ts
            - 1) % (ts as int)),
        0 <= (dim as int + ts - 1) % (ts as int) < ts as int,
{
    lemma_div_pos_is_pos(dim as int + ts - 1, ts as int);
    lemma_fundamental_div_mod(dim as int + ts - 1, ts as int);
    lemma_mod_bound(dim as int + ts - 1, ts as int);
}

/// A grid never has more slots than pixels.
pub proof fn lemma_grid_count_le_dim(dim: nat, ts: nat)
    requires
        1 <= ts,
    ensures
        grid_count(dim, ts) <= dim,
{
    lemma_grid_count_div(dim, ts);
    let q = grid_count(dim, ts) as int;
    let r = (dim as int + ts - 1) % (ts as int);
    assert(q <= dim) by (nonlinear_arith)
        requires
            dim as int + ts - 1 == (ts as int) * q + r,
            0 <= r,
            1 <= ts as int,
            0 <= q,
            0 <= dim as int,
    ;
}

/// Every grid slot starts strictly inside the level.
pub proof fn lemma_grid_start(dim: nat, ts: nat, j: int)
    requires
        1 <= ts,
        0 <= j < grid_count(dim, ts),
    ensures
        j * ts < dim,
        j * ts + ts <= dim + ts - 1,
{
    lemma_grid_count_div(dim, ts);
    let q = grid_count(dim, ts) as int;
    let r = (dim as int + ts - 1) % (ts as int);
    assert(j * ts + ts <= dim as int + ts - 1 && j * ts < dim as int) by (nonlinear_arith)
        requires
            dim as int + ts - 1 == (ts as int) * q + r,
            0 <= r < ts as int,
            1 <= ts as int,
            0 <= j < q,
    ;
}

/// The grid reaches the far edge of the level.
pub proof fn lemma_grid_end(dim: nat, ts: nat)
    requires
        1 <= ts,
    ensures
        grid_count(dim, ts) * ts >= dim,
{
    lemma_grid_count_div(dim, ts);
    let q = grid_count(dim, ts) as int;
    let r = (dim as int + ts - 1) % (ts as int);
    assert(q * ts >= dim) by (nonlinear_arith)
        requires
            dim as int + ts - 1 == (ts as int) * q + r,
            0 <= r < ts as int,
            1 <= ts as int,
    ;
}

/// The grid slot a pixel coordinate falls into.
pub proof fn lemma_grid_index(dim: nat, ts: nat, v: int)
    requires
        1 <= ts,
        0 <= v < dim,
    ensures
        0 <= v / (ts as int) < grid_count(dim, ts),
        (v / (ts as int)) * ts <= v < (v / (ts as int)) * ts + ts,
{
    let j = v / (ts as int);
    lemma_div_pos_is_pos(v, ts as int);
    lemma_fundamental_div_mod(v, ts as int);
    lemma_mod_bound(v, ts as int);
    let s = v % (ts as int);
    assert((v / (ts as int)) * ts <= v < (v / (ts as int)) * ts + ts) by (nonlinear_arith)
        requires
            v == (ts as int) * j + s,
            0 <= s < ts as int,
            j == v / (ts as int),
    ;
    if j >= grid_count(dim, ts) {
        lemma_grid_end(dim, ts);
        lemma_mul_inequality(grid_count(dim, ts) as int, j, ts as int);
        assert(false);
    }
}

/// The exact number of grid slots: `dim / ts`, plus one more slot when the
/// division leaves a remainder.
pub proof fn lemma_grid_count_split(dim: nat, ts: nat)
    requires
        1 <= ts,
    ensures
        dim % ts == 0 ==> grid_count(dim, ts) == dim / ts,
        dim % ts != 0 ==> grid_count(dim, ts) == dim / ts + 1,
{
    let q = (dim / ts) as int;
    let r = (dim % ts) as int;
    lemma_grid_count_div(dim, ts);
    lemma_fundamental_div_mod(dim as int, ts as int);
    lemma_mod_bound(dim as int, ts as int);
    if r == 0 {
        assert(dim as int + ts - 1 == q * (ts as int) + (ts - 1)) by (nonlinear_arith)
            requires
                dim as int == (ts as int) * q,
        ;
        lemma_fundamental_div_mod_converse(dim as int + ts - 1, ts as int, q, (ts - 1) as int);
    } else {
        assert(dim as int + ts - 1 == (q + 1) * (ts as int) + (r - 1)) by (nonlinear_arith)
            requires
                dim as int == (ts as int) * q + r,
        ;
        lemma_fundamental_div_mod_converse(dim as int + ts - 1, ts as int, q + 1, r - 1);
    }
}

/// A pixel coordinate lies inside a cell's rectangle.
pub open spec fn covers(c: TileCell, x: int, y: int) -> bool {
    &&& c.left <= x
    &&& x < c.left + c.width
    &&& c.upper <= y
    &&& y < c.upper + c.height
}

/// A cell taken from a full partition stays inside the level and is never
/// larger than the tile size, and never empty.
pub proof fn lemma_cell_in_bounds(
    c: TileCell,
    level: u32,
    w: u32,
    h: u32,
    ts: u32,
    i: int,
    j: int,
)
    requires
        1 <= ts,
        cell_matches(c, level, w, h, ts, i, j),
        0 <= j < grid_count(w as nat, ts as nat),
        0 <= i < grid_count(h as nat, ts as nat),
    ensures
        c.left + c.width <= w,
        c.upper + c.height <= h,
        1 <= c.width <= ts,
        1 <= c.height <= ts,
{
    lemma_grid_start(w as nat, ts as nat, j);
    lemma_grid_start(h as nat, ts as nat, i);
}

/// The cell at an index of a full partition: its grid coordinates are in
/// range and its rectangle stays inside the level.
pub proof fn lemma_partition_cell_bounds(
    cells: Seq<TileCell>,
    level: u32,
    w: u32,
    h: u32,
    ts: u32,
    t: int,
)
    requires
        1 <= ts,
        partition_matches(cells, level, w, h, ts),
        0 <= t < cells.len(),
    ensures
        cells[t].level == level,
        cells[t].row < grid_count(h as nat, ts as nat),
        cells[t].col < grid_count(w as nat, ts as nat),
        cells[t].left + cells[t].width <= w,
        cells[t].upper + cells[t].height <= h,
        1 <= cells[t].width <= ts,
        1 <= cells[t].height <= ts,
        1 <= w,
        1 <= h,
{
    let cols = grid_count(w as nat, ts as nat) as int;
    let rows = grid_count(h as nat, ts as nat) as int;
    assert(cols >= 1 && rows >= 1) by (nonlinear_arith)
        requires
            0 <= t < rows * cols,
            rows >= 0,
            cols >= 0,
    ;
    lemma_grid_count_le_dim(w as nat, ts as nat);
    lemma_grid_count_le_dim(h as nat, ts as nat);
    let i = t / cols;
    let j = t % cols;
    lemma_div_pos_is_pos(t, cols);
    lemma_fundamental_div_mod(t, cols);
    lemma_mod_bound(t, cols);
    assert(0 <= i < rows) by (nonlinear_arith)
        requires
            t == cols * i + j,
            0 <= t < rows * cols,
            0 <= j < cols,
            cols >= 1,
    ;
    assert(cell_matches(cells[t], level, w, h, ts, i, j));
    lemma_cell_in_bounds(cells[t], level, w, h, ts, i, j);
}

/// The cells of a partition tile the level exactly: every pixel of
/// `[0, w) × [0, h)` lies in a cell, and in only one.
pub proof fn lemma_tile_coverage(
    cells: Seq<TileCell>,
    level: u32,
    w: u32,
    h: u32,
    ts: u32,
    x: int,
    y: int,
)
    requires
        1 <= ts,
        partition_matches(cells, level, w, h, ts),
        0 <= x < w,
        0 <= y < h,
    ensures
        exists|t: int| 0 <= t < cells.len() && covers(#[trigger] cells[t], x, y),
        forall|t1: int, t2: int|
            0 <= t1 < cells.len() && 0 <= t2 < cells.len() && covers(#[trigger] cells[t1], x, y)
                && covers(#[trigger] cells[t2], x, y) ==> t1 == t2,
{
    let cols = grid_count(w as nat, ts as nat) as int;
    let rows = grid_count(h as nat, ts as nat) as int;
    lemma_grid_index(w as nat, ts as nat, x);
    lemma_grid_index(h as nat, ts as nat, y);
    let j0 = x / (ts as int);
    let i0 = y / (ts as int);
    let t0 = i0 * cols + j0;
    assert(0 <= t0 < rows * cols) by (nonlinear_arith)
        requires
            t0 == i0 * cols + j0,
            0 <= i0 < rows,
            0 <= j0 < cols,
    ;
    lemma_fundamental_div_mod_converse(t0, cols, i0, j0);
    assert(cell_matches(cells[t0], level, w, h, ts, i0, j0));
    assert(covers(cells[t0], x, y));
    assert forall|t: int| 0 <= t < cells.len() && covers(#[trigger] cells[t], x, y) implies t
        == t0 by {
        let i = t / cols;
        let j = t % cols;
        lemma_div_pos_is_pos(t, cols);
        lemma_fundamental_div_mod(t, cols);
        lemma_mod_bound(t, cols);
        assert(cell_matches(cells[t], level, w, h, ts, i, j));
        assert(j * ts <= x < j * ts + ts);
        lemma_fundamental_div_mod_converse(x, ts as int, j, x - j * ts);
        assert(i * ts <= y < i * ts + ts);
        lemma_fundamental_div_mod_converse(y, ts as int, i, y - i * ts);
        assert(t == t0) by (nonlinear_arith)
            requires
                t == cols * i + j,
                t0 == i0 * cols + j0,
                i == i0,
                j == j0,
        ;
    }
}

/// A cell is narrower than the tile size exactly when it sits in the last
/// column of a level whose width is not a multiple of the tile size; the
/// same holds for heights against the last row.
pub proof fn lemma_edge_tile_sizes(cells: Seq<TileCell>, level: u32, w: u32, h: u32, ts: u32)
    requires
        1 <= ts,
        partition_matches(cells, level, w, h, ts),
    ensures
        forall|t: int|
            0 <= t < cells.len() ==> ((#[trigger] cells[t]).width < ts <==> (cells[t].col
                == grid_count(w as nat, ts as nat) - 1 && w as nat % (ts as nat) != 0)),
        forall|t: int|
            0 <= t < cells.len() ==> ((#[trigger] cells[t]).height < ts <==> (cells[t].row
                == grid_count(h as nat, ts as nat) - 1 && h as nat % (ts as nat) != 0)),
{
    let cols = grid_count(w as nat, ts as nat) as int;
    let rows = grid_count(h as nat, ts as nat) as int;
    lemma_grid_count_split(w as nat, ts as nat);
    lemma_grid_count_split(h as nat, ts as nat);
    assert forall|t: int| 0 <= t < cells.len() implies ((#[trigger] cells[t]).width < ts <==> (
    cells[t].col == cols - 1 && w as nat % (ts as nat) != 0)) && (cells[t].height < ts <==> (
    cells[t].row == rows - 1 && h as nat % (ts as nat) != 0)) by {
        let i = t / cols;
        let j = t % cols;
        assert(cols >= 1 && rows >= 1) by (nonlinear_arith)
            requires
                0 <= t < rows * cols,
                rows >= 0,
                cols >= 0,
        ;
        lemma_div_pos_is_pos(t, cols);
        lemma_fundamental_div_mod(t, cols);
        lemma_mod_bound(t, cols);
        assert(0 <= i < rows) by (nonlinear_arith)
            requires
                t == cols * i + j,
                0 <= t < rows * cols,
                0 <= j < cols,
                cols >= 1,
        ;
        assert(cell_matches(cells[t], level, w, h, ts, i, j));
        lemma_one_axis_edge(w, ts, j, cols);
        lemma_one_axis_edge(h, ts, i, rows);
    }
}

/// The clamped extent of slot `j` along one axis of `dim` pixels: shorter
/// than the tile size exactly in the last slot of a non-multiple axis.
proof fn lemma_one_axis_edge(dim: u32, ts: u32, j: int, q: int)
    requires
        1 <= ts,
        q == grid_count(dim as nat, ts as nat),
        dim as nat % (ts as nat) == 0 ==> q == dim as nat / (ts as nat),
        dim as nat % (ts as nat) != 0 ==> q == dim as nat / (ts as nat) + 1,
        0 <= j < q,
    ensures
        (if j * ts + ts >= dim {
            dim - j * ts
        } else {
            ts as int
        }) < ts <==> (j == q - 1 && dim as nat % (ts as nat) != 0),
{
    lemma_grid_start(dim as nat, ts as nat, j);
    lemma_fundamental_div_mod(dim as int, ts as int);
    lemma_mod_bound(dim as int, ts as int);
    let qd = dim as int / (ts as int);
    let r = dim as int % (ts as int);
    if j < q - 1 {
        lemma_grid_start(dim as nat, ts as nat, j + 1);
        assert((j + 1) * ts == j * ts + ts) by (nonlinear_arith);
    } else {
        if r == 0 {
            assert(j == qd - 1);
            assert(j * ts == dim - ts) by (nonlinear_arith)
                requires
                    dim as int == (ts as int) * qd + r,
                    r == 0,
                    j == qd - 1,
            ;
        } else {
            assert(j == qd);
            assert(j * ts == dim - r) by (nonlinear_arith)
                requires
                    dim as int == (ts as int) * qd + r,
                    j == qd,
            ;
        }
    }
}

/// Enumerates, in row-major order, the tile cells of a level whose raster
/// is `level_width × level_height` pixels, clamping each cell of the last
/// row and column against the level's own dimensions.
pub fn partition(level: u32, level_width: u32, level_height: u32, tile_size: u32) -> (r: Vec<
    TileCell,
>)
    requires
        1 <= tile_size,
    ensures
        partition_matches(r@, level, level_width, level_height, tile_size),
{
    let ghost wn = level_width as nat;
    let ghost hn = level_height as nat;
    let ghost tsn = tile_size as nat;
    proof {
        lemma_grid_count_le_dim(wn, tsn);
        lemma_grid_count_le_dim(hn, tsn);
    }
    let cols: u32 = (((level_width as u64) + (tile_size as u64) - 1) / (tile_size as u64)) as u32;
    let rows: u32 = (((level_height as u64) + (tile_size as u64) - 1) / (tile_size as u64)) as u32;
    let mut r: Vec<TileCell> = Vec::new();
    let mut i: u32 = 0;
    while i < rows
        invariant
            1 <= tile_size,
            cols as nat == grid_count(level_width as nat, tile_size as nat),
            rows as nat == grid_count(level_height as nat, tile_size as nat),
            i <= rows,
            r@.len() == i * cols,
            forall|t: int|
                0 <= t < r@.len() ==> cell_matches(
                    #[trigger] r@[t],
                    level,
                    level_width,
                    level_height,
                    tile_size,
                    t / (cols as int),
                    t % (cols as int),
                ),
        decreases rows - i,
    {
        let mut j: u32 = 0;
        while j < cols
            invariant
                1 <= tile_size,
                cols as nat == grid_count(level_width as nat, tile_size as nat),
                rows as nat == grid_count(level_height as nat, tile_size as nat),
                i < rows,
                j <= cols,
                r@.len() == i * cols + j,
                forall|t: int|
                    0 <= t < r@.len() ==> cell_matches(
                        #[trigger] r@[t],
                        level,
                        level_width,
                        level_height,
                        tile_size,
                        t / (cols as int),
                        t % (cols as int),
                    ),
            decreases cols - j,
        {
            proof {
                lemma_grid_start(level_width as nat, tile_size as nat, j as int);
                lemma_grid_start(level_height as nat, tile_size as nat, i as int);
            }
            let left64: u64 = (j as u64) * (tile_size as u64);
            let upper64: u64 = (i as u64) * (tile_size as u64);
            let left: u32 = left64 as u32;
            let upper: u32 = upper64 as u32;
            let width: u32 = if (left as u64) + (tile_size as u64) >= (level_width as u64) {
                level_width - left
            } else {
                tile_size
            };
            let height: u32 = if (upper as u64) + (tile_size as u64) >= (level_height as u64) {
                level_height - upper
            } else {
                tile_size
            };
            let cell = TileCell { level, row: i, col: j, left, upper, width, height };
            let ghost prev = r@;
            r.push(cell);
            proof {
                let t = prev.len() as int;
                assert(t == i * cols + j);
                lemma_fundamental_div_mod_converse(t, cols as int, i as int, j as int);
                assert(forall|u: int| 0 <= u < prev.len() ==> r@[u] == prev[u]);
            }
            j = j + 1;
        }
        i = i + 1;
        proof {
            assert((i - 1) * cols + cols == i * cols) by (nonlinear_arith);
        }
    }
    proof {
        assert(r@.len() == rows * cols);
        assert(grid_count(hn, tsn) * grid_count(wn, tsn) == rows * cols);
    }
    r
}

} // verus!
