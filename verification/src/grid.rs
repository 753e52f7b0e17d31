//! Geometry of a rectangular grid: which cells exist, how they are numbered,
//! and which cells are neighbours.

use vstd::prelude::*;
use vstd::math::min;
use vstd::seq_lib::lemma_seq_contains_after_push;
use crate::tile::TileId;

verus! {

/// Whether `(x, y)` names a cell of a `width` by `height` grid.
pub open spec fn in_grid(width: int, height: int, x: int, y: int) -> bool {
    0 <= x < width && 0 <= y < height
}

/// Handle of the cell `(x, y)`: handles are given out row by row.
pub open spec fn cell_id(width: int, x: int, y: int) -> TileId {
    TileId { index: (y * width + x) as usize }
}

/// The `k`-th cell of the three by three block around `(x, y)`, counted row
/// by row; the fifth one (`k == 4`) is `(x, y)` itself.
pub open spec fn block_cell(x: int, y: int, k: int) -> (int, int) {
    (x + k % 3 - 1, y + k / 3 - 1)
}

/// The neighbours of `(x, y)` among the first `k` cells of its block.
pub open spec fn neighbor_cells_upto(width: int, height: int, x: int, y: int, k: nat) -> Seq<
    (int, int),
>
    decreases k,
{
    if k == 0 {
        Seq::empty()
    } else {
        let before = neighbor_cells_upto(width, height, x, y, (k - 1) as nat);
        let cell = block_cell(x, y, k - 1);
        if k - 1 != 4 && in_grid(width, height, cell.0, cell.1) {
            before.push(cell)
        } else {
            before
        }
    }
}

/// The neighbours of `(x, y)`: the cells of the grid at the eight offsets
/// `{-1, 0, 1} x {-1, 0, 1}` without `(0, 0)`, listed row by row.
pub open spec fn neighbor_cells(width: int, height: int, x: int, y: int) -> Seq<(int, int)> {
    neighbor_cells_upto(width, height, x, y, 9)
}

/// Whether `(cx, cy)` is one of the eight cells around `(x, y)`.
pub open spec fn adjacent(x: int, y: int, cx: int, cy: int) -> bool {
    -1 <= cx - x <= 1 && -1 <= cy - y <= 1 && !(cx == x && cy == y)
}

/// Place of `(cx, cy)` in the block around `(x, y)`: the inverse of
/// `block_cell`.
pub open spec fn block_index(x: int, y: int, cx: int, cy: int) -> int {
    (cy - y + 1) * 3 + (cx - x + 1)
}

/// How many of `v - 1`, `v`, `v + 1` lie in `0..limit`.
pub open spec fn span(limit: int, v: int) -> int {
    (if 0 <= v - 1 < limit {
        1int
    } else {
        0int
    }) + (if 0 <= v < limit {
        1int
    } else {
        0int
    }) + (if 0 <= v + 1 < limit {
        1int
    } else {
        0int
    })
}

/// A cell's index `y * width + x` lies below the cell count, and so does the
/// index of the first cell of its row.
pub proof fn lemma_cell_index_bound(width: int, height: int, x: int, y: int)
    requires
        in_grid(width, height, x, y),
    ensures
        0 <= y * width <= y * width + x < width * height,
{
    assert(0 <= y * width && (y + 1) * width <= height * width) by (nonlinear_arith)
        requires
            0 <= y < height,
            0 < width,
    ;
    assert((y + 1) * width == y * width + width) by (nonlinear_arith);
    assert(height * width == width * height) by (nonlinear_arith);
}

/// What the first `k` cells of a block contribute: exactly the cells of the
/// grid around `(x, y)` whose place in the block is below `k`, each once.
proof fn lemma_upto_members(width: int, height: int, x: int, y: int, k: nat)
    requires
        k <= 9,
    ensures
        forall|cx: int, cy: int| #[trigger]
            neighbor_cells_upto(width, height, x, y, k).contains((cx, cy)) <==> in_grid(
                width,
                height,
                cx,
                cy,
            ) && adjacent(x, y, cx, cy) && block_index(x, y, cx, cy) < k,
        neighbor_cells_upto(width, height, x, y, k).no_duplicates(),
        neighbor_cells_upto(width, height, x, y, k).len() <= k,
        k >= 5 ==> neighbor_cells_upto(width, height, x, y, k).len() <= k - 1,
    decreases k,
{
    let now = neighbor_cells_upto(width, height, x, y, k);
    if k == 0 {
        assert forall|cx: int, cy: int| !(#[trigger] now.contains((cx, cy))) by {}
    } else {
        let before = neighbor_cells_upto(width, height, x, y, (k - 1) as nat);
        let cell = block_cell(x, y, k - 1);
        lemma_upto_members(width, height, x, y, (k - 1) as nat);
        assert(block_index(x, y, cell.0, cell.1) == k - 1);
        assert forall|cx: int, cy: int| #[trigger]
            now.contains((cx, cy)) <==> in_grid(width, height, cx, cy) && adjacent(x, y, cx, cy)
                && block_index(x, y, cx, cy) < k by {
            lemma_seq_contains_after_push(before, cell, (cx, cy));
            if block_index(x, y, cx, cy) == k - 1 && adjacent(x, y, cx, cy) {
                assert((cx, cy) == cell);
            }
        }
        assert(!before.contains(cell));
    }
}

/// The neighbours of `(x, y)` are exactly the cells of the grid around it:
/// at most eight, none of them twice.
pub proof fn lemma_neighbor_cells(width: int, height: int, x: int, y: int)
    ensures
        forall|cx: int, cy: int| #[trigger]
            neighbor_cells(width, height, x, y).contains((cx, cy)) <==> in_grid(
                width,
                height,
                cx,
                cy,
            ) && adjacent(x, y, cx, cy),
        forall|k: int|
            0 <= k < neighbor_cells(width, height, x, y).len() ==> {
                let cell = #[trigger] neighbor_cells(width, height, x, y)[k];
                in_grid(width, height, cell.0, cell.1) && adjacent(x, y, cell.0, cell.1)
            },
        neighbor_cells(width, height, x, y).no_duplicates(),
        neighbor_cells(width, height, x, y).len() <= 8,
{
    lemma_upto_members(width, height, x, y, 9);
    let cells = neighbor_cells(width, height, x, y);
    assert forall|k: int| 0 <= k < cells.len() implies {
        let cell = #[trigger] cells[k];
        in_grid(width, height, cell.0, cell.1) && adjacent(x, y, cell.0, cell.1)
    } by {
        assert(cells.contains((cells[k].0, cells[k].1)));
    }
}

/// Being a neighbour is mutual.
pub proof fn lemma_neighbors_symmetric(width: int, height: int, ax: int, ay: int, bx: int, by: int)
    requires
        in_grid(width, height, ax, ay),
        in_grid(width, height, bx, by),
    ensures
        neighbor_cells(width, height, ax, ay).contains((bx, by)) <==> neighbor_cells(
            width,
            height,
            bx,
            by,
        ).contains((ax, ay)),
{
    lemma_neighbor_cells(width, height, ax, ay);
    lemma_neighbor_cells(width, height, bx, by);
}

/// The number of neighbours is the number of rows in reach times the number
/// of columns in reach, less one for the cell itself where it is a cell. For
/// a cell of the grid that is `min(8, rows * columns - 1)`.
pub proof fn lemma_neighbor_count(width: int, height: int, x: int, y: int)
    ensures
        neighbor_cells(width, height, x, y).len() == span(width, x) * span(height, y) - (if in_grid(
            width,
            height,
            x,
            y,
        ) {
            1int
        } else {
            0int
        }),
        in_grid(width, height, x, y) ==> neighbor_cells(width, height, x, y).len() == min(
            8,
            span(width, x) * span(height, y) - 1,
        ),
{
    reveal_with_fuel(neighbor_cells_upto, 10);
    let left: int = if 0 <= x - 1 < width { 1 } else { 0 };
    let mid: int = if 0 <= x < width { 1 } else { 0 };
    let right: int = if 0 <= x + 1 < width { 1 } else { 0 };
    let up: int = if 0 <= y - 1 < height { 1 } else { 0 };
    let level: int = if 0 <= y < height { 1 } else { 0 };
    let down: int = if 0 <= y + 1 < height { 1 } else { 0 };
    assert(span(width, x) * span(height, y) == (left + mid + right) * up + (left + mid + right)
        * level + (left + mid + right) * down) by (nonlinear_arith)
        requires
            span(width, x) == left + mid + right,
            span(height, y) == up + level + down,
    ;
    assert(block_cell(x, y, 0) == (x - 1, y - 1));
    assert(block_cell(x, y, 1) == (x, y - 1));
    assert(block_cell(x, y, 2) == (x + 1, y - 1));
    assert(block_cell(x, y, 3) == (x - 1, y));
    assert(block_cell(x, y, 5) == (x + 1, y));
    assert(block_cell(x, y, 6) == (x - 1, y + 1));
    assert(block_cell(x, y, 7) == (x, y + 1));
    assert(block_cell(x, y, 8) == (x + 1, y + 1));
}

/// On a grid of at least two rows and two columns a corner cell has three
/// neighbours, any other cell on the border has five, and a cell inside has
/// eight.
pub proof fn lemma_neighbor_count_by_place(width: int, height: int, x: int, y: int)
    requires
        width >= 2,
        height >= 2,
        in_grid(width, height, x, y),
    ensures
        ({
            let on_side = x == 0 || x == width - 1;
            let on_end = y == 0 || y == height - 1;
            neighbor_cells(width, height, x, y).len() == if on_side && on_end {
                3int
            } else if on_side || on_end {
                5int
            } else {
                8int
            }
        }),
{
    lemma_neighbor_count(width, height, x, y);
    let columns = span(width, x);
    let rows = span(height, y);
    assert(columns == if x == 0 || x == width - 1 { 2int } else { 3int });
    assert(rows == if y == 0 || y == height - 1 { 2int } else { 3int });
    assert(columns * rows == if columns == 2 && rows == 2 {
        4int
    } else if columns == 2 || rows == 2 {
        6int
    } else {
        9int
    }) by (nonlinear_arith)
        requires
            2 <= columns <= 3,
            2 <= rows <= 3,
    ;
}

/// Two cells with the same index are the same cell.
pub proof fn lemma_cell_index_injective(width: int, ax: int, ay: int, bx: int, by: int)
    requires
        0 <= ax < width,
        0 <= bx < width,
        ay * width + ax == by * width + bx,
    ensures
        ax == bx,
        ay == by,
{
    assert(ay == by) by (nonlinear_arith)
        requires
            0 <= ax < width,
            0 <= bx < width,
            ay * width + ax == by * width + bx,
    ;
}

/// Every cell has a handle of its own: the handle of a cell is its index,
/// which lies below the cell count, and two cells with the same handle are
/// one cell.
pub proof fn lemma_cell_ids(width: int, height: int, ax: int, ay: int, bx: int, by: int)
    requires
        width * height <= usize::MAX,
        in_grid(width, height, ax, ay),
        in_grid(width, height, bx, by),
    ensures
        cell_id(width, ax, ay).index == ay * width + ax,
        cell_id(width, ax, ay).index < width * height,
        cell_id(width, ax, ay) == cell_id(width, bx, by) ==> ax == bx && ay == by,
{
    lemma_cell_index_bound(width, height, ax, ay);
    lemma_cell_index_bound(width, height, bx, by);
    if cell_id(width, ax, ay) == cell_id(width, bx, by) {
        lemma_cell_index_injective(width, ax, ay, bx, by);
    }
}

} // verus!
