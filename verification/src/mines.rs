//! What a layout of mines amounts to: how many tiles are mined, which cells
//! are, and how many mined neighbours a cell has.

use vstd::prelude::*;
use crate::grid::{
    block_cell,
    cell_id,
    in_grid,
    lemma_cell_index_bound,
    lemma_neighbor_cells,
    neighbor_cells,
    neighbor_cells_upto,
};
use crate::tile::{Tile, TileId};

verus! {

/// Number of mined tiles among `tiles`.
pub open spec fn mine_count(tiles: Seq<Tile>) -> nat
    decreases tiles.len(),
{
    if tiles.len() == 0 {
        0
    } else {
        mine_count(tiles.drop_last()) + if tiles.last().is_mined {
            1nat
        } else {
            0nat
        }
    }
}

/// Whether no tile is mined.
pub open spec fn no_mines(tiles: Seq<Tile>) -> bool {
    forall|i: int| 0 <= i < tiles.len() ==> !(#[trigger] tiles[i]).is_mined
}

/// Whether the cell with the number `i` is listed in `cells`.
pub open spec fn lists(cells: Seq<usize>, i: int) -> bool {
    exists|j: int| 0 <= j < cells.len() && #[trigger] cells[j] == i
}

/// The tiles with a mine put on each of `cells`, and nothing else changed.
pub open spec fn with_mines(tiles: Seq<Tile>, cells: Seq<usize>) -> Seq<Tile> {
    Seq::new(tiles.len(), |i: int| Tile { is_mined: tiles[i].is_mined || lists(cells, i), ..tiles[i] })
}

/// The tile of the cell `(x, y)`: tiles are stored row by row.
pub open spec fn tile_of(width: int, tiles: Seq<Tile>, x: int, y: int) -> Tile {
    tiles[y * width + x]
}

/// Whether `(x, y)` is a cell with a mine.
pub open spec fn mined_cell(width: int, height: int, tiles: Seq<Tile>, x: int, y: int) -> bool {
    in_grid(width, height, x, y) && tile_of(width, tiles, x, y).is_mined
}

/// One for a cell with a mine, zero for anything else.
pub open spec fn mine_at(width: int, height: int, tiles: Seq<Tile>, x: int, y: int) -> nat {
    if mined_cell(width, height, tiles, x, y) {
        1
    } else {
        0
    }
}

/// Number of entries of `cells` that are cells with a mine.
pub open spec fn mined_among(width: int, height: int, tiles: Seq<Tile>, cells: Seq<(int, int)>) -> nat
    decreases cells.len(),
{
    if cells.len() == 0 {
        0
    } else {
        mined_among(width, height, tiles, cells.drop_last()) + mine_at(
            width,
            height,
            tiles,
            cells.last().0,
            cells.last().1,
        )
    }
}

/// Number of mined cells among the neighbours of `(x, y)`.
pub open spec fn adjacent_count(width: int, height: int, tiles: Seq<Tile>, x: int, y: int) -> nat {
    mined_among(width, height, tiles, neighbor_cells(width, height, x, y))
}

/// Number of entries of `ids` that address a mined tile.
pub open spec fn mined_handles(tiles: Seq<Tile>, ids: Seq<TileId>) -> nat
    decreases ids.len(),
{
    if ids.len() == 0 {
        0
    } else {
        mined_handles(tiles, ids.drop_last()) + if ids.last().index < tiles.len()
            && tiles[ids.last().index as int].is_mined {
            1nat
        } else {
            0nat
        }
    }
}

/// Whether `(x, y)` is a cell without a mine.
pub open spec fn safe_cell(width: int, height: int, tiles: Seq<Tile>, x: int, y: int) -> bool {
    in_grid(width, height, x, y) && !tile_of(width, tiles, x, y).is_mined
}

/// One for a cell without a mine, zero for anything else.
pub open spec fn safe_at(width: int, height: int, tiles: Seq<Tile>, x: int, y: int) -> nat {
    if safe_cell(width, height, tiles, x, y) {
        1
    } else {
        0
    }
}

/// Number of entries of `cells` that are cells without a mine.
pub open spec fn safe_among(width: int, height: int, tiles: Seq<Tile>, cells: Seq<(int, int)>) -> nat
    decreases cells.len(),
{
    if cells.len() == 0 {
        0
    } else {
        safe_among(width, height, tiles, cells.drop_last()) + safe_at(
            width,
            height,
            tiles,
            cells.last().0,
            cells.last().1,
        )
    }
}

/// Number of cells without a mine among the neighbours of `(x, y)`.
pub open spec fn safe_neighbors(width: int, height: int, tiles: Seq<Tile>, x: int, y: int) -> nat {
    safe_among(width, height, tiles, neighbor_cells(width, height, x, y))
}

/// Whether two lists of tiles have their mines in the same places.
pub open spec fn same_mines(a: Seq<Tile>, b: Seq<Tile>) -> bool {
    &&& a.len() == b.len()
    &&& forall|i: int| 0 <= i < a.len() ==> (#[trigger] a[i]).is_mined == b[i].is_mined
}

/// Whether two lists of tiles agree on all that setup decides: the mines and
/// the recorded neighbour counts.
pub open spec fn same_setup(a: Seq<Tile>, b: Seq<Tile>) -> bool {
    &&& a.len() == b.len()
    &&& forall|i: int|
        0 <= i < a.len() ==> (#[trigger] a[i]).is_mined == b[i].is_mined && a[i].adjacent_mines
            == b[i].adjacent_mines
}

/// Whether the tile of every cell records the number of mined neighbours
/// that the cell has.
pub open spec fn counts_settled(width: int, height: int, tiles: Seq<Tile>) -> bool {
    forall|x: int, y: int|
        in_grid(width, height, x, y) ==> tile_of(width, tiles, x, y).adjacent_mines
            == #[trigger] adjacent_count(width, height, tiles, x, y)
}

/// A count of mined entries never exceeds the number of entries.
pub proof fn lemma_mined_among_bound(width: int, height: int, tiles: Seq<Tile>, cells: Seq<(int, int)>)
    ensures
        mined_among(width, height, tiles, cells) <= cells.len(),
    decreases cells.len(),
{
    if cells.len() > 0 {
        lemma_mined_among_bound(width, height, tiles, cells.drop_last());
    }
}

/// A cell never has more than eight mined neighbours.
pub proof fn lemma_adjacent_count_bound(width: int, height: int, tiles: Seq<Tile>, x: int, y: int)
    ensures
        adjacent_count(width, height, tiles, x, y) <= 8,
{
    lemma_neighbor_cells(width, height, x, y);
    lemma_mined_among_bound(width, height, tiles, neighbor_cells(width, height, x, y));
}

/// The count of mined neighbours is the sum, over the eight offsets, of one
/// for each offset that leads to a cell with a mine.
pub proof fn lemma_adjacent_count_by_offsets(width: int, height: int, tiles: Seq<Tile>, x: int, y: int)
    ensures
        adjacent_count(width, height, tiles, x, y) == mine_at(width, height, tiles, x - 1, y - 1)
            + mine_at(width, height, tiles, x, y - 1) + mine_at(width, height, tiles, x + 1, y - 1)
            + mine_at(width, height, tiles, x - 1, y) + mine_at(width, height, tiles, x + 1, y)
            + mine_at(width, height, tiles, x - 1, y + 1) + mine_at(width, height, tiles, x, y + 1)
            + mine_at(width, height, tiles, x + 1, y + 1),
{
    lemma_mined_in_block(width, height, tiles, x, y, 9);
    assert(block_cell(x, y, 0) == (x - 1, y - 1));
    assert(block_cell(x, y, 1) == (x, y - 1));
    assert(block_cell(x, y, 2) == (x + 1, y - 1));
    assert(block_cell(x, y, 3) == (x - 1, y));
    assert(block_cell(x, y, 5) == (x + 1, y));
    assert(block_cell(x, y, 6) == (x - 1, y + 1));
    assert(block_cell(x, y, 7) == (x, y + 1));
    assert(block_cell(x, y, 8) == (x + 1, y + 1));
    reveal_with_fuel(mined_in_block, 10);
}

/// Number of cells with a mine among the first `k` cells of the block around
/// `(x, y)`, the cell itself left out.
pub open spec fn mined_in_block(width: int, height: int, tiles: Seq<Tile>, x: int, y: int, k: nat) -> nat
    decreases k,
{
    if k == 0 {
        0
    } else {
        let cell = block_cell(x, y, k - 1);
        mined_in_block(width, height, tiles, x, y, (k - 1) as nat) + if k - 1 != 4 {
            mine_at(width, height, tiles, cell.0, cell.1)
        } else {
            0nat
        }
    }
}

/// Number of cells without a mine among the first `k` cells of the block
/// around `(x, y)`, the cell itself left out.
pub open spec fn safe_in_block(width: int, height: int, tiles: Seq<Tile>, x: int, y: int, k: nat) -> nat
    decreases k,
{
    if k == 0 {
        0
    } else {
        let cell = block_cell(x, y, k - 1);
        safe_in_block(width, height, tiles, x, y, (k - 1) as nat) + if k - 1 != 4 {
            safe_at(width, height, tiles, cell.0, cell.1)
        } else {
            0nat
        }
    }
}

/// Counting the mined neighbours of `(x, y)` among the first `k` cells of
/// its block is summing over those cells, whether they lie in the grid or
/// not.
pub proof fn lemma_mined_in_block(width: int, height: int, tiles: Seq<Tile>, x: int, y: int, k: nat)
    ensures
        mined_among(width, height, tiles, neighbor_cells_upto(width, height, x, y, k))
            == mined_in_block(width, height, tiles, x, y, k),
    decreases k,
{
    if k > 0 {
        lemma_mined_in_block(width, height, tiles, x, y, (k - 1) as nat);
        let before = neighbor_cells_upto(width, height, x, y, (k - 1) as nat);
        let cell = block_cell(x, y, k - 1);
        if k - 1 != 4 && in_grid(width, height, cell.0, cell.1) {
            assert(before.push(cell).drop_last() == before);
        }
    }
}

/// Counting the neighbours of `(x, y)` without a mine among the first `k`
/// cells of its block is summing over those cells, whether they lie in the
/// grid or not.
pub proof fn lemma_safe_in_block(width: int, height: int, tiles: Seq<Tile>, x: int, y: int, k: nat)
    ensures
        safe_among(width, height, tiles, neighbor_cells_upto(width, height, x, y, k))
            == safe_in_block(width, height, tiles, x, y, k),
    decreases k,
{
    if k > 0 {
        lemma_safe_in_block(width, height, tiles, x, y, (k - 1) as nat);
        let before = neighbor_cells_upto(width, height, x, y, (k - 1) as nat);
        let cell = block_cell(x, y, k - 1);
        if k - 1 != 4 && in_grid(width, height, cell.0, cell.1) {
            assert(before.push(cell).drop_last() == before);
        }
    }
}

/// Counting mined cells looks at the mines only: lists of tiles with their
/// mines in the same places give the same counts.
pub proof fn lemma_mined_among_reads_mines(
    width: int,
    height: int,
    a: Seq<Tile>,
    b: Seq<Tile>,
    cells: Seq<(int, int)>,
)
    requires
        same_mines(a, b),
        a.len() == width * height,
        width > 0,
    ensures
        mined_among(width, height, a, cells) == mined_among(width, height, b, cells),
    decreases cells.len(),
{
    if cells.len() > 0 {
        lemma_mined_among_reads_mines(width, height, a, b, cells.drop_last());
        let cell = cells.last();
        if in_grid(width, height, cell.0, cell.1) {
            lemma_cell_index_bound(width, height, cell.0, cell.1);
        }
    }
}

/// Replacing one tile changes the number of mines by what the old tile took
/// away and the new one brings.
pub proof fn lemma_mine_count_update(tiles: Seq<Tile>, i: int, tile: Tile)
    requires
        0 <= i < tiles.len(),
    ensures
        mine_count(tiles.update(i, tile)) + (if tiles[i].is_mined {
            1int
        } else {
            0int
        }) == mine_count(tiles) + (if tile.is_mined {
            1int
        } else {
            0int
        }),
    decreases tiles.len(),
{
    let after = tiles.update(i, tile);
    if i == tiles.len() - 1 {
        assert(after.drop_last() == tiles.drop_last());
    } else {
        assert(after.drop_last() == tiles.drop_last().update(i, tile));
        lemma_mine_count_update(tiles.drop_last(), i, tile);
    }
}

/// There are no mines exactly when the number of mines is zero.
pub proof fn lemma_no_mines_is_zero(tiles: Seq<Tile>)
    ensures
        no_mines(tiles) <==> mine_count(tiles) == 0,
    decreases tiles.len(),
{
    if tiles.len() > 0 {
        lemma_no_mines_is_zero(tiles.drop_last());
        if no_mines(tiles) {
            assert forall|i: int| 0 <= i < tiles.drop_last().len() implies !(
            #[trigger] tiles.drop_last()[i]).is_mined by {
                assert(!tiles[i].is_mined);
            }
        }
        if mine_count(tiles) == 0 {
            assert forall|i: int| 0 <= i < tiles.len() implies !(#[trigger] tiles[i]).is_mined by {
                if i < tiles.len() - 1 {
                    assert(!tiles.drop_last()[i].is_mined);
                }
            }
        }
    }
}

/// Putting mines on distinct cells of a field without mines gives as many
/// mines as there are cells in the list.
pub proof fn lemma_with_mines_count(tiles: Seq<Tile>, cells: Seq<usize>)
    requires
        no_mines(tiles),
        cells.no_duplicates(),
        forall|i: int| 0 <= i < cells.len() ==> (#[trigger] cells[i]) < tiles.len(),
    ensures
        mine_count(with_mines(tiles, cells)) == cells.len(),
    decreases cells.len(),
{
    if cells.len() == 0 {
        assert forall|i: int| 0 <= i < tiles.len() implies !(#[trigger] with_mines(tiles, cells)[i]).is_mined by {
            assert(!tiles[i].is_mined);
        }
        lemma_no_mines_is_zero(with_mines(tiles, cells));
    } else {
        let earlier = cells.drop_last();
        let cell = cells.last();
        lemma_with_mines_count(tiles, earlier);
        let before = with_mines(tiles, earlier);
        assert(cells == earlier.push(cell));
        assert(!lists(earlier, cell as int));
        assert(!tiles[cell as int].is_mined);
        lemma_with_mines_step(tiles, earlier, cell);
        lemma_mine_count_update(before, cell as int, Tile { is_mined: true, ..before[cell as int] });
    }
}

/// One more mine is one more update of the tiles.
pub proof fn lemma_with_mines_step(tiles: Seq<Tile>, cells: Seq<usize>, cell: usize)
    requires
        cell < tiles.len(),
    ensures
        with_mines(tiles, cells.push(cell)) == with_mines(tiles, cells).update(
            cell as int,
            Tile { is_mined: true, ..with_mines(tiles, cells)[cell as int] },
        ),
{
    let before = with_mines(tiles, cells);
    let after = with_mines(tiles, cells.push(cell));
    assert forall|i: int| 0 <= i < tiles.len() implies after[i] == before.update(
        cell as int,
        Tile { is_mined: true, ..before[cell as int] },
    )[i] by {
        if lists(cells, i) {
            let j = choose|j: int| 0 <= j < cells.len() && #[trigger] cells[j] == i;
            assert(cells.push(cell)[j] == i);
        }
        if i == cell {
            assert(cells.push(cell)[cells.len() as int] == i);
        }
    }
    assert(after =~= before.update(cell as int, Tile { is_mined: true, ..before[cell as int] }));
}

/// The number of mines looks at the mines only.
pub proof fn lemma_mine_count_reads_mines(a: Seq<Tile>, b: Seq<Tile>)
    requires
        same_mines(a, b),
    ensures
        mine_count(a) == mine_count(b),
    decreases a.len(),
{
    if a.len() > 0 {
        assert forall|i: int| 0 <= i < a.drop_last().len() implies (#[trigger] a.drop_last()[i]).is_mined
            == b.drop_last()[i].is_mined by {
            assert(a[i].is_mined == b[i].is_mined);
        }
        lemma_mine_count_reads_mines(a.drop_last(), b.drop_last());
        assert(a[a.len() - 1].is_mined == b[a.len() - 1].is_mined);
    }
}

/// Tiles that agree on mines and recorded counts are settled together.
pub proof fn lemma_settled_reads_setup(width: int, height: int, a: Seq<Tile>, b: Seq<Tile>)
    requires
        same_setup(a, b),
        a.len() == width * height,
        width > 0,
        counts_settled(width, height, a),
    ensures
        counts_settled(width, height, b),
{
    assert forall|x: int, y: int| in_grid(width, height, x, y) implies tile_of(
        width,
        b,
        x,
        y,
    ).adjacent_mines == #[trigger] adjacent_count(width, height, b, x, y) by {
        lemma_cell_index_bound(width, height, x, y);
        assert(a[y * width + x].adjacent_mines == b[y * width + x].adjacent_mines);
        assert(tile_of(width, a, x, y).adjacent_mines == adjacent_count(width, height, a, x, y));
        lemma_mined_among_reads_mines(width, height, a, b, neighbor_cells(width, height, x, y));
    }
}

/// Counting mines through the handles of cells is counting them on the cells:
/// looking each handle up in the tile store finds the tile of its cell.
pub proof fn lemma_mined_handles(width: int, height: int, tiles: Seq<Tile>, cells: Seq<(int, int)>)
    requires
        tiles.len() == width * height,
        tiles.len() <= usize::MAX,
        forall|k: int|
            0 <= k < cells.len() ==> in_grid(width, height, (#[trigger] cells[k]).0, cells[k].1),
    ensures
        mined_handles(tiles, cells.map_values(|cell: (int, int)| cell_id(width, cell.0, cell.1)))
            == mined_among(width, height, tiles, cells),
    decreases cells.len(),
{
    if cells.len() > 0 {
        let ids = cells.map_values(|cell: (int, int)| cell_id(width, cell.0, cell.1));
        let earlier = cells.drop_last();
        assert(ids.drop_last() == earlier.map_values(
            |cell: (int, int)| cell_id(width, cell.0, cell.1),
        ));
        lemma_mined_handles(width, height, tiles, earlier);
        let cell = cells[cells.len() - 1];
        lemma_cell_index_bound(width, height, cell.0, cell.1);
        assert(ids.last() == cell_id(width, cell.0, cell.1));
    }
}

/// The count of mined neighbours of a cell is the number of mined tiles
/// among the handles of its neighbours.
pub proof fn lemma_adjacent_count_by_handles(
    width: int,
    height: int,
    tiles: Seq<Tile>,
    x: int,
    y: int,
)
    requires
        tiles.len() == width * height,
        tiles.len() <= usize::MAX,
    ensures
        mined_handles(
            tiles,
            neighbor_cells(width, height, x, y).map_values(
                |cell: (int, int)| cell_id(width, cell.0, cell.1),
            ),
        ) == adjacent_count(width, height, tiles, x, y),
{
    lemma_neighbor_cells(width, height, x, y);
    lemma_mined_handles(width, height, tiles, neighbor_cells(width, height, x, y));
}

} // verus!
