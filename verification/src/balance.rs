//! The double count of a settled field: what the tiles without a mine record
//! adds up to what the mines see around them.

use vstd::prelude::*;
use crate::grid::{block_cell, in_grid};
use crate::mines::{
    adjacent_count,
    counts_settled,
    lemma_mined_in_block,
    lemma_safe_in_block,
    mined_cell,
    mined_in_block,
    safe_cell,
    safe_in_block,
    safe_neighbors,
    tile_of,
};
use crate::sums::{grid_sum, lemma_grid_sum_add, lemma_grid_sum_equal, lemma_grid_sum_shift};
use crate::tile::Tile;

verus! {

/// What a cell adds to the sum over the tiles without a mine: the count that
/// its tile records, or nothing where the tile is mined.
pub open spec fn recorded_on_safe(width: int, tiles: Seq<Tile>) -> spec_fn(int, int) -> int {
    |x: int, y: int|
        if tile_of(width, tiles, x, y).is_mined {
            0int
        } else {
            tile_of(width, tiles, x, y).adjacent_mines as int
        }
}

/// What a cell adds to the sum over the mines: the number of its neighbours
/// without a mine, or nothing where the tile is not mined.
pub open spec fn safe_around_mine(width: int, height: int, tiles: Seq<Tile>) -> spec_fn(
    int,
    int,
) -> int {
    |x: int, y: int|
        if tile_of(width, tiles, x, y).is_mined {
            safe_neighbors(width, height, tiles, x, y) as int
        } else {
            0int
        }
}

/// Sum, over the tiles without a mine, of the counts that they record.
pub open spec fn counts_over_safe_tiles(width: int, height: int, tiles: Seq<Tile>) -> int {
    grid_sum(width, height, recorded_on_safe(width, tiles))
}

/// Sum, over the mines, of the number of neighbours without a mine.
pub open spec fn safe_neighbors_over_mines(width: int, height: int, tiles: Seq<Tile>) -> int {
    grid_sum(width, height, safe_around_mine(width, height, tiles))
}

/// One for a cell without a mine from which the step `(dx, dy)` leads to a
/// cell with a mine.
spec fn safe_then_mine(width: int, height: int, tiles: Seq<Tile>, dx: int, dy: int) -> spec_fn(
    int,
    int,
) -> int {
    |x: int, y: int|
        if safe_cell(width, height, tiles, x, y) && mined_cell(width, height, tiles, x + dx, y + dy) {
            1int
        } else {
            0int
        }
}

/// One for a cell with a mine from which the step `(dx, dy)` leads to a cell
/// without a mine.
spec fn mine_then_safe(width: int, height: int, tiles: Seq<Tile>, dx: int, dy: int) -> spec_fn(
    int,
    int,
) -> int {
    |x: int, y: int|
        if mined_cell(width, height, tiles, x, y) && safe_cell(width, height, tiles, x + dx, y + dy) {
            1int
        } else {
            0int
        }
}

/// For a cell without a mine, its mined neighbours among the first `k` cells
/// of its block.
spec fn mined_seen_upto(width: int, height: int, tiles: Seq<Tile>, k: nat) -> spec_fn(int, int) -> int {
    |x: int, y: int|
        if safe_cell(width, height, tiles, x, y) {
            mined_in_block(width, height, tiles, x, y, k) as int
        } else {
            0int
        }
}

/// For a cell with a mine, its neighbours without a mine among the first `k`
/// cells of its block.
spec fn safe_seen_upto(width: int, height: int, tiles: Seq<Tile>, k: nat) -> spec_fn(int, int) -> int {
    |x: int, y: int|
        if mined_cell(width, height, tiles, x, y) {
            safe_in_block(width, height, tiles, x, y, k) as int
        } else {
            0int
        }
}

/// Number of pairs of a cell without a mine and a mined cell that one of the
/// first `k` steps of the block leads to.
spec fn pairs_from_safe(width: int, height: int, tiles: Seq<Tile>, k: nat) -> int
    decreases k,
{
    if k == 0 {
        0
    } else {
        pairs_from_safe(width, height, tiles, (k - 1) as nat) + if k - 1 != 4 {
            grid_sum(
                width,
                height,
                safe_then_mine(width, height, tiles, block_cell(0, 0, k - 1).0, block_cell(0, 0, k - 1).1),
            )
        } else {
            0int
        }
    }
}

/// Number of pairs of a mined cell and a cell without a mine that one of the
/// first `k` steps of the block leads to.
spec fn pairs_from_mines(width: int, height: int, tiles: Seq<Tile>, k: nat) -> int
    decreases k,
{
    if k == 0 {
        0
    } else {
        pairs_from_mines(width, height, tiles, (k - 1) as nat) + if k - 1 != 4 {
            grid_sum(
                width,
                height,
                mine_then_safe(width, height, tiles, block_cell(0, 0, k - 1).0, block_cell(0, 0, k - 1).1),
            )
        } else {
            0int
        }
    }
}

proof fn lemma_mined_seen(width: int, height: int, tiles: Seq<Tile>, k: nat)
    ensures
        grid_sum(width, height, mined_seen_upto(width, height, tiles, k)) == pairs_from_safe(
            width,
            height,
            tiles,
            k,
        ),
    decreases k,
{
    let now = mined_seen_upto(width, height, tiles, k);
    if k == 0 {
        lemma_grid_sum_add(width, height, now, now, now);
    } else {
        let before = mined_seen_upto(width, height, tiles, (k - 1) as nat);
        lemma_mined_seen(width, height, tiles, (k - 1) as nat);
        if k - 1 != 4 {
            let step = block_cell(0, 0, k - 1);
            let extra = safe_then_mine(width, height, tiles, step.0, step.1);
            assert forall|x: int, y: int| in_grid(width, height, x, y) implies #[trigger] now(x, y)
                == before(x, y) + extra(x, y) by {
                assert(block_cell(x, y, k - 1) == (x + step.0, y + step.1));
            }
            lemma_grid_sum_add(width, height, before, extra, now);
        } else {
            lemma_grid_sum_equal(width, height, now, before);
        }
    }
}

proof fn lemma_safe_seen(width: int, height: int, tiles: Seq<Tile>, k: nat)
    ensures
        grid_sum(width, height, safe_seen_upto(width, height, tiles, k)) == pairs_from_mines(
            width,
            height,
            tiles,
            k,
        ),
    decreases k,
{
    let now = safe_seen_upto(width, height, tiles, k);
    if k == 0 {
        lemma_grid_sum_add(width, height, now, now, now);
    } else {
        let before = safe_seen_upto(width, height, tiles, (k - 1) as nat);
        lemma_safe_seen(width, height, tiles, (k - 1) as nat);
        if k - 1 != 4 {
            let step = block_cell(0, 0, k - 1);
            let extra = mine_then_safe(width, height, tiles, step.0, step.1);
            assert forall|x: int, y: int| in_grid(width, height, x, y) implies #[trigger] now(x, y)
                == before(x, y) + extra(x, y) by {
                assert(block_cell(x, y, k - 1) == (x + step.0, y + step.1));
            }
            lemma_grid_sum_add(width, height, before, extra, now);
        } else {
            lemma_grid_sum_equal(width, height, now, before);
        }
    }
}

/// A pair counted from its cell without a mine is the pair counted from its
/// mine by the step back.
proof fn lemma_pairs_turn(width: int, height: int, tiles: Seq<Tile>, dx: int, dy: int)
    requires
        -1 <= dx <= 1,
        -1 <= dy <= 1,
    ensures
        grid_sum(width, height, safe_then_mine(width, height, tiles, dx, dy)) == grid_sum(
            width,
            height,
            mine_then_safe(width, height, tiles, -dx, -dy),
        ),
{
    let from_safe = safe_then_mine(width, height, tiles, dx, dy);
    let from_mine = mine_then_safe(width, height, tiles, -dx, -dy);
    assert forall|x: int, y: int| in_grid(width, height, x, y) implies #[trigger] from_mine(x, y)
        == from_safe(x - dx, y - dy) by {}
    assert forall|x: int, y: int|
        !(in_grid(width, height, x, y) && in_grid(width, height, x + dx, y + dy))
            implies #[trigger] from_safe(x, y) == 0 by {}
    lemma_grid_sum_shift(width, height, dx, dy, from_safe, from_mine);
}

/// On a field whose counts are settled, the counts recorded on the tiles
/// without a mine add up to the number of neighbours without a mine that the
/// mines have: both sums count the pairs of neighbours of which one is mined
/// and the other is not.
pub proof fn lemma_counts_balance(width: int, height: int, tiles: Seq<Tile>)
    requires
        counts_settled(width, height, tiles),
    ensures
        counts_over_safe_tiles(width, height, tiles) == safe_neighbors_over_mines(
            width,
            height,
            tiles,
        ),
{
    let seen_by_safe = mined_seen_upto(width, height, tiles, 9);
    let seen_by_mines = safe_seen_upto(width, height, tiles, 9);
    assert forall|x: int, y: int| in_grid(width, height, x, y) implies #[trigger] recorded_on_safe(
        width,
        tiles,
    )(x, y) == seen_by_safe(x, y) by {
        lemma_mined_in_block(width, height, tiles, x, y, 9);
        assert(tile_of(width, tiles, x, y).adjacent_mines == adjacent_count(
            width,
            height,
            tiles,
            x,
            y,
        ));
    }
    lemma_grid_sum_equal(width, height, recorded_on_safe(width, tiles), seen_by_safe);
    assert forall|x: int, y: int| in_grid(width, height, x, y) implies #[trigger] safe_around_mine(
        width,
        height,
        tiles,
    )(x, y) == seen_by_mines(x, y) by {
        lemma_safe_in_block(width, height, tiles, x, y, 9);
    }
    lemma_grid_sum_equal(width, height, safe_around_mine(width, height, tiles), seen_by_mines);
    lemma_mined_seen(width, height, tiles, 9);
    lemma_safe_seen(width, height, tiles, 9);
    lemma_pairs_turn(width, height, tiles, -1, -1);
    lemma_pairs_turn(width, height, tiles, 0, -1);
    lemma_pairs_turn(width, height, tiles, 1, -1);
    lemma_pairs_turn(width, height, tiles, -1, 0);
    lemma_pairs_turn(width, height, tiles, 1, 0);
    lemma_pairs_turn(width, height, tiles, -1, 1);
    lemma_pairs_turn(width, height, tiles, 0, 1);
    lemma_pairs_turn(width, height, tiles, 1, 1);
    reveal_with_fuel(pairs_from_safe, 10);
    reveal_with_fuel(pairs_from_mines, 10);
    assert(block_cell(0, 0, 0) == (-1int, -1int));
    assert(block_cell(0, 0, 1) == (0int, -1int));
    assert(block_cell(0, 0, 2) == (1int, -1int));
    assert(block_cell(0, 0, 3) == (-1int, 0int));
    assert(block_cell(0, 0, 5) == (1int, 0int));
    assert(block_cell(0, 0, 6) == (-1int, 1int));
    assert(block_cell(0, 0, 7) == (0int, 1int));
    assert(block_cell(0, 0, 8) == (1int, 1int));
}

} // verus!
