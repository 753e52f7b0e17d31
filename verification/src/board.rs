//! The board: grid dimensions, mine budget, the table of tile handles, and
//! the geometry of the grid (cell lookup, neighbours, display positions).

use vstd::prelude::*;
use crate::grid::{
    cell_id,
    in_grid,
    lemma_cell_ids,
    lemma_cell_index_bound,
    lemma_neighbor_cells,
    neighbor_cells,
    neighbor_cells_upto,
};
use crate::tile::TileId;

verus! {

/// Why a board could not be set up.
#[derive(Clone, Copy, Debug, PartialEq, Eq, Hash, Structural)]
pub enum SetupError {
    /// The width or the height is zero.
    EmptyGrid,
    /// The number of cells does not fit the machine's index type.
    TooLarge,
    /// The mine budget leaves no safe cell.
    TooManyMines,
    /// Fewer numbers were handed in than there are mines to place.
    MissingDraws,
}

/// Display position of a tile, with both coordinates doubled. Centring the
/// grid halves an integer, so the doubled value is the one that stays exact.
#[derive(Clone, Copy, Debug, PartialEq, Eq, Hash, Structural)]
pub struct Position {
    pub twice_x: i128,
    pub twice_y: i128,
}

/// The plain numbers a board was made with.
pub struct BoardView {
    pub width: nat,
    pub height: nat,
    pub tile_size: nat,
    pub tile_gap: nat,
    pub max_mines: nat,
    pub remaining_mines: nat,
}

/// The grid of one round. It holds a handle for every cell, row by row; the
/// tile records themselves live in the round's tile store.
pub struct Board {
    width: usize,
    height: usize,
    tile_size: u32,
    tile_gap: u32,
    max_mines: usize,
    remaining_mines: usize,
    tiles: Vec<Vec<TileId>>,
}

/// Why no grid of `width` by `height` cells can be laid out, if anything
/// stands against it.
pub open spec fn layout_error(width: usize, height: usize) -> Option<SetupError> {
    if width == 0 || height == 0 {
        Some(SetupError::EmptyGrid)
    } else if width * height > usize::MAX {
        Some(SetupError::TooLarge)
    } else {
        None
    }
}

/// The numbers of a board as it is made: the counter for the caller's flag
/// bookkeeping starts at the mine budget.
pub open spec fn fresh_view(
    width: usize,
    height: usize,
    tile_size: u32,
    tile_gap: u32,
    max_mines: usize,
) -> BoardView {
    BoardView {
        width: width as nat,
        height: height as nat,
        tile_size: tile_size as nat,
        tile_gap: tile_gap as nat,
        max_mines: max_mines as nat,
        remaining_mines: max_mines as nat,
    }
}

/// Twice the display coordinate of the tile at `index` on an axis of `count`
/// tiles: the tiles are `size` wide and `gap` apart, and the row of them is
/// centred on the origin. Undoubled this is `start + index * (size + gap)`
/// with `start = -(count * size + (count - 1) * gap) / 2`.
pub open spec fn twice_coordinate(count: int, index: int, size: int, gap: int) -> int {
    2 * index * (size + gap) - (count * size + (count - 1) * gap)
}

/// `v + d - 1` where that lies in `0..limit`.
fn shifted(v: usize, d: usize, limit: usize) -> (r: Option<usize>)
    requires
        d <= 2,
    ensures
        r == if 0 <= v + d - 1 < limit {
            Some((v + d - 1) as usize)
        } else {
            None
        },
{
    if d == 0 {
        if 1 <= v && v - 1 < limit {
            Some(v - 1)
        } else {
            None
        }
    } else if d == 1 {
        if v < limit {
            Some(v)
        } else {
            None
        }
    } else {
        if v < limit && v + 1 < limit {
            Some(v + 1)
        } else {
            None
        }
    }
}

/// Twice the display coordinate on one axis.
fn axis_twice(count: usize, index: usize, size: u32, gap: u32) -> (r: i128)
    requires
        index < count,
    ensures
        r == twice_coordinate(count as int, index as int, size as int, gap as int),
{
    let step: i128 = size as i128 + gap as i128;
    let n: i128 = count as i128;
    let i: i128 = index as i128;
    assert(0 <= i * step <= 0x1_0000_0000_0000_0000 * 0x2_0000_0000) by (nonlinear_arith)
        requires
            0 <= i <= 0x1_0000_0000_0000_0000,
            0 <= step <= 0x2_0000_0000,
    ;
    assert(0 <= n * (size as i128) <= 0x1_0000_0000_0000_0000 * 0x1_0000_0000)
        by (nonlinear_arith)
        requires
            0 <= n <= 0x1_0000_0000_0000_0000,
            0 <= size as i128 <= 0x1_0000_0000,
    ;
    assert(0 <= (n - 1) * (gap as i128) <= 0x1_0000_0000_0000_0000 * 0x1_0000_0000)
        by (nonlinear_arith)
        requires
            0 <= n - 1 <= 0x1_0000_0000_0000_0000,
            0 <= gap as i128 <= 0x1_0000_0000,
    ;
    assert(2 * i * step == 2 * (i * step)) by (nonlinear_arith);
    2 * (i * step) - (n * (size as i128) + (n - 1) * (gap as i128))
}

impl View for Board {
    type V = BoardView;

    closed spec fn view(&self) -> BoardView {
        BoardView {
            width: self.width as nat,
            height: self.height as nat,
            tile_size: self.tile_size as nat,
            tile_gap: self.tile_gap as nat,
            max_mines: self.max_mines as nat,
            remaining_mines: self.remaining_mines as nat,
        }
    }
}

impl Board {
    /// The board's invariant: the grid is not empty, its cell count fits the
    /// index type, and the table is rectangular and holds at `[row][col]`
    /// the handle `cell_id(width, col, row)`.
    #[verifier::type_invariant]
    pub closed spec fn wf(&self) -> bool {
        &&& self.width > 0
        &&& self.height > 0
        &&& self.width * self.height <= usize::MAX
        &&& self.tiles@.len() == self.height
        &&& forall|r: int| 0 <= r < self.height ==> (#[trigger] self.tiles@[r])@.len() == self.width
        &&& forall|r: int, c: int|
            0 <= r < self.height && 0 <= c < self.width ==> (#[trigger] self.tiles@[r]@[c])
                == cell_id(self.width as int, c, r)
    }

    /// Number of cells.
    pub open spec fn cell_count(&self) -> nat {
        self@.width * self@.height
    }

    /// Whether `(x, y)` names a cell of this board.
    pub open spec fn has_cell(&self, x: int, y: int) -> bool {
        in_grid(self@.width as int, self@.height as int, x, y)
    }

    /// Handle of the cell `(x, y)`.
    pub open spec fn id_at(&self, x: int, y: int) -> TileId {
        cell_id(self@.width as int, x, y)
    }

    /// The neighbours of `(x, y)` as cells.
    pub open spec fn neighbors_of(&self, x: int, y: int) -> Seq<(int, int)> {
        neighbor_cells(self@.width as int, self@.height as int, x, y)
    }

    /// The neighbours of `(x, y)` as handles, in the order of `neighbors_of`.
    pub open spec fn neighbor_ids(&self, x: int, y: int) -> Seq<TileId> {
        self.neighbors_of(x, y).map_values(|cell: (int, int)| self.id_at(cell.0, cell.1))
    }

    /// Display position of the cell `(x, y)`.
    pub open spec fn position_of(&self, x: int, y: int) -> (int, int) {
        (
            twice_coordinate(self@.width as int, x, self@.tile_size as int, self@.tile_gap as int),
            twice_coordinate(self@.height as int, y, self@.tile_size as int, self@.tile_gap as int),
        )
    }

    /// Lays out a `width` by `height` grid and gives every cell its handle.
    /// The mine budget is recorded, not examined: mine placement is what
    /// turns an oversized budget down.
    pub fn new(width: usize, height: usize, tile_size: u32, tile_gap: u32, max_mines: usize) -> (r:
        Result<Board, SetupError>)
        ensures
            match r {
                Ok(board) => {
                    &&& layout_error(width, height) is None
                    &&& board.wf()
                    &&& board@ == fresh_view(width, height, tile_size, tile_gap, max_mines)
                },
                Err(e) => layout_error(width, height) == Some(e),
            },
    {
        if width == 0 || height == 0 {
            return Err(SetupError::EmptyGrid);
        }
        let total: usize = match width.checked_mul(height) {
            Some(n) => n,
            None => {
                return Err(SetupError::TooLarge);
            },
        };
        let mut tiles: Vec<Vec<TileId>> = Vec::new();
        let mut row: usize = 0;
        while row < height
            invariant
                row <= height,
                0 < width,
                width * height == total,
                tiles@.len() == row,
                forall|r: int| 0 <= r < row ==> (#[trigger] tiles@[r])@.len() == width,
                forall|r: int, c: int|
                    0 <= r < row && 0 <= c < width ==> (#[trigger] tiles@[r]@[c]) == cell_id(
                        width as int,
                        c,
                        r,
                    ),
            decreases height - row,
        {
            proof {
                lemma_cell_index_bound(width as int, height as int, 0, row as int);
            }
            let first: usize = row * width;
            let mut ids: Vec<TileId> = Vec::new();
            let mut col: usize = 0;
            while col < width
                invariant
                    col <= width,
                    row < height,
                    width * height == total,
                    first == row * width,
                    ids@.len() == col,
                    forall|c: int| 0 <= c < col ==> (#[trigger] ids@[c]) == cell_id(width as int, c, row as int),
                decreases width - col,
            {
                proof {
                    lemma_cell_index_bound(width as int, height as int, col as int, row as int);
                }
                ids.push(TileId { index: first + col });
                col += 1;
            }
            tiles.push(ids);
            row += 1;
        }
        Ok(Board { width, height, tile_size, tile_gap, max_mines, remaining_mines: max_mines, tiles })
    }

    /// What the invariant says of the board's numbers: the grid is not empty
    /// and its cell count fits the index type.
    pub proof fn lemma_dimensions(self)
        requires
            self.wf(),
        ensures
            self@.width > 0,
            self@.height > 0,
            self.cell_count() <= usize::MAX,
    {
    }

    /// The handles of the neighbours of `(x, y)` are the handles of its
    /// neighbour cells, one for one: as many, each addressing a tile of the
    /// board, none of them twice.
    pub proof fn lemma_neighbor_ids(self, x: int, y: int)
        requires
            self.wf(),
        ensures
            self.neighbor_ids(x, y).len() == self.neighbors_of(x, y).len(),
            self.neighbor_ids(x, y).len() <= 8,
            self.neighbor_ids(x, y).no_duplicates(),
            forall|k: int|
                0 <= k < self.neighbor_ids(x, y).len() ==> (#[trigger] self.neighbor_ids(
                    x,
                    y,
                )[k]).index < self.cell_count(),
    {
        let width = self@.width as int;
        let height = self@.height as int;
        let cells = self.neighbors_of(x, y);
        let ids = self.neighbor_ids(x, y);
        lemma_neighbor_cells(width, height, x, y);
        assert forall|k: int| 0 <= k < ids.len() implies (#[trigger] ids[k]).index
            < self.cell_count() by {
            lemma_cell_ids(width, height, cells[k].0, cells[k].1, cells[k].0, cells[k].1);
        }
        assert forall|i: int, j: int| 0 <= i < ids.len() && 0 <= j < ids.len() && i != j implies ids[i]
            != ids[j] by {
            lemma_cell_ids(width, height, cells[i].0, cells[i].1, cells[j].0, cells[j].1);
        }
    }

    /// Number of columns.
    pub fn width(&self) -> (w: usize)
        ensures
            w == self@.width,
    {
        self.width
    }

    /// Number of rows.
    pub fn height(&self) -> (h: usize)
        ensures
            h == self@.height,
    {
        self.height
    }

    /// Edge length of a tile.
    pub fn tile_size(&self) -> (s: u32)
        ensures
            s == self@.tile_size,
    {
        self.tile_size
    }

    /// Distance between two tiles.
    pub fn tile_gap(&self) -> (g: u32)
        ensures
            g == self@.tile_gap,
    {
        self.tile_gap
    }

    /// Number of mines that placement hides.
    pub fn max_mines(&self) -> (m: usize)
        ensures
            m == self@.max_mines,
    {
        self.max_mines
    }

    /// The counter kept for the caller's flag bookkeeping. It starts at the
    /// mine budget and nothing in this crate changes it.
    pub fn remaining_mines(&self) -> (m: usize)
        ensures
            m == self@.remaining_mines,
    {
        self.remaining_mines
    }

    /// Number of cells.
    pub fn tile_count(&self) -> (n: usize)
        ensures
            n == self.cell_count(),
    {
        proof {
            use_type_invariant(self);
        }
        self.width * self.height
    }

    /// Handle of the cell `(x, y)`, or nothing where the grid has no such
    /// cell.
    pub fn get(&self, x: usize, y: usize) -> (id: Option<TileId>)
        ensures
            id == if self.has_cell(x as int, y as int) {
                Some(self.id_at(x as int, y as int))
            } else {
                None
            },
    {
        proof {
            use_type_invariant(self);
        }
        if x < self.width && y < self.height {
            Some(self.tiles[y][x])
        } else {
            None
        }
    }

    /// Handles of the neighbours of `(x, y)`: at most eight, none twice,
    /// always in the same order. `(x, y)` itself need not be a cell.
    pub fn neighbors(&self, x: usize, y: usize) -> (ids: Vec<TileId>)
        ensures
            ids@ == self.neighbor_ids(x as int, y as int),
    {
        proof {
            use_type_invariant(self);
        }
        let mut ids: Vec<TileId> = Vec::new();
        let mut k: usize = 0;
        while k < 9
            invariant
                k <= 9,
                self.wf(),
                ids@ == neighbor_cells_upto(
                    self@.width as int,
                    self@.height as int,
                    x as int,
                    y as int,
                    k as nat,
                ).map_values(|cell: (int, int)| self.id_at(cell.0, cell.1)),
            decreases 9 - k,
        {
            if k != 4 {
                match (shifted(x, k % 3, self.width), shifted(y, k / 3, self.height)) {
                    (Some(cx), Some(cy)) => {
                        ids.push(self.tiles[cy][cx]);
                    },
                    _ => {},
                }
            }
            k += 1;
        }
        ids
    }

    /// Display position of the cell `(x, y)`, doubled, or nothing where the
    /// grid has no such cell.
    pub fn position(&self, x: usize, y: usize) -> (p: Option<Position>)
        ensures
            self.has_cell(x as int, y as int) == p.is_some(),
            p matches Some(at) ==> (at.twice_x as int, at.twice_y as int) == self.position_of(
                x as int,
                y as int,
            ),
    {
        if x < self.width && y < self.height {
            Some(
                Position {
                    twice_x: axis_twice(self.width, x, self.tile_size, self.tile_gap),
                    twice_y: axis_twice(self.height, y, self.tile_size, self.tile_gap),
                },
            )
        } else {
            None
        }
    }
}

} // verus!
