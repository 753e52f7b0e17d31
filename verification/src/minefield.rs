//! A round: the board together with the tile records that its handles
//! address. Setup fills the round in (allocation, mine placement, adjacency
//! pass); after that the two interactions change one tile at a time.

use vstd::prelude::*;
use crate::balance::{counts_over_safe_tiles, lemma_counts_balance, safe_neighbors_over_mines};
use crate::board::{
    fresh_view,
    layout_error,
    twice_coordinate,
    Board,
    BoardView,
    Position,
    SetupError,
};
use crate::interaction::{
    after,
    after_flag,
    after_open,
    flag_update,
    open_update,
    update_for,
    Interaction,
    Update,
};
use crate::grid::{
    cell_id,
    in_grid,
    lemma_cell_index_bound,
    lemma_cell_index_injective,
    lemma_neighbor_cells,
    neighbor_cells,
};
use crate::mines::{
    adjacent_count,
    counts_settled,
    lemma_adjacent_count_bound,
    lemma_adjacent_count_by_handles,
    lemma_mine_count_reads_mines,
    lemma_mined_among_reads_mines,
    lemma_with_mines_count,
    lemma_with_mines_step,
    mine_count,
    mined_among,
    mined_handles,
    no_mines,
    same_mines,
    tile_of,
    with_mines,
};
use crate::placement::{draw_cells, drawn, lemma_drawn_count, RandomSource};
use crate::tile::{Appearance, Tile, TileId, TileState};

verus! {

/// A round as contracts see it: the board's numbers and the tile records in
/// the order of their handles.
pub struct MinefieldView {
    pub board: BoardView,
    pub tiles: Seq<Tile>,
}

/// The board of a round and the store of its tiles. The board holds the
/// handles, the store holds the records; a handle is the slot of its record.
pub struct Minefield {
    board: Board,
    tiles: Vec<Tile>,
}

/// What the presentation needs to draw one tile: its handle, where it goes,
/// and how it looks.
#[derive(Clone, Copy, Debug, PartialEq, Eq, Hash, Structural)]
pub struct Placement {
    pub id: TileId,
    pub position: Position,
    pub appearance: Appearance,
}

/// The tiles of a round that has just been allocated.
pub open spec fn pristine_tiles(count: nat) -> Seq<Tile> {
    Seq::new(count, |i: int| Tile::pristine())
}

/// Why mines cannot be placed on a board with `draws` numbers to steer the
/// draws, if anything stands against it: the budget must leave a cell
/// without a mine, and every mine needs its number.
pub open spec fn placement_error(board: BoardView, draws: nat) -> Option<SetupError> {
    if board.max_mines >= board.width * board.height {
        Some(SetupError::TooManyMines)
    } else if draws < board.max_mines {
        Some(SetupError::MissingDraws)
    } else {
        None
    }
}

/// The tiles after mine placement steered by `picks`: a mine on each of the
/// cells that the first `budget` draws take from the pool of all cells.
pub open spec fn mined_by(tiles: Seq<Tile>, picks: Seq<usize>, budget: nat) -> Seq<Tile> {
    with_mines(tiles, drawn(tiles.len(), picks, budget))
}

/// Why a round cannot be set up, if anything stands against it: first the
/// layout is examined, then the placement of the mines.
pub open spec fn setup_error(width: usize, height: usize, max_mines: usize, draws: nat) -> Option<
    SetupError,
> {
    match layout_error(width, height) {
        Some(e) => Some(e),
        None => placement_error(fresh_view(width, height, 0, 0, max_mines), draws),
    }
}

impl View for Minefield {
    type V = MinefieldView;

    closed spec fn view(&self) -> MinefieldView {
        MinefieldView { board: self.board@, tiles: self.tiles@ }
    }
}

impl Minefield {
    /// The round's invariant: the board is well formed and every cell has
    /// its record.
    #[verifier::type_invariant]
    pub closed spec fn wf(&self) -> bool {
        &&& self.board.wf()
        &&& self.tiles@.len() == self.board.cell_count()
    }

    /// Number of columns.
    pub open spec fn columns(&self) -> int {
        self@.board.width as int
    }

    /// Number of rows.
    pub open spec fn rows(&self) -> int {
        self@.board.height as int
    }

    /// Whether `id` addresses a tile of this round.
    pub open spec fn knows(&self, id: TileId) -> bool {
        id.index < self@.tiles.len()
    }

    /// The tile of the cell `(x, y)`.
    pub open spec fn cell(&self, x: int, y: int) -> Tile {
        tile_of(self.columns(), self@.tiles, x, y)
    }

    /// Number of mined tiles.
    pub open spec fn mines(&self) -> nat {
        mine_count(self@.tiles)
    }

    /// The handles of the neighbours of `(x, y)`, row by row.
    pub open spec fn neighbor_ids(&self, x: int, y: int) -> Seq<TileId> {
        neighbor_cells(self.columns(), self.rows(), x, y).map_values(
            |cell: (int, int)| cell_id(self.columns(), cell.0, cell.1),
        )
    }

    /// Whether setup is complete: the budgeted number of tiles are mined and
    /// every tile records the number of its mined neighbours.
    pub open spec fn is_set_up(&self) -> bool {
        &&& self.mines() == self@.board.max_mines
        &&& counts_settled(self.columns(), self.rows(), self@.tiles)
    }

    /// Whether `list` holds, at the place of the cell `(x, y)`, what is to be
    /// drawn for that cell: its handle, its display position and the look of
    /// its tile.
    pub open spec fn presents(&self, list: Seq<Placement>, x: int, y: int) -> bool {
        let entry = list[y * self.columns() + x];
        &&& entry.id == cell_id(self.columns(), x, y)
        &&& entry.position.twice_x == twice_coordinate(
            self.columns(),
            x,
            self@.board.tile_size as int,
            self@.board.tile_gap as int,
        )
        &&& entry.position.twice_y == twice_coordinate(
            self.rows(),
            y,
            self@.board.tile_size as int,
            self@.board.tile_gap as int,
        )
        &&& entry.appearance == self.cell(x, y).appearance_of()
    }

    /// What the invariant says of the round's numbers.
    pub proof fn lemma_shape(self)
        requires
            self.wf(),
        ensures
            self.columns() > 0,
            self.rows() > 0,
            self@.tiles.len() == self.columns() * self.rows(),
            self@.tiles.len() <= usize::MAX,
    {
        self.board.lemma_dimensions();
    }

    /// Once setup is complete, the count that the tile of a cell records is
    /// the number of mined tiles among the handles of its neighbours, and it
    /// is eight at most.
    pub proof fn lemma_recorded_count(self, x: int, y: int)
        requires
            self.wf(),
            self.is_set_up(),
            in_grid(self.columns(), self.rows(), x, y),
        ensures
            self.cell(x, y).adjacent_mines == adjacent_count(
                self.columns(),
                self.rows(),
                self@.tiles,
                x,
                y,
            ),
            self.cell(x, y).adjacent_mines == mined_handles(self@.tiles, self.neighbor_ids(x, y)),
            self.cell(x, y).adjacent_mines <= 8,
    {
        self.lemma_shape();
        lemma_adjacent_count_by_handles(self.columns(), self.rows(), self@.tiles, x, y);
        lemma_adjacent_count_bound(self.columns(), self.rows(), self@.tiles, x, y);
        assert(self.cell(x, y).adjacent_mines == adjacent_count(
            self.columns(),
            self.rows(),
            self@.tiles,
            x,
            y,
        ));
    }

    /// Once setup is complete, the counts recorded on the tiles without a
    /// mine add up to the number of neighbours without a mine that the mines
    /// have.
    pub proof fn lemma_balance(self)
        requires
            self.is_set_up(),
        ensures
            counts_over_safe_tiles(self.columns(), self.rows(), self@.tiles)
                == safe_neighbors_over_mines(self.columns(), self.rows(), self@.tiles),
    {
        lemma_counts_balance(self.columns(), self.rows(), self@.tiles);
    }

    /// Allocates a round: the board with a handle for every cell, and for
    /// every handle a pristine tile. No mine is placed yet.
    pub fn new(width: usize, height: usize, tile_size: u32, tile_gap: u32, max_mines: usize) -> (r:
        Result<Minefield, SetupError>)
        ensures
            match r {
                Ok(field) => {
                    &&& layout_error(width, height) is None
                    &&& field.wf()
                    &&& field@.board == fresh_view(width, height, tile_size, tile_gap, max_mines)
                    &&& field@.tiles == pristine_tiles((width * height) as nat)
                },
                Err(e) => layout_error(width, height) == Some(e),
            },
    {
        let board = match Board::new(width, height, tile_size, tile_gap, max_mines) {
            Ok(board) => board,
            Err(e) => {
                return Err(e);
            },
        };
        let total: usize = board.tile_count();
        let mut tiles: Vec<Tile> = Vec::new();
        let mut i: usize = 0;
        while i < total
            invariant
                i <= total,
                tiles@ == pristine_tiles(i as nat),
            decreases total - i,
        {
            tiles.push(Tile::new());
            i += 1;
        }
        Ok(Minefield { board, tiles })
    }

    /// The board of this round.
    pub fn board(&self) -> (board: &Board)
        ensures
            board@ == self@.board,
            board.wf(),
    {
        proof {
            use_type_invariant(self);
        }
        &self.board
    }

    /// The record that `id` addresses, or nothing for a handle that this
    /// round never gave out.
    pub fn tile(&self, id: TileId) -> (tile: Option<Tile>)
        ensures
            tile == if self.knows(id) {
                Some(self@.tiles[id.index as int])
            } else {
                None
            },
    {
        if id.index < self.tiles.len() {
            Some(self.tiles[id.index])
        } else {
            None
        }
    }

    /// The record of the cell `(x, y)`, or nothing where the grid has no such
    /// cell.
    pub fn tile_at(&self, x: usize, y: usize) -> (tile: Option<Tile>)
        ensures
            tile == if in_grid(self.columns(), self.rows(), x as int, y as int) {
                Some(self.cell(x as int, y as int))
            } else {
                None
            },
    {
        proof {
            use_type_invariant(self);
            self.board.lemma_dimensions();
            if in_grid(self.columns(), self.rows(), x as int, y as int) {
                lemma_cell_index_bound(self.columns(), self.rows(), x as int, y as int);
            }
        }
        match self.board.get(x, y) {
            Some(id) => Some(self.tiles[id.index]),
            None => None,
        }
    }

    /// Handles of the neighbours of `(x, y)`, as the board gives them.
    pub fn neighbors(&self, x: usize, y: usize) -> (ids: Vec<TileId>)
        ensures
            ids@ == self.neighbor_ids(x as int, y as int),
    {
        let ids = self.board.neighbors(x, y);
        proof {
            assert(ids@ =~= self.neighbor_ids(x as int, y as int));
        }
        ids
    }

    /// Counts the mined tiles.
    pub fn mine_count(&self) -> (count: usize)
        ensures
            count == self.mines(),
    {
        let mut count: usize = 0;
        let mut i: usize = 0;
        while i < self.tiles.len()
            invariant
                i <= self.tiles.len(),
                count <= i,
                count == mine_count(self.tiles@.take(i as int)),
            decreases self.tiles.len() - i,
        {
            if self.tiles[i].is_mined {
                count += 1;
            }
            i += 1;
            proof {
                assert(self.tiles@.take(i as int).drop_last() == self.tiles@.take(i - 1));
            }
        }
        proof {
            assert(self.tiles@.take(self.tiles.len() as int) == self.tiles@);
        }
        count
    }

    /// Counts the mined cells among the neighbours of `(x, y)`, as the mines
    /// lie now.
    pub fn mined_neighbors(&self, x: usize, y: usize) -> (count: u8)
        ensures
            count == adjacent_count(self.columns(), self.rows(), self@.tiles, x as int, y as int),
            count <= 8,
    {
        proof {
            use_type_invariant(self);
            self.board.lemma_dimensions();
            lemma_neighbor_cells(self.columns(), self.rows(), x as int, y as int);
        }
        let ids = self.board.neighbors(x, y);
        let ghost cells = neighbor_cells(self.columns(), self.rows(), x as int, y as int);
        let mut count: u8 = 0;
        let mut j: usize = 0;
        while j < ids.len()
            invariant
                j <= ids.len(),
                ids@.len() == cells.len(),
                cells.len() <= 8,
                self.columns() > 0,
                self.tiles@.len() == self.columns() * self.rows(),
                self.tiles@.len() <= usize::MAX,
                forall|k: int|
                    0 <= k < cells.len() ==> in_grid(
                        self.columns(),
                        self.rows(),
                        (#[trigger] cells[k]).0,
                        cells[k].1,
                    ),
                forall|k: int|
                    0 <= k < cells.len() ==> (#[trigger] ids@[k]) == cell_id(
                        self.columns(),
                        cells[k].0,
                        cells[k].1,
                    ),
                count <= j,
                count == mined_among(self.columns(), self.rows(), self.tiles@, cells.take(j as int)),
            decreases ids.len() - j,
        {
            proof {
                lemma_cell_index_bound(self.columns(), self.rows(), cells[j as int].0, cells[j as int].1);
                assert(cells.take(j + 1).drop_last() == cells.take(j as int));
            }
            if self.tiles[ids[j].index].is_mined {
                count += 1;
            }
            j += 1;
        }
        proof {
            assert(cells.take(cells.len() as int) == cells);
        }
        count
    }

    /// Mine placement with the draws written down: `picks[i]` steers the
    /// `i`-th draw from the pool of all cells, and each cell drawn gets a
    /// mine; nothing else changes. On a round without mines that makes
    /// exactly the budgeted number of mines.
    pub fn place_mines_from(&mut self, picks: &Vec<usize>) -> (r: Result<(), SetupError>)
        ensures
            final(self)@.board == old(self)@.board,
            match r {
                Ok(_) => {
                    &&& placement_error(old(self)@.board, picks@.len()) is None
                    &&& final(self)@.tiles == mined_by(
                        old(self)@.tiles,
                        picks@,
                        old(self)@.board.max_mines,
                    )
                },
                Err(e) => {
                    &&& placement_error(old(self)@.board, picks@.len()) == Some(e)
                    &&& final(self)@ == old(self)@
                },
            },
            r is Ok && no_mines(old(self)@.tiles) ==> final(self).mines() == old(self)@.board.max_mines,
    {
        proof {
            use_type_invariant(&*self);
            self.board.lemma_dimensions();
        }
        let total: usize = self.board.tile_count();
        let budget: usize = self.board.max_mines();
        if budget >= total {
            return Err(SetupError::TooManyMines);
        }
        if picks.len() < budget {
            return Err(SetupError::MissingDraws);
        }
        let chosen = draw_cells(total, budget, picks);
        let ghost before = self.tiles@;
        proof {
            lemma_drawn_count(total as nat, picks@, budget as nat);
        }
        let mut i: usize = 0;
        while i < chosen.len()
            invariant
                i <= chosen.len(),
                self.wf(),
                self@.board == old(self)@.board,
                before.len() == total,
                forall|k: int| 0 <= k < chosen@.len() ==> (#[trigger] chosen@[k]) < total,
                self.tiles@ == with_mines(before, chosen@.take(i as int)),
            decreases chosen.len() - i,
        {
            let cell: usize = chosen[i];
            proof {
                lemma_with_mines_step(before, chosen@.take(i as int), cell);
                assert(chosen@.take(i + 1) == chosen@.take(i as int).push(cell));
            }
            self.tiles[cell] = Tile { is_mined: true, ..self.tiles[cell] };
            i += 1;
        }
        proof {
            assert(chosen@.take(chosen@.len() as int) == chosen@);
            if no_mines(before) {
                lemma_with_mines_count(before, chosen@);
            }
        }
        Ok(())
    }

    /// Mine placement: for each mine of the budget asks `rng` for an index
    /// into the pool of cells that are still in it, takes that cell out of
    /// the pool and puts a mine on its tile. On a round without mines the
    /// number of mines comes out as the budget whatever `rng` answers.
    pub fn place_mines<R: RandomSource>(&mut self, rng: &mut R) -> (r: Result<(), SetupError>)
        ensures
            final(self)@.board == old(self)@.board,
            match r {
                Ok(_) => {
                    &&& placement_error(old(self)@.board, old(self)@.board.max_mines) is None
                    &&& exists|picks: Seq<usize>|
                        picks.len() == old(self)@.board.max_mines && final(self)@.tiles == #[trigger] mined_by(
                            old(self)@.tiles,
                            picks,
                            old(self)@.board.max_mines,
                        )
                },
                Err(e) => {
                    &&& placement_error(old(self)@.board, old(self)@.board.max_mines) == Some(e)
                    &&& final(self)@ == old(self)@
                },
            },
            r is Ok && no_mines(old(self)@.tiles) ==> final(self).mines() == old(self)@.board.max_mines,
    {
        proof {
            use_type_invariant(&*self);
            self.board.lemma_dimensions();
        }
        let total: usize = self.board.tile_count();
        let budget: usize = self.board.max_mines();
        if budget >= total {
            return Err(SetupError::TooManyMines);
        }
        let mut picks: Vec<usize> = Vec::new();
        let mut i: usize = 0;
        while i < budget
            invariant
                i <= budget,
                budget < total,
                picks@.len() == i,
            decreases budget - i,
        {
            let pick: usize = rng.below(total - i);
            picks.push(pick);
            i += 1;
        }
        self.place_mines_from(&picks)
    }

    /// Adjacency pass: writes into the tile of every cell the number of
    /// mined cells among its neighbours. Mines and interaction states stay
    /// as they are, so running the pass again changes nothing.
    pub fn compute_adjacency(&mut self)
        ensures
            final(self)@.board == old(self)@.board,
            final(self)@.tiles.len() == old(self)@.tiles.len(),
            forall|i: int|
                0 <= i < old(self)@.tiles.len() ==> (#[trigger] final(self)@.tiles[i]).state == old(
                    self,
                )@.tiles[i].state && final(self)@.tiles[i].is_mined == old(self)@.tiles[i].is_mined,
            forall|x: int, y: int|
                in_grid(old(self).columns(), old(self).rows(), x, y) ==> final(self).cell(
                    x,
                    y,
                ).adjacent_mines == #[trigger] adjacent_count(
                    old(self).columns(),
                    old(self).rows(),
                    old(self)@.tiles,
                    x,
                    y,
                ),
            counts_settled(final(self).columns(), final(self).rows(), final(self)@.tiles),
    {
        proof {
            use_type_invariant(&*self);
            self.board.lemma_dimensions();
        }
        let width: usize = self.board.width();
        let height: usize = self.board.height();
        let ghost before = self.tiles@;
        let mut y: usize = 0;
        while y < height
            invariant
                y <= height,
                self.wf(),
                self@.board == old(self)@.board,
                width == self.columns(),
                height == self.rows(),
                width > 0,
                before.len() == width * height,
                before.len() <= usize::MAX,
                self.tiles@.len() == before.len(),
                forall|i: int|
                    0 <= i < before.len() ==> (#[trigger] self.tiles@[i]).state == before[i].state
                        && self.tiles@[i].is_mined == before[i].is_mined,
                forall|cx: int, cy: int|
                    0 <= cx < width && 0 <= cy < y ==> tile_of(
                        width as int,
                        self.tiles@,
                        cx,
                        cy,
                    ).adjacent_mines == #[trigger] adjacent_count(
                        width as int,
                        height as int,
                        before,
                        cx,
                        cy,
                    ),
            decreases height - y,
        {
            let mut x: usize = 0;
            while x < width
                invariant
                    x <= width,
                    y < height,
                    self.wf(),
                    self@.board == old(self)@.board,
                    width == self.columns(),
                    height == self.rows(),
                    width > 0,
                    before.len() == width * height,
                    before.len() <= usize::MAX,
                    self.tiles@.len() == before.len(),
                    forall|i: int|
                        0 <= i < before.len() ==> (#[trigger] self.tiles@[i]).state
                            == before[i].state && self.tiles@[i].is_mined == before[i].is_mined,
                    forall|cx: int, cy: int|
                        0 <= cx < width && (0 <= cy < y || (cy == y && cx < x)) ==> tile_of(
                            width as int,
                            self.tiles@,
                            cx,
                            cy,
                        ).adjacent_mines == #[trigger] adjacent_count(
                            width as int,
                            height as int,
                            before,
                            cx,
                            cy,
                        ),
                decreases width - x,
            {
                let count: u8 = self.mined_neighbors(x, y);
                let ghost earlier = self.tiles@;
                proof {
                    lemma_cell_index_bound(width as int, height as int, x as int, y as int);
                    assert(same_mines(earlier, before));
                    lemma_mined_among_reads_mines(
                        width as int,
                        height as int,
                        earlier,
                        before,
                        neighbor_cells(width as int, height as int, x as int, y as int),
                    );
                }
                match self.board.get(x, y) {
                    Some(id) => {
                        self.tiles[id.index] = Tile { adjacent_mines: count, ..self.tiles[id.index] };
                    },
                    None => {},
                }
                proof {
                    assert forall|cx: int, cy: int|
                        0 <= cx < width && (0 <= cy < y || (cy == y && cx < x + 1)) implies tile_of(
                        width as int,
                        self.tiles@,
                        cx,
                        cy,
                    ).adjacent_mines == #[trigger] adjacent_count(
                        width as int,
                        height as int,
                        before,
                        cx,
                        cy,
                    ) by {
                        lemma_cell_index_bound(width as int, height as int, cx, cy);
                        if cy * width + cx == y * width + x {
                            lemma_cell_index_injective(width as int, cx, cy, x as int, y as int);
                        } else {
                            assert(tile_of(width as int, self.tiles@, cx, cy) == tile_of(
                                width as int,
                                earlier,
                                cx,
                                cy,
                            ));
                        }
                    }
                }
                x += 1;
            }
            y += 1;
        }
        proof {
            assert(same_mines(before, self.tiles@));
            assert forall|x: int, y: int|
                in_grid(width as int, height as int, x, y) implies tile_of(
                width as int,
                self.tiles@,
                x,
                y,
            ).adjacent_mines == #[trigger] adjacent_count(
                width as int,
                height as int,
                self.tiles@,
                x,
                y,
            ) by {
                assert(tile_of(width as int, self.tiles@, x, y).adjacent_mines == adjacent_count(
                    width as int,
                    height as int,
                    before,
                    x,
                    y,
                ));
                lemma_mined_among_reads_mines(
                    width as int,
                    height as int,
                    before,
                    self.tiles@,
                    neighbor_cells(width as int, height as int, x, y),
                );
            }
        }
    }

    /// Sets a round up with the draws written down: allocation, mine
    /// placement steered by `picks`, adjacency pass. Every tile comes out
    /// unopened.
    pub fn setup_from(
        width: usize,
        height: usize,
        tile_size: u32,
        tile_gap: u32,
        max_mines: usize,
        picks: &Vec<usize>,
    ) -> (r: Result<Minefield, SetupError>)
        ensures
            match r {
                Ok(field) => {
                    &&& setup_error(width, height, max_mines, picks@.len()) is None
                    &&& field.wf()
                    &&& field@.board == fresh_view(width, height, tile_size, tile_gap, max_mines)
                    &&& field@.tiles.len() == width * height
                    &&& forall|i: int|
                        0 <= i < field@.tiles.len() ==> (#[trigger] field@.tiles[i]).state
                            == TileState::Unopened && field@.tiles[i].is_mined == mined_by(
                            pristine_tiles((width * height) as nat),
                            picks@,
                            max_mines as nat,
                        )[i].is_mined
                    &&& field.is_set_up()
                },
                Err(e) => setup_error(width, height, max_mines, picks@.len()) == Some(e),
            },
    {
        let mut field = match Minefield::new(width, height, tile_size, tile_gap, max_mines) {
            Ok(field) => field,
            Err(e) => {
                return Err(e);
            },
        };
        match field.place_mines_from(picks) {
            Ok(_) => {},
            Err(e) => {
                return Err(e);
            },
        }
        let ghost mined = field@.tiles;
        field.compute_adjacency();
        proof {
            use_type_invariant(&field);
            assert(same_mines(mined, field@.tiles));
            lemma_mine_count_reads_mines(mined, field@.tiles);
        }
        Ok(field)
    }

    /// Sets a round up: allocation, mine placement with the draws taken from
    /// `rng`, adjacency pass. Every tile comes out unopened, and the number
    /// of mines is the budget whatever `rng` answers.
    pub fn setup<R: RandomSource>(
        width: usize,
        height: usize,
        tile_size: u32,
        tile_gap: u32,
        max_mines: usize,
        rng: &mut R,
    ) -> (r: Result<Minefield, SetupError>)
        ensures
            match r {
                Ok(field) => {
                    &&& setup_error(width, height, max_mines, max_mines as nat) is None
                    &&& field.wf()
                    &&& field@.board == fresh_view(width, height, tile_size, tile_gap, max_mines)
                    &&& field@.tiles.len() == width * height
                    &&& forall|i: int|
                        0 <= i < field@.tiles.len() ==> (#[trigger] field@.tiles[i]).state
                            == TileState::Unopened
                    &&& field.is_set_up()
                },
                Err(e) => setup_error(width, height, max_mines, max_mines as nat) == Some(e),
            },
    {
        let mut field = match Minefield::new(width, height, tile_size, tile_gap, max_mines) {
            Ok(field) => field,
            Err(e) => {
                return Err(e);
            },
        };
        match field.place_mines(rng) {
            Ok(_) => {},
            Err(e) => {
                return Err(e);
            },
        }
        let ghost mined = field@.tiles;
        field.compute_adjacency();
        proof {
            use_type_invariant(&field);
            assert(same_mines(mined, field@.tiles));
            lemma_mine_count_reads_mines(mined, field@.tiles);
        }
        Ok(field)
    }

    /// Primary interaction on the tile that `id` addresses: opens it unless
    /// it is open already. A handle that addresses no tile is ignored. No
    /// other tile is touched.
    pub fn open(&mut self, id: TileId) -> (update: Update)
        ensures
            final(self)@.board == old(self)@.board,
            final(self)@.tiles == after_open(old(self)@.tiles, id),
            update == open_update(old(self)@.tiles, id),
    {
        if id.index >= self.tiles.len() {
            return Update::Ignored;
        }
        proof {
            use_type_invariant(&*self);
        }
        let mut tile: Tile = self.tiles[id.index];
        if !tile.open() {
            return Update::Ignored;
        }
        self.tiles[id.index] = tile;
        Update::Opened { id, appearance: tile.appearance(), label: tile.label() }
    }

    /// Secondary interaction on the tile that `id` addresses: sets or clears
    /// its flag unless it is open. A handle that addresses no tile is
    /// ignored. No other tile is touched.
    pub fn flag(&mut self, id: TileId) -> (update: Update)
        ensures
            final(self)@.board == old(self)@.board,
            final(self)@.tiles == after_flag(old(self)@.tiles, id),
            update == flag_update(old(self)@.tiles, id),
    {
        if id.index >= self.tiles.len() {
            return Update::Ignored;
        }
        proof {
            use_type_invariant(&*self);
        }
        let mut tile: Tile = self.tiles[id.index];
        if !tile.toggle_flag() {
            return Update::Ignored;
        }
        self.tiles[id.index] = tile;
        Update::Flagged { id, appearance: tile.appearance() }
    }

    /// Handles one input event: the target's handle and the kind of the
    /// interaction.
    pub fn interact(&mut self, id: TileId, kind: Interaction) -> (update: Update)
        ensures
            final(self)@.board == old(self)@.board,
            final(self)@.tiles == after(old(self)@.tiles, id, kind),
            update == update_for(old(self)@.tiles, id, kind),
    {
        match kind {
            Interaction::Primary => self.open(id),
            Interaction::Secondary => self.flag(id),
        }
    }

    /// Lists what is to be drawn, one entry for each tile, row by row. After
    /// setup every entry has the neutral look.
    pub fn placements(&self) -> (list: Vec<Placement>)
        ensures
            list@.len() == self@.tiles.len(),
            forall|x: int, y: int|
                in_grid(self.columns(), self.rows(), x, y) ==> #[trigger] self.presents(list@, x, y),
    {
        proof {
            use_type_invariant(self);
            self.board.lemma_dimensions();
        }
        let width: usize = self.board.width();
        let height: usize = self.board.height();
        let mut list: Vec<Placement> = Vec::new();
        let mut y: usize = 0;
        while y < height
            invariant
                y <= height,
                self.wf(),
                width == self.columns(),
                height == self.rows(),
                width > 0,
                self.tiles@.len() == width * height,
                self.tiles@.len() <= usize::MAX,
                list@.len() == y * width,
                forall|cx: int, cy: int|
                    0 <= cx < width && 0 <= cy < y ==> #[trigger] self.presents(list@, cx, cy),
            decreases height - y,
        {
            let mut x: usize = 0;
            while x < width
                invariant
                    x <= width,
                    y < height,
                    self.wf(),
                    width == self.columns(),
                    height == self.rows(),
                    width > 0,
                    self.tiles@.len() == width * height,
                    self.tiles@.len() <= usize::MAX,
                    list@.len() == y * width + x,
                    forall|cx: int, cy: int|
                        0 <= cx < width && (0 <= cy < y || (cy == y && cx < x))
                            ==> #[trigger] self.presents(list@, cx, cy),
                decreases width - x,
            {
                let ghost earlier = list@;
                proof {
                    lemma_cell_index_bound(width as int, height as int, x as int, y as int);
                }
                match (self.board.get(x, y), self.board.position(x, y)) {
                    (Some(id), Some(position)) => {
                        let appearance = self.tiles[id.index].appearance();
                        list.push(Placement { id, position, appearance });
                    },
                    _ => {},
                }
                proof {
                    assert forall|cx: int, cy: int|
                        0 <= cx < width && (0 <= cy < y || (cy == y && cx < x + 1))
                            implies #[trigger] self.presents(list@, cx, cy) by {
                        if cy == y && cx == x {
                        } else {
                            assert(cy * width + cx < y * width + x) by (nonlinear_arith)
                                requires
                                    0 <= cx < width,
                                    0 <= cy < y || (cy == y && cx < x),
                            ;
                            assert(self.presents(earlier, cx, cy));
                        }
                    }
                }
                x += 1;
            }
            proof {
                assert((y + 1) * width == y * width + width) by (nonlinear_arith);
            }
            y += 1;
        }
        proof {
            assert(height * width == width * height) by (nonlinear_arith);
        }
        list
    }
}

} // verus!
