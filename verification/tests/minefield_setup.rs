use minesweeper::{
    Appearance, Minefield, Placement, Position, RandomSource, SetupError, Tile, TileId, TileState,
    Update,
};

/// A small generator with a seed, for rounds that can be played again.
struct Seeded {
    state: u64,
}

impl RandomSource for Seeded {
    fn below(&mut self, bound: usize) -> usize {
        self.state = self.state.wrapping_mul(6364136223846793005).wrapping_add(1442695040888963407);
        ((self.state >> 33) as usize) % bound
    }
}

/// Answers with whatever it was told to, in range or not.
struct Stubborn {
    answer: usize,
}

impl RandomSource for Stubborn {
    fn below(&mut self, _bound: usize) -> usize {
        self.answer
    }
}

/// Writes down what it is asked and always answers zero.
struct Recorder {
    bounds: Vec<usize>,
}

impl RandomSource for Recorder {
    fn below(&mut self, bound: usize) -> usize {
        self.bounds.push(bound);
        0
    }
}

fn round(width: usize, height: usize, max_mines: usize, seed: u64) -> Minefield {
    let mut rng = Seeded { state: seed };
    match Minefield::setup(width, height, 10, 1, max_mines, &mut rng) {
        Ok(field) => field,
        Err(e) => panic!("no round: {:?}", e),
    }
}

fn tile_at(field: &Minefield, x: usize, y: usize) -> Tile {
    match field.tile_at(x, y) {
        Some(tile) => tile,
        None => panic!("no tile at {}, {}", x, y),
    }
}

fn mined(field: &Minefield, x: i64, y: i64) -> bool {
    if x < 0 || y < 0 {
        return false;
    }
    match field.tile_at(x as usize, y as usize) {
        Some(tile) => tile.is_mined,
        None => false,
    }
}

fn mined_around(field: &Minefield, x: usize, y: usize) -> u8 {
    let mut count = 0;
    for dy in -1..=1i64 {
        for dx in -1..=1i64 {
            if (dx, dy) != (0, 0) && mined(field, x as i64 + dx, y as i64 + dy) {
                count += 1;
            }
        }
    }
    count
}

#[test]
fn allocation_gives_pristine_tiles() {
    let field = match Minefield::new(4, 3, 10, 1, 5) {
        Ok(field) => field,
        Err(e) => panic!("no round: {:?}", e),
    };
    assert_eq!(field.board().width(), 4);
    assert_eq!(field.board().height(), 3);
    assert_eq!(field.board().max_mines(), 5);
    assert_eq!(field.board().remaining_mines(), 5);
    assert_eq!(field.mine_count(), 0);
    for index in 0..12 {
        assert_eq!(field.tile(TileId { index }), Some(Tile::new()));
    }
    assert_eq!(field.tile(TileId { index: 12 }), None);
}

#[test]
fn allocation_refuses_what_the_board_refuses() {
    assert_eq!(Minefield::new(0, 3, 10, 1, 0).err(), Some(SetupError::EmptyGrid));
    assert_eq!(Minefield::new(3, 0, 10, 1, 0).err(), Some(SetupError::EmptyGrid));
    assert_eq!(Minefield::new(usize::MAX, 3, 10, 1, 0).err(), Some(SetupError::TooLarge));
}

#[test]
fn placement_follows_the_written_draws() {
    // 3 x 3, two mines: 4 takes the cell in the middle, then 4 % 8 takes the
    // fifth of the cells that are left, the one to its right.
    let field = match Minefield::setup_from(3, 3, 10, 1, 2, &vec![4, 4]) {
        Ok(field) => field,
        Err(e) => panic!("no round: {:?}", e),
    };
    let mines = [false, false, false, false, true, true, false, false, false];
    let counts = [1, 2, 2, 1, 1, 1, 1, 2, 2];
    for index in 0..9 {
        assert_eq!(
            field.tile(TileId { index }),
            Some(Tile {
                state: TileState::Unopened,
                is_mined: mines[index],
                adjacent_mines: counts[index],
            })
        );
    }
    assert_eq!(field.mine_count(), 2);
}

#[test]
fn placement_in_phases_matches_setup() {
    let picks = vec![11, 3, 8, 0, 5];
    let mut field = match Minefield::new(4, 4, 10, 1, 5) {
        Ok(field) => field,
        Err(e) => panic!("no round: {:?}", e),
    };
    assert_eq!(field.place_mines_from(&picks), Ok(()));
    assert_eq!(field.mine_count(), 5);
    // pool 0..16: 11; then 3; then 8 % 14 = 8 -> cell 9; then 0; then 5 % 12
    // of 1 2 4 5 6 7 ... -> cell 7
    for index in 0..16 {
        let expected = [11, 3, 9, 0, 7].contains(&index);
        assert_eq!(field.tile(TileId { index }).map(|t| t.is_mined), Some(expected));
        assert_eq!(field.tile(TileId { index }).map(|t| t.adjacent_mines), Some(0));
    }
    field.compute_adjacency();
    let whole = match Minefield::setup_from(4, 4, 10, 1, 5, &picks) {
        Ok(field) => field,
        Err(e) => panic!("no round: {:?}", e),
    };
    for index in 0..16 {
        assert_eq!(field.tile(TileId { index }), whole.tile(TileId { index }));
    }
}

#[test]
fn placement_does_not_touch_the_flag_counter() {
    let field = round(8, 8, 9, 1);
    assert_eq!(field.board().remaining_mines(), 9);
    assert_eq!(field.board().max_mines(), 9);
}

#[test]
fn mine_count_is_the_budget_for_every_seed() {
    for (width, height) in [(1, 1), (1, 5), (2, 2), (3, 3), (5, 4), (8, 8)] {
        for max_mines in 0..width * height {
            for seed in 0..4u64 {
                let field = round(width, height, max_mines, seed * 977 + 13);
                assert_eq!(field.mine_count(), max_mines);
                let mut counted = 0;
                for y in 0..height {
                    for x in 0..width {
                        if tile_at(&field, x, y).is_mined {
                            counted += 1;
                        }
                    }
                }
                assert_eq!(counted, max_mines);
            }
        }
    }
}

#[test]
fn mine_count_is_the_budget_whatever_the_source_answers() {
    for answer in [0, 1, 7, 63, 64, 1000, usize::MAX] {
        let mut rng = Stubborn { answer };
        let field = match Minefield::setup(8, 8, 10, 1, 9, &mut rng) {
            Ok(field) => field,
            Err(e) => panic!("no round: {:?}", e),
        };
        assert_eq!(field.mine_count(), 9);
    }
}

#[test]
fn source_is_asked_for_an_index_into_the_shrinking_pool() {
    let mut rng = Recorder { bounds: Vec::new() };
    let field = match Minefield::setup(4, 3, 10, 1, 5, &mut rng) {
        Ok(field) => field,
        Err(e) => panic!("no round: {:?}", e),
    };
    assert_eq!(rng.bounds, vec![12, 11, 10, 9, 8]);
    // always the first of the pool: the first five cells
    for index in 0..12 {
        assert_eq!(field.tile(TileId { index }).map(|t| t.is_mined), Some(index < 5));
    }
}

#[test]
fn same_seed_same_round() {
    let a = round(8, 8, 9, 42);
    let b = round(8, 8, 9, 42);
    for index in 0..64 {
        assert_eq!(a.tile(TileId { index }), b.tile(TileId { index }));
    }
}

#[test]
fn too_many_mines_are_refused() {
    let mut rng = Seeded { state: 1 };
    assert_eq!(Minefield::setup(3, 3, 10, 1, 9, &mut rng).err(), Some(SetupError::TooManyMines));
    assert_eq!(Minefield::setup(3, 3, 10, 1, 10, &mut rng).err(), Some(SetupError::TooManyMines));
    assert_eq!(Minefield::setup(1, 1, 10, 1, 1, &mut rng).err(), Some(SetupError::TooManyMines));
    assert!(Minefield::setup(3, 3, 10, 1, 8, &mut rng).is_ok());
    assert_eq!(
        Minefield::setup_from(3, 3, 10, 1, 9, &vec![0; 9]).err(),
        Some(SetupError::TooManyMines)
    );
}

#[test]
fn refused_placement_leaves_the_round_alone() {
    let mut field = match Minefield::new(2, 2, 10, 1, 4) {
        Ok(field) => field,
        Err(e) => panic!("no round: {:?}", e),
    };
    let mut rng = Seeded { state: 1 };
    assert_eq!(field.place_mines(&mut rng), Err(SetupError::TooManyMines));
    assert_eq!(field.place_mines_from(&vec![0, 0, 0, 0]), Err(SetupError::TooManyMines));
    assert_eq!(field.mine_count(), 0);
    for index in 0..4 {
        assert_eq!(field.tile(TileId { index }), Some(Tile::new()));
    }
}

#[test]
fn missing_draws_are_refused() {
    assert_eq!(
        Minefield::setup_from(3, 3, 10, 1, 3, &vec![1, 2]).err(),
        Some(SetupError::MissingDraws)
    );
    let mut field = match Minefield::new(3, 3, 10, 1, 3) {
        Ok(field) => field,
        Err(e) => panic!("no round: {:?}", e),
    };
    assert_eq!(field.place_mines_from(&vec![]), Err(SetupError::MissingDraws));
    assert_eq!(field.mine_count(), 0);
}

#[test]
fn layout_is_examined_before_the_budget() {
    assert_eq!(Minefield::setup_from(0, 0, 10, 1, 5, &vec![]).err(), Some(SetupError::EmptyGrid));
    assert_eq!(
        Minefield::setup_from(usize::MAX, 2, 10, 1, 5, &vec![]).err(),
        Some(SetupError::TooLarge)
    );
    assert_eq!(
        Minefield::setup_from(2, 2, 10, 1, 4, &vec![]).err(),
        Some(SetupError::TooManyMines)
    );
}

#[test]
fn surplus_draws_are_not_read() {
    let a = match Minefield::setup_from(3, 3, 10, 1, 2, &vec![4, 4]) {
        Ok(field) => field,
        Err(e) => panic!("no round: {:?}", e),
    };
    let b = match Minefield::setup_from(3, 3, 10, 1, 2, &vec![4, 4, 0, 1, 2]) {
        Ok(field) => field,
        Err(e) => panic!("no round: {:?}", e),
    };
    for index in 0..9 {
        assert_eq!(a.tile(TileId { index }), b.tile(TileId { index }));
    }
}

#[test]
fn adjacency_matches_a_count_by_hand() {
    for size in 3..=8usize {
        for seed in 0..6u64 {
            let max_mines = (size * size) / 3 + seed as usize;
            let field = round(size, size, max_mines, seed + 100 * size as u64);
            for y in 0..size {
                for x in 0..size {
                    let expected = mined_around(&field, x, y);
                    assert_eq!(tile_at(&field, x, y).adjacent_mines, expected);
                    assert_eq!(field.mined_neighbors(x, y), expected);
                    let mut through_handles = 0;
                    for id in field.board().neighbors(x, y) {
                        if field.tile(id).map(|t| t.is_mined) == Some(true) {
                            through_handles += 1;
                        }
                    }
                    assert_eq!(through_handles, expected);
                }
            }
        }
    }
}

#[test]
fn adjacency_on_grids_that_are_not_square() {
    for (width, height) in [(1, 6), (6, 1), (2, 7), (7, 3)] {
        let field = round(width, height, width * height / 2, 5);
        for y in 0..height {
            for x in 0..width {
                assert_eq!(tile_at(&field, x, y).adjacent_mines, mined_around(&field, x, y));
            }
        }
    }
}

#[test]
fn adjacency_pass_twice_changes_nothing() {
    let mut field = round(6, 5, 11, 3);
    let before: Vec<Option<Tile>> = (0..30).map(|index| field.tile(TileId { index })).collect();
    field.compute_adjacency();
    let after: Vec<Option<Tile>> = (0..30).map(|index| field.tile(TileId { index })).collect();
    assert_eq!(before, after);
}

#[test]
fn full_ring_of_mines_counts_eight() {
    // 3 x 3 with every cell mined but the middle: take the first cell of the
    // pool four times, then skip the middle.
    let field = match Minefield::setup_from(3, 3, 10, 1, 8, &vec![0, 0, 0, 0, 1, 1, 1, 1]) {
        Ok(field) => field,
        Err(e) => panic!("no round: {:?}", e),
    };
    let middle = tile_at(&field, 1, 1);
    assert!(!middle.is_mined);
    assert_eq!(middle.adjacent_mines, 8);
    assert_eq!(field.mine_count(), 8);
}

#[test]
fn counts_over_safe_tiles_equal_safe_neighbors_over_mines() {
    for seed in 0..40u64 {
        let field = round(8, 8, 9, seed);
        let mut over_safe_tiles: u32 = 0;
        let mut over_mines: u32 = 0;
        for y in 0..8usize {
            for x in 0..8usize {
                let tile = tile_at(&field, x, y);
                if tile.is_mined {
                    let around = field.board().neighbors(x, y).len() as u32;
                    over_mines += around - mined_around(&field, x, y) as u32;
                } else {
                    over_safe_tiles += tile.adjacent_mines as u32;
                }
            }
        }
        assert_eq!(over_safe_tiles, over_mines);
    }
}

#[test]
fn single_cell_round() {
    let mut rng = Seeded { state: 9 };
    let mut field = match Minefield::setup(1, 1, 10, 1, 0, &mut rng) {
        Ok(field) => field,
        Err(e) => panic!("no round: {:?}", e),
    };
    assert_eq!(field.board().neighbors(0, 0), vec![]);
    assert_eq!(tile_at(&field, 0, 0), Tile::new());
    assert_eq!(field.mine_count(), 0);
    let id = match field.board().get(0, 0) {
        Some(id) => id,
        None => panic!("no handle"),
    };
    let update = field.open(id);
    assert_eq!(
        update,
        Update::Opened { id, appearance: Appearance::Revealed, label: None }
    );
    assert_eq!(
        tile_at(&field, 0, 0),
        Tile { state: TileState::Opened, is_mined: false, adjacent_mines: 0 }
    );
}

#[test]
fn tile_at_outside_the_grid() {
    let field = round(3, 2, 1, 0);
    assert_eq!(field.tile_at(3, 0), None);
    assert_eq!(field.tile_at(0, 2), None);
    assert_eq!(field.mined_neighbors(9, 9), 0);
}

#[test]
fn placements_list_every_tile_row_by_row() {
    let mut field = match Minefield::setup_from(3, 2, 10, 1, 1, &vec![0]) {
        Ok(field) => field,
        Err(e) => panic!("no round: {:?}", e),
    };
    // columns: span 32, rows: span 21; a step is 11
    let at = |x: i128, y: i128| Position { twice_x: 22 * x - 32, twice_y: 22 * y - 21 };
    let mut expected = Vec::new();
    for index in 0..6usize {
        expected.push(Placement {
            id: TileId { index },
            position: at((index % 3) as i128, (index / 3) as i128),
            appearance: Appearance::Neutral,
        });
    }
    assert_eq!(field.placements(), expected);
    field.flag(TileId { index: 4 });
    field.open(TileId { index: 0 });
    field.open(TileId { index: 2 });
    expected[4].appearance = Appearance::Flagged;
    expected[0].appearance = Appearance::Detonated;
    expected[2].appearance = Appearance::Revealed;
    assert_eq!(field.placements(), expected);
}

#[test]
fn placements_agree_with_the_board() {
    let field = round(5, 4, 6, 17);
    let list = field.placements();
    assert_eq!(list.len(), 20);
    for y in 0..4usize {
        for x in 0..5usize {
            let entry = list[y * 5 + x];
            assert_eq!(Some(entry.id), field.board().get(x, y));
            assert_eq!(Some(entry.position), field.board().position(x, y));
            assert_eq!(Some(entry.appearance), field.tile(entry.id).map(|t| t.appearance()));
        }
    }
}

#[test]
fn round_gives_the_neighbors_of_its_board() {
    let field = round(4, 3, 2, 8);
    for y in 0..4usize {
        for x in 0..5usize {
            assert_eq!(field.neighbors(x, y), field.board().neighbors(x, y));
        }
    }
    assert_eq!(
        field.neighbors(0, 0),
        vec![TileId { index: 1 }, TileId { index: 4 }, TileId { index: 5 }]
    );
}
