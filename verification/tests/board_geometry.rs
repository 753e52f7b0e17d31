use minesweeper::{Board, Position, SetupError, TileId};

fn board(width: usize, height: usize) -> Board {
    match Board::new(width, height, 10, 1, 0) {
        Ok(b) => b,
        Err(e) => panic!("no board: {:?}", e),
    }
}

fn around(width: usize, height: usize, x: usize, y: usize) -> Vec<TileId> {
    let mut ids = Vec::new();
    for cy in 0..height {
        for cx in 0..width {
            let dx = cx as i64 - x as i64;
            let dy = cy as i64 - y as i64;
            if dx.abs() <= 1 && dy.abs() <= 1 && (dx, dy) != (0, 0) {
                ids.push(TileId { index: cy * width + cx });
            }
        }
    }
    ids
}

#[test]
fn new_board_keeps_its_numbers() {
    let b = match Board::new(8, 5, 10, 2, 9) {
        Ok(b) => b,
        Err(e) => panic!("no board: {:?}", e),
    };
    assert_eq!(b.width(), 8);
    assert_eq!(b.height(), 5);
    assert_eq!(b.tile_size(), 10);
    assert_eq!(b.tile_gap(), 2);
    assert_eq!(b.max_mines(), 9);
    assert_eq!(b.remaining_mines(), 9);
    assert_eq!(b.tile_count(), 40);
}

#[test]
fn empty_grid_is_refused() {
    assert_eq!(Board::new(0, 5, 10, 1, 0).err(), Some(SetupError::EmptyGrid));
    assert_eq!(Board::new(5, 0, 10, 1, 0).err(), Some(SetupError::EmptyGrid));
    assert_eq!(Board::new(0, 0, 10, 1, 0).err(), Some(SetupError::EmptyGrid));
}

#[test]
fn oversized_grid_is_refused() {
    assert_eq!(Board::new(usize::MAX, 2, 10, 1, 0).err(), Some(SetupError::TooLarge));
    assert_eq!(Board::new(0, usize::MAX, 10, 1, 0).err(), Some(SetupError::EmptyGrid));
}

#[test]
fn board_accepts_any_mine_budget() {
    assert!(Board::new(2, 2, 10, 1, 100).is_ok());
}

#[test]
fn handles_run_row_by_row() {
    let b = board(4, 3);
    let mut next = 0;
    for y in 0..3 {
        for x in 0..4 {
            assert_eq!(b.get(x, y), Some(TileId { index: next }));
            next += 1;
        }
    }
}

#[test]
fn out_of_range_cell_has_no_tile() {
    let b = board(4, 3);
    assert_eq!(b.get(4, 0), None);
    assert_eq!(b.get(0, 3), None);
    assert_eq!(b.get(4, 3), None);
    assert_eq!(b.get(usize::MAX, usize::MAX), None);
    assert_eq!(b.position(4, 0), None);
    assert_eq!(b.position(0, 3), None);
}

#[test]
fn neighbor_counts_on_eight_by_eight() {
    let b = board(8, 8);
    for y in 0..8usize {
        for x in 0..8usize {
            let on_side = x == 0 || x == 7;
            let on_end = y == 0 || y == 7;
            let expected = if on_side && on_end {
                3
            } else if on_side || on_end {
                5
            } else {
                8
            };
            assert_eq!(b.neighbors(x, y).len(), expected);
        }
    }
}

#[test]
fn neighbor_count_is_span_product_less_one() {
    for height in 1..=5usize {
        for width in 1..=5usize {
            let b = board(width, height);
            for y in 0..height {
                for x in 0..width {
                    let columns = 1 + usize::from(x > 0) + usize::from(x + 1 < width);
                    let rows = 1 + usize::from(y > 0) + usize::from(y + 1 < height);
                    assert_eq!(b.neighbors(x, y).len(), (rows * columns - 1).min(8));
                }
            }
        }
    }
}

#[test]
fn neighbors_are_the_cells_around() {
    for (width, height) in [(1, 1), (1, 4), (4, 1), (2, 2), (3, 3), (5, 4), (8, 8)] {
        let b = board(width, height);
        for y in 0..height {
            for x in 0..width {
                assert_eq!(b.neighbors(x, y), around(width, height, x, y));
            }
        }
    }
}

#[test]
fn neighbors_hold_no_handle_twice() {
    let b = board(6, 6);
    for y in 0..6 {
        for x in 0..6 {
            let ids = b.neighbors(x, y);
            for i in 0..ids.len() {
                for j in 0..i {
                    assert_ne!(ids[i], ids[j]);
                }
            }
        }
    }
}

#[test]
fn neighbors_are_the_same_on_every_call() {
    let b = board(5, 5);
    assert_eq!(b.neighbors(2, 2), b.neighbors(2, 2));
    assert_eq!(
        b.neighbors(2, 2),
        vec![
            TileId { index: 6 },
            TileId { index: 7 },
            TileId { index: 8 },
            TileId { index: 11 },
            TileId { index: 13 },
            TileId { index: 16 },
            TileId { index: 17 },
            TileId { index: 18 },
        ]
    );
}

#[test]
fn neighbors_of_a_place_beside_the_grid() {
    let b = board(3, 3);
    assert_eq!(b.neighbors(3, 0), vec![TileId { index: 2 }, TileId { index: 5 }]);
    assert_eq!(b.neighbors(3, 3), vec![TileId { index: 8 }]);
    assert_eq!(b.neighbors(4, 0), vec![]);
    assert_eq!(b.neighbors(usize::MAX, usize::MAX), vec![]);
}

#[test]
fn single_cell_has_no_neighbors() {
    assert_eq!(board(1, 1).neighbors(0, 0), vec![]);
}

#[test]
fn positions_centre_the_grid() {
    // Three tiles of 10 with a gap of 1 span 32: they start at -16 and
    // follow one another at a distance of 11.
    let b = board(3, 1);
    assert_eq!(b.position(0, 0), Some(Position { twice_x: -32, twice_y: -10 }));
    assert_eq!(b.position(1, 0), Some(Position { twice_x: -10, twice_y: -10 }));
    assert_eq!(b.position(2, 0), Some(Position { twice_x: 12, twice_y: -10 }));
}

#[test]
fn positions_on_eight_by_eight() {
    let b = board(8, 8);
    // span = 8 * 10 + 7 * 1 = 87, start = -43.5, step = 11
    assert_eq!(b.position(0, 0), Some(Position { twice_x: -87, twice_y: -87 }));
    assert_eq!(b.position(7, 0), Some(Position { twice_x: 67, twice_y: -87 }));
    assert_eq!(b.position(3, 5), Some(Position { twice_x: -21, twice_y: 23 }));
}

#[test]
fn positions_with_the_largest_sizes() {
    let b = match Board::new(2, 1, u32::MAX, u32::MAX, 0) {
        Ok(b) => b,
        Err(e) => panic!("no board: {:?}", e),
    };
    let m = u32::MAX as i128;
    assert_eq!(b.position(0, 0), Some(Position { twice_x: -3 * m, twice_y: -m }));
    assert_eq!(b.position(1, 0), Some(Position { twice_x: m, twice_y: -m }));
}
