use minesweeper::draw_cells;

#[test]
fn draws_follow_the_numbers() {
    // pool 0 1 2 3 4: 7 % 5 = 2 takes cell 2; pool 0 1 3 4: 0 takes cell 0;
    // pool 1 3 4: 2 takes cell 4
    assert_eq!(draw_cells(5, 3, &vec![7, 0, 2]), vec![2, 0, 4]);
}

#[test]
fn drawing_the_first_entry_again_and_again() {
    assert_eq!(draw_cells(4, 4, &vec![0, 0, 0, 0]), vec![0, 1, 2, 3]);
}

#[test]
fn drawing_the_last_entry_again_and_again() {
    assert_eq!(draw_cells(4, 3, &vec![3, 2, 1]), vec![3, 2, 1]);
    assert_eq!(draw_cells(4, 3, &vec![usize::MAX - 3, 5, 7]), vec![0, 3, 2]);
}

#[test]
fn draws_stop_when_the_numbers_run_out() {
    assert_eq!(draw_cells(5, 4, &vec![1]), vec![1]);
    assert_eq!(draw_cells(5, 4, &vec![]), Vec::<usize>::new());
}

#[test]
fn draws_stop_when_the_pool_is_empty() {
    assert_eq!(draw_cells(2, 3, &vec![0, 0, 0]), vec![0, 1]);
    assert_eq!(draw_cells(0, 3, &vec![0, 0, 0]), Vec::<usize>::new());
}

#[test]
fn only_the_first_numbers_are_read() {
    assert_eq!(draw_cells(5, 2, &vec![7, 0, 2, 9, 9]), vec![2, 0]);
    assert_eq!(draw_cells(5, 0, &vec![7, 0, 2]), Vec::<usize>::new());
}

#[test]
fn drawn_cells_are_distinct_and_in_range() {
    let mut state: usize = 12345;
    for total in 1..40usize {
        let mut picks = Vec::new();
        for _ in 0..total {
            state = state.wrapping_mul(6364136223846793005).wrapping_add(1442695040888963407);
            picks.push(state >> 7);
        }
        let chosen = draw_cells(total, total, &picks);
        assert_eq!(chosen.len(), total);
        let mut seen = vec![false; total];
        for cell in chosen {
            assert!(cell < total);
            assert!(!seen[cell]);
            seen[cell] = true;
        }
    }
}
