use minesweeper::{label_color, Appearance, Label, LabelColor, Tile, TileState};

fn tile(state: TileState, is_mined: bool, adjacent_mines: u8) -> Tile {
    Tile { state, is_mined, adjacent_mines }
}

#[test]
fn new_tile_is_pristine() {
    let t = Tile::new();
    assert_eq!(t.state, TileState::Unopened);
    assert!(!t.is_mined);
    assert_eq!(t.adjacent_mines, 0);
    assert_eq!(t.appearance(), Appearance::Neutral);
    assert_eq!(t.label(), None);
}

#[test]
fn open_from_unopened() {
    let mut t = tile(TileState::Unopened, false, 3);
    assert!(t.open());
    assert_eq!(t, tile(TileState::Opened, false, 3));
}

#[test]
fn open_from_flagged_is_allowed() {
    let mut t = tile(TileState::Flagged, true, 2);
    assert!(t.open());
    assert_eq!(t, tile(TileState::Opened, true, 2));
    assert_eq!(t.appearance(), Appearance::Detonated);
}

#[test]
fn open_twice_is_open_once() {
    for mined in [false, true] {
        for count in 0..=8u8 {
            for state in [TileState::Unopened, TileState::Flagged, TileState::Opened] {
                let mut once = tile(state, mined, count);
                once.open();
                let mut twice = once;
                assert!(!twice.open());
                assert_eq!(twice, once);
                assert_eq!(twice.appearance(), once.appearance());
                assert_eq!(twice.label(), once.label());
            }
        }
    }
}

#[test]
fn flag_cycles_with_period_two() {
    let mut t = Tile::new();
    assert!(t.toggle_flag());
    assert_eq!(t.state, TileState::Flagged);
    assert_eq!(t.appearance(), Appearance::Flagged);
    assert!(t.toggle_flag());
    assert_eq!(t.state, TileState::Unopened);
    assert_eq!(t.appearance(), Appearance::Neutral);
    assert!(t.toggle_flag());
    assert_eq!(t.state, TileState::Flagged);
}

#[test]
fn flag_on_opened_tile_changes_nothing() {
    let mut t = tile(TileState::Opened, false, 4);
    for _ in 0..5 {
        assert!(!t.toggle_flag());
        assert_eq!(t, tile(TileState::Opened, false, 4));
    }
}

#[test]
fn interactions_keep_mine_and_count() {
    let mut t = tile(TileState::Unopened, true, 6);
    t.toggle_flag();
    assert!(t.is_mined);
    assert_eq!(t.adjacent_mines, 6);
    t.open();
    assert!(t.is_mined);
    assert_eq!(t.adjacent_mines, 6);
}

#[test]
fn label_color_table() {
    assert_eq!(label_color(1), LabelColor::Blue);
    assert_eq!(label_color(2), LabelColor::Green);
    assert_eq!(label_color(3), LabelColor::Red);
    assert_eq!(label_color(4), LabelColor::Navy);
    assert_eq!(label_color(5), LabelColor::Maroon);
    assert_eq!(label_color(6), LabelColor::Teal);
    assert_eq!(label_color(7), LabelColor::Black);
    assert_eq!(label_color(8), LabelColor::Gray);
    assert_eq!(label_color(0), LabelColor::Gray);
    assert_eq!(label_color(200), LabelColor::Gray);
}

#[test]
fn opened_safe_tile_with_neighbours_has_a_label() {
    let t = tile(TileState::Opened, false, 3);
    assert_eq!(t.appearance(), Appearance::Revealed);
    assert_eq!(t.label(), Some(Label { count: 3, color: LabelColor::Red }));
}

#[test]
fn no_label_without_mined_neighbours() {
    let t = tile(TileState::Opened, false, 0);
    assert_eq!(t.appearance(), Appearance::Revealed);
    assert_eq!(t.label(), None);
}

#[test]
fn no_label_on_a_mine_or_a_closed_tile() {
    assert_eq!(tile(TileState::Opened, true, 3).label(), None);
    assert_eq!(tile(TileState::Unopened, false, 3).label(), None);
    assert_eq!(tile(TileState::Flagged, false, 3).label(), None);
}
