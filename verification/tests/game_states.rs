use minesweeper::{GameState, OnGameState};

#[test]
fn application_starts_in_the_game() {
    assert_eq!(GameState::default(), GameState::InGame);
}

#[test]
fn nothing_goes_without_a_pending_move() {
    for state in [
        GameState::MainMenu,
        GameState::SelectLevel,
        GameState::InGame,
        GameState::GameOver,
        GameState::Settings,
    ] {
        assert!(!OnGameState(state).goes_on(None));
    }
}

#[test]
fn what_belongs_to_another_screen_goes() {
    let all = [
        GameState::MainMenu,
        GameState::SelectLevel,
        GameState::InGame,
        GameState::GameOver,
        GameState::Settings,
    ];
    for owner in all {
        for target in all {
            assert_eq!(OnGameState(owner).goes_on(Some(target)), owner != target);
        }
    }
}
