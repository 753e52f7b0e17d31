//! The screens of the application, and the rule that clears away what belongs
//! to a screen when the application moves to another one.

use vstd::prelude::*;

verus! {

/// The screen the application is on.
#[derive(Clone, Copy, Debug, PartialEq, Eq, Hash, Structural)]
pub enum GameState {
    MainMenu,
    SelectLevel,
    InGame,
    GameOver,
    Settings,
}

impl Default for GameState {
    /// The application starts in the game.
    fn default() -> (state: GameState)
        ensures
            state == GameState::InGame,
    {
        GameState::InGame
    }
}

/// Marks something as belonging to one screen: it is to go when the
/// application moves to any other.
#[derive(Clone, Copy, Debug, PartialEq, Eq, Hash, Structural)]
pub struct OnGameState(pub GameState);

impl OnGameState {
    /// Whether what carries this marker goes once the move to `pending` is
    /// made: it goes where a move is pending and leads to another screen.
    pub open spec fn is_stale(self, pending: Option<GameState>) -> bool {
        pending matches Some(target) && self.0 != target
    }

    /// Decides whether what carries this marker is to be removed, given the
    /// move that is pending, if any.
    pub fn goes_on(&self, pending: Option<GameState>) -> (gone: bool)
        ensures
            gone == self.is_stale(pending),
    {
        match pending {
            Some(target) => self.0 != target,
            None => false,
        }
    }
}

} // verus!
