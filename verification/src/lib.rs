//! Board logic of a Minesweeper round: a rectangular grid of tiles, mine
//! placement, adjacency counts, and the per-tile reaction to the two player
//! interactions (open and flag).
//!
//! Everything in this crate is verified. Drawing, input delivery and the
//! source of randomness belong to the caller.

pub mod balance;
pub mod board;
pub mod game_state;
pub mod grid;
pub mod interaction;
pub mod minefield;
pub mod mines;
pub mod placement;
pub mod sums;
pub mod tile;

pub use board::{Board, Position, SetupError};
pub use game_state::{GameState, OnGameState};
pub use interaction::{Interaction, Update};
pub use minefield::{Minefield, Placement};
pub use placement::{draw_cells, RandomSource};
pub use tile::{label_color, Appearance, Label, LabelColor, Tile, TileId, TileState};
