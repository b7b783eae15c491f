//! A Minesweeper board: a rectangular grid of tiles, each either a mine or
//! the number of mines around it, with cursors that read and write single
//! cells of a shared board.

pub mod adjacency;
pub mod board;
pub mod board_options;
pub mod components;
pub mod coord;
pub mod error;
pub mod events;
pub mod neighbors;
pub mod render;
mod shuffle;
pub mod state;

pub use board::{TileMap, TileView};
pub use board_options::{BoardOptions, Difficulty, GridSize};
pub use components::{BoardCoordinate, CountColor, Marker, Mine, MineNeighbor, Uncover};
pub use coord::Coord;
pub use error::BoardError;
pub use events::{BoardClearEvent, MineTriggerEvent, TileMarkEvent};
pub use render::Tint;
pub use state::TileState;
