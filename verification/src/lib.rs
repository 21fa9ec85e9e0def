//! Minesweeper game logic: a rectangular board of cells, mines placed on the
//! first reveal around a safe zone, flood-fill reveal of empty regions, flags
//! and markers, and the win and loss rules.

pub mod cell;
pub mod grid;
pub mod game;
pub mod label;
pub mod palette;
pub mod laws;
pub mod flood;
mod random;

pub use cell::{Cell, CellState, GameStatus, InteractionMode};
pub use game::MinesweeperGame;
pub use label::column_label;
pub use palette::number_color;
