//! The value types of the game: one cell, its visibility, the game status
//! and the interaction style of a front end.

use vstd::prelude::*;

verus! {

/// The visibility state of a single cell.
#[derive(Clone, Copy, PartialEq, Eq, Structural, Debug)]
pub enum CellState {
    /// The cell has not been revealed or flagged yet.
    Hidden,
    /// The cell has been revealed by the player.
    Revealed,
    /// The player has placed a flag on this cell.
    Flagged,
    /// A blue marker used only as a visual indicator (not counted as a flag).
    Marked,
}

/// A single cell on the Minesweeper board.
#[derive(Clone, Copy, Debug)]
pub struct Cell {
    /// Whether this cell contains a mine.
    pub is_mine: bool,
    /// Current visibility state of the cell.
    pub state: CellState,
    /// Number of mines in the 8 neighboring cells (0 if this cell is a mine).
    pub adjacent_mines: u8,
}

impl Default for Cell {
    /// A hidden cell without a mine and without mines around it.
    fn default() -> (c: Self)
        ensures
            !c.is_mine,
            c.state == CellState::Hidden,
            c.adjacent_mines == 0,
    {
        Cell { is_mine: false, state: CellState::Hidden, adjacent_mines: 0 }
    }
}

/// The current status of the game.
#[derive(Clone, Copy, PartialEq, Eq, Structural, Debug)]
pub enum GameStatus {
    /// Waiting for the first click, or game is in progress.
    Playing,
    /// All non-mine cells have been revealed — the player won.
    Won,
    /// The player revealed a mine — the game is over.
    Lost,
}

/// Interaction behavior of a front end that drives the game.
#[derive(Clone, Copy, Debug, Eq, PartialEq, Structural)]
pub enum InteractionMode {
    /// Desktop/default behavior: left click reveals, right click cycles flag/mark.
    Direct,
    /// Mobile friendly behavior: primary tap only selects a cell.
    SelectOnly,
}

impl Default for InteractionMode {
    /// The default interaction is [`InteractionMode::Direct`].
    fn default() -> (m: Self)
        ensures
            m == InteractionMode::Direct,
    {
        InteractionMode::Direct
    }
}

} // verus!
