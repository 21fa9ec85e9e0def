//! What a click on the board does to the game, as a front end's widget
//! delivers it once it has turned a pointer position into a cell.

use vstd::prelude::*;

use crate::cell::{CellState, GameStatus, InteractionMode};
use crate::game::MinesweeperGame;
use crate::grid::lemma_index_in_range;

verus! {

impl MinesweeperGame {
    /// Apply a click on cell `(x, y)`: `primary` tells a primary click from a
    /// secondary one. Clicks off the board do nothing. In
    /// [`InteractionMode::Direct`] a primary click reveals the cell and a
    /// secondary one cycles its marker, skipping the question mark unless
    /// `question_marks` is set. In [`InteractionMode::SelectOnly`] the game is
    /// left alone and a primary click while playing selects the cell, which is
    /// returned.
    pub fn handle_click(
        &mut self,
        x: usize,
        y: usize,
        primary: bool,
        mode: InteractionMode,
        question_marks: bool,
    ) -> (selected: Option<(usize, usize)>)
        requires
            old(self)@.wf(),
        ensures
            final(self)@.wf(),
            !old(self)@.on_board((x, y)) ==> final(self)@ == old(self)@ && selected == None::<(usize, usize)>,
            old(self)@.on_board((x, y)) && mode == InteractionMode::Direct ==> selected == None::<(usize, usize)>
                && if primary {
                old(self)@.revealed_into(final(self)@, (x, y))
            } else {
                final(self)@ == old(self)@.after_right_click((x, y), question_marks)
            },
            old(self)@.on_board((x, y)) && mode == InteractionMode::SelectOnly ==> final(self)@ == old(
                self,
            )@ && selected == if old(self)@.status == GameStatus::Playing && primary {
                Some((x, y))
            } else {
                None
            },
    {
        if !(x < self.width && y < self.height) {
            return None;
        }
        proof {
            lemma_index_in_range(self@.width as int, self@.height as int, (x, y));
        }
        match mode {
            InteractionMode::Direct => {
                if primary {
                    self.reveal_cell(x, y);
                } else {
                    let ghost pre = self@;
                    let ghost i = pre.index((x, y));
                    self.cycle_flag(x, y);
                    if !question_marks {
                        assert(self.cells@.len() == self.cells.len());
                        let idx = y * self.width + x;
                        if self.cells[idx].state == CellState::Marked {
                            self.cycle_flag(x, y);
                            assert(self@.cells =~= pre.after_right_click((x, y), question_marks).cells);
                        }
                    }
                    assert(self@.cells =~= pre.after_right_click((x, y), question_marks).cells);
                }
                None
            },
            InteractionMode::SelectOnly => {
                if self.status == GameStatus::Playing && primary {
                    Some((x, y))
                } else {
                    None
                }
            },
        }
    }

    /// Whether a front end highlights the selected cell `(x, y)`: it lies on
    /// the board and is not revealed.
    pub fn selection_visible(&self, x: usize, y: usize) -> (visible: bool)
        requires
            self@.cells.len() == self@.width * self@.height,
        ensures
            visible == (self@.on_board((x, y)) && self@.cell((x, y)).state != CellState::Revealed),
    {
        if x < self.width && y < self.height {
            proof {
                lemma_index_in_range(self@.width as int, self@.height as int, (x, y));
            }
            assert(self.cells@.len() == self.cells.len());
            self.cells[y * self.width + x].state != CellState::Revealed
        } else {
            false
        }
    }
}

} // verus!
