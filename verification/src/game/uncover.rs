//! The reveal action: the first reveal places the mines, then an iterative
//! flood fill uncovers the empty region around the revealed cell.

use vstd::prelude::*;

use crate::cell::{CellState, GameStatus};
use crate::flood::{
    flood_progress, lemma_flood_outcome, lemma_flood_skip, lemma_flood_start, lemma_flood_step,
    lemma_loss_outcome,
};
use crate::game::{with_state, MinesweeperGame};
use crate::grid::{cell_at, in_bounds, lemma_index_in_range, lemma_neighbors, neighbors_of, opens, hidden_count};

verus! {

impl MinesweeperGame {
    /// Reveal every mine after the game is lost.
    fn reveal_all_mines(&mut self)
        ensures
            final(self)@ == old(self)@.with_cells(final(self)@.cells),
            final(self)@.cells == Seq::new(
                old(self)@.cells.len(),
                |i: int|
                    if old(self)@.cells[i].is_mine {
                        with_state(old(self)@.cells[i], CellState::Revealed)
                    } else {
                        old(self)@.cells[i]
                    },
            ),
    {
        let ghost pre = self@;
        let mut i: usize = 0;
        while i < self.cells.len()
            invariant
                i <= self@.cells.len(),
                self@ == pre.with_cells(self@.cells),
                self@.cells.len() == pre.cells.len(),
                forall|k: int|
                    0 <= k < pre.cells.len() ==> #[trigger] self@.cells[k] == if k < i
                        && pre.cells[k].is_mine {
                        with_state(pre.cells[k], CellState::Revealed)
                    } else {
                        pre.cells[k]
                    },
            decreases self@.cells.len() - i,
        {
            if self.cells[i].is_mine {
                self.set_state(i, CellState::Revealed);
            }
            i = i + 1;
        }
        assert(self@.cells =~= Seq::new(
            pre.cells.len(),
            |k: int|
                if pre.cells[k].is_mine {
                    with_state(pre.cells[k], CellState::Revealed)
                } else {
                    pre.cells[k]
                },
        ));
    }

    /// Reveal a cell. Recursively reveals empty neighbours (flood-fill).
    ///
    /// The first reveal places the mines away from the revealed cell and its
    /// neighbours, and reveals them all; nothing changes once the game is over.
    pub fn reveal_cell(&mut self, x: usize, y: usize)
        requires
            old(self)@.wf(),
            old(self)@.status == GameStatus::Playing ==> old(self)@.on_board((x, y)),
        ensures
            final(self)@.wf(),
            old(self)@.revealed_into(final(self)@, (x, y)),
    {
        if self.status != GameStatus::Playing {
            return ;
        }
        let ghost pre = self@;
        let ghost w = self.width as int;
        let ghost h = self.height as int;
        let ghost start = (x, y);

        // Iterative flood-fill to avoid stack overflows on large boards.
        let mut stack: Vec<(usize, usize)> = vec![(x, y)];
        if !self.initialized {
            self.initialize(x, y);
            let mut ns = self.neighbors(x, y);
            stack.append(&mut ns);
        }
        let ghost b = self@;
        let ghost seeds = stack@;
        proof {
            lemma_neighbors(w, h, start);
            assert(seeds =~= pre.reveal_seeds(start));
            assert forall|k: int| 0 <= k < seeds.len() implies in_bounds(w, h, #[trigger] seeds[k])
                && (cell_at(b.cells, w, seeds[k]).is_mine ==> pre.started && seeds =~= seq![start]) by {
                if k > 0 {
                    assert(seeds[k] == neighbors_of(w, h, start)[k - 1]);
                }
            }
            lemma_flood_start(b, seeds, start, pre.started);
        }
        assert(self.cells@.len() == self.cells.len());
        while stack.len() > 0
            invariant
                w == self.width,
                h == self.height,
                b.wf(),
                b.started,
                b.status == GameStatus::Playing,
                self@ == b.with_cells(self@.cells),
                flood_progress(b, self@.cells, stack@, seeds, start, pre.started),
                pre == old(self)@,
                pre.wf(),
                pre.status == GameStatus::Playing,
                pre.on_board(start),
                start == (x, y),
                seeds == pre.reveal_seeds(start),
                if pre.started {
                    b == pre
                } else {
                    b.mines_placed_from(pre, start)
                },
            decreases hidden_count(self@.cells) * 9 + stack@.len(),
        {
            let ghost cur = self@.cells;
            let ghost old_stack = stack@;
            let (cx, cy) = stack.pop().unwrap();
            let ghost c = (cx, cy);
            assert(old_stack[old_stack.len() - 1] == c);
            assert(stack@ =~= old_stack.drop_last());
            assert(in_bounds(w, h, old_stack[old_stack.len() - 1]));
            proof {
                lemma_index_in_range(w, h, c);
            }
            assert(self.cells@.len() == self.cells.len());
            let idx = self.idx(cx, cy);
            if self.cells[idx].state != CellState::Hidden {
                proof {
                    lemma_flood_skip(b, cur, old_stack, seeds, start, pre.started);
                }
                continue;
            }
            self.set_state(idx, CellState::Revealed);
            if self.cells[idx].is_mine {
                self.status = GameStatus::Lost;
                self.reveal_all_mines();
                proof {
                    assert(cell_at(b.cells, w, old_stack[old_stack.len() - 1]).is_mine);
                    assert(c == start);
                    assert(self@.cells =~= Seq::new(
                        b.cells.len(),
                        |i: int|
                            if b.cells[i].is_mine {
                                with_state(b.cells[i], CellState::Revealed)
                            } else {
                                b.cells[i]
                            },
                    ));
                    lemma_loss_outcome(pre, b, self@, start);
                }
                return ;
            }
            let ghost rest = stack@;
            if self.cells[idx].adjacent_mines == 0 {
                let mut ns = self.neighbors(cx, cy);
                stack.append(&mut ns);
            }
            proof {
                assert(stack@ == rest + if opens(b.cells, w, c) {
                    neighbors_of(w, h, c)
                } else {
                    Seq::empty()
                }) by {
                    if !opens(b.cells, w, c) {
                        assert(stack@ =~= rest + Seq::empty());
                    }
                }
                lemma_flood_step(b, cur, self@.cells, old_stack, stack@, seeds, start, pre.started);
            }
        }
        assert(if pre.started {
            b == pre
        } else {
            b.mines_placed_from(pre, start)
        });
        self.check_win();
        proof {
            lemma_flood_outcome(pre, b, self@, seeds, stack@, start);
        }
    }
}

} // verus!
