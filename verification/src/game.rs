//! The game state and the player's actions.

use vstd::prelude::*;

use crate::cell::{Cell, CellState, GameStatus};
use crate::grid::{
    all_mines_revealed, all_safe_revealed, cell_at, cell_index, counts_consistent, flag_count,
    flood_filled, in_bounds, indices_outside, lemma_count_cells_bound, lemma_same_layout_consistent,
    mine_count, neighbor_at, neighbor_prefix, neighbors_of, pristine_layout, safe_zone, same_layout,
    same_states,
};

mod interaction;
mod placement;
mod uncover;

verus! {

/// The Minesweeper game state.
///
/// Holds the board dimensions, the cell grid, and the current game status.
/// Mines are not placed until the first [`reveal_cell`](Self::reveal_cell) call, ensuring
/// the player can never lose on their first click.
pub struct MinesweeperGame {
    /// Board width in cells.
    pub width: usize,
    /// Board height in cells.
    pub height: usize,
    /// Number of mines to place: the first reveal places this many, or as
    /// many as fit outside the 3×3 zone around the revealed cell.
    pub mines: usize,
    /// Flat row-major grid of cells (`cells[y * width + x]`).
    pub cells: Vec<Cell>,
    /// Current game status.
    pub status: GameStatus,
    initialized: bool,
}

/// The cell `c` with its state replaced by `s`.
pub open spec fn with_state(c: Cell, s: CellState) -> Cell {
    Cell { state: s, ..c }
}

/// Some mine has been revealed.
pub open spec fn some_mine_revealed(cells: Seq<Cell>) -> bool {
    exists|i: int|
        0 <= i < cells.len() && (#[trigger] cells[i]).is_mine && cells[i].state == CellState::Revealed
}

/// No cell has been revealed.
pub open spec fn none_revealed(cells: Seq<Cell>) -> bool {
    forall|i: int| 0 <= i < cells.len() ==> (#[trigger] cells[i]).state != CellState::Revealed
}

/// The status that the board shows: lost once a mine is revealed, won once
/// every cell without a mine is revealed, still being played otherwise.
pub open spec fn board_status(cells: Seq<Cell>) -> GameStatus {
    if some_mine_revealed(cells) {
        GameStatus::Lost
    } else if all_safe_revealed(cells) {
        GameStatus::Won
    } else {
        GameStatus::Playing
    }
}

/// The status agrees with the board: it is the status that the board shows,
/// and once a mine is revealed every mine is.
pub open spec fn status_consistent(status: GameStatus, cells: Seq<Cell>) -> bool {
    &&& status == board_status(cells)
    &&& some_mine_revealed(cells) ==> all_mines_revealed(cells)
}

/// The marker cycle of a right click: hidden -> flag -> marker -> hidden; a
/// revealed cell stays revealed.
pub open spec fn cycled_state(s: CellState) -> CellState {
    match s {
        CellState::Hidden => CellState::Flagged,
        CellState::Flagged => CellState::Marked,
        CellState::Marked => CellState::Hidden,
        CellState::Revealed => CellState::Revealed,
    }
}

/// The abstract state of a game: the dimensions, the number of mines, the
/// cells in row-major order, the status, and whether the mines have been placed.
pub struct GameView {
    /// Board width in cells.
    pub width: nat,
    /// Board height in cells.
    pub height: nat,
    /// Number of mines to place (see [`MinesweeperGame::mines`]).
    pub mines: nat,
    /// The cells in row-major order.
    pub cells: Seq<Cell>,
    /// The game status.
    pub status: GameStatus,
    /// Whether the mines have been placed.
    pub started: bool,
}

/// The state a right click leaves: one step of the marker cycle, and a second
/// one when question marks are off and the first step landed on the marker.
pub open spec fn right_click_state(s: CellState, question_marks: bool) -> CellState {
    let first = cycled_state(s);
    if !question_marks && first == CellState::Marked {
        cycled_state(first)
    } else {
        first
    }
}

impl GameView {
    /// The game is well formed: a non-empty board whose cell sequence has
    /// `width * height` cells; before the first
    /// reveal no cell holds a mine, every count is 0 and no cell is revealed,
    /// after it every cell carries the number of mines around it; and the
    /// status agrees with the board.
    pub open spec fn wf(self) -> bool {
        &&& 0 < self.width <= usize::MAX
        &&& 0 < self.height <= usize::MAX
        &&& self.cells.len() == self.width * self.height
        &&& if self.started {
            counts_consistent(self.cells, self.width as int, self.height as int)
        } else {
            pristine_layout(self.cells) && none_revealed(self.cells)
        }
        &&& status_consistent(self.status, self.cells)
    }

    /// Index of position `p` in `cells`.
    pub open spec fn index(self, p: (usize, usize)) -> int {
        cell_index(self.width as int, p)
    }

    /// Whether `p` lies on the board.
    pub open spec fn on_board(self, p: (usize, usize)) -> bool {
        in_bounds(self.width as int, self.height as int, p)
    }

    /// The cell at position `p`.
    pub open spec fn cell(self, p: (usize, usize)) -> Cell {
        cell_at(self.cells, self.width as int, p)
    }

    /// The same game with the cells `cells`.
    pub open spec fn with_cells(self, cells: Seq<Cell>) -> GameView {
        GameView { cells, ..self }
    }

    /// The same game with the status `status`.
    pub open spec fn with_status(self, status: GameStatus) -> GameView {
        GameView { status, ..self }
    }

    /// The same game with the state of the cell at index `i` replaced by `s`.
    pub open spec fn with_cell_state(self, i: int, s: CellState) -> GameView {
        self.with_cells(self.cells.update(i, with_state(self.cells[i], s)))
    }

    /// The game after an explicit marker action at `p`: while the game is being
    /// played, an unrevealed cell takes the state `s`; otherwise nothing changes.
    pub open spec fn with_marker(self, p: (usize, usize), s: CellState) -> GameView {
        let i = self.index(p);
        if self.status == GameStatus::Playing && self.cells[i].state != CellState::Revealed {
            self.with_cell_state(i, s)
        } else {
            self
        }
    }

    /// Number of cells outside the 3×3 zone around `p`.
    pub open spec fn room_around(self, p: (usize, usize)) -> nat {
        let w = self.width as int;
        let h = self.height as int;
        indices_outside(safe_zone(w, h, p), (w * h) as nat).len()
    }

    /// `self` is the game `before` once the first reveal at `p` has placed its
    /// mines: only the cells' mines and counts changed and the game is started;
    /// neither `p` nor any of its neighbours holds a mine; every cell carries
    /// the number of mines around it; and there are as many mines as
    /// `before.mines` asks for, or as there are cells outside the 3×3 zone
    /// around `p` if fewer.
    pub open spec fn mines_placed_from(self, before: GameView, p: (usize, usize)) -> bool {
        let w = self.width as int;
        let h = self.height as int;
        let room = before.room_around(p);
        &&& self == GameView { cells: self.cells, started: true, ..before }
        &&& same_states(before.cells, self.cells)
        &&& counts_consistent(self.cells, w, h)
        &&& mine_count(self.cells) == if before.mines < room {
            before.mines
        } else {
            room
        }
        &&& !self.cell(p).is_mine
        &&& forall|j: int|
            0 <= j < neighbors_of(w, h, p).len() ==> !self.cell(
                #[trigger] neighbors_of(w, h, p)[j],
            ).is_mine
    }

    /// The board just before the flood fill of a reveal that ended in `after`:
    /// the mines and counts of `after` with the cell states of `self`.
    pub open spec fn board_before_flood(self, after: GameView) -> Seq<Cell> {
        Seq::new(self.cells.len(), |i: int| with_state(after.cells[i], self.cells[i].state))
    }

    /// Where the flood fill of a reveal at `p` starts: at `p`, and on the first
    /// reveal also at each of its neighbours.
    pub open spec fn reveal_seeds(self, p: (usize, usize)) -> Seq<(usize, usize)> {
        if self.started {
            seq![p]
        } else {
            seq![p] + neighbors_of(self.width as int, self.height as int, p)
        }
    }

    /// Whether revealing `p` hits a mine: the mines are placed and `p` is a
    /// hidden mine.
    pub open spec fn reveal_hits_mine(self, p: (usize, usize)) -> bool {
        self.started && self.cell(p).state == CellState::Hidden && self.cell(p).is_mine
    }

    /// `after` is a possible outcome of revealing `p` in `self`.
    ///
    /// Once the game is over nothing changes. Otherwise the first reveal places
    /// the mines outside the 3×3 zone around `p` (see
    /// [`GameView::mines_placed_from`]); later reveals keep them.
    /// Revealing a hidden mine loses the game and reveals every mine; any other
    /// reveal uncovers exactly the flood fill from the reveal's seeds (see
    /// [`flood_filled`]) and wins the game when every safe cell is revealed.
    pub open spec fn revealed_into(self, after: GameView, p: (usize, usize)) -> bool {
        if self.status != GameStatus::Playing {
            after == self
        } else {
            let b = self.board_before_flood(after);
            let w = self.width as int;
            let h = self.height as int;
            &&& after.width == self.width
            &&& after.height == self.height
            &&& after.mines == self.mines
            &&& after.started
            &&& after.cells.len() == self.cells.len()
            &&& if self.started {
                same_layout(self.cells, after.cells)
            } else {
                (GameView { cells: b, started: true, ..self }).mines_placed_from(self, p)
            }
            &&& if self.reveal_hits_mine(p) {
                &&& after.status == GameStatus::Lost
                &&& after.cells == Seq::new(
                    b.len(),
                    |i: int|
                        if b[i].is_mine {
                            with_state(b[i], CellState::Revealed)
                        } else {
                            b[i]
                        },
                )
            } else {
                &&& flood_filled(b, after.cells, w, h, self.reveal_seeds(p))
                &&& after.status == if all_safe_revealed(after.cells) {
                    GameStatus::Won
                } else {
                    GameStatus::Playing
                }
            }
        }
    }

    /// The game after one step of the marker cycle at `p`: while the game is
    /// being played, the cell's state moves along hidden -> flag -> marker ->
    /// hidden (a revealed cell stays revealed); otherwise nothing changes.
    pub open spec fn after_cycle(self, p: (usize, usize)) -> GameView {
        let i = self.index(p);
        if self.status == GameStatus::Playing {
            self.with_cell_state(i, cycled_state(self.cells[i].state))
        } else {
            self
        }
    }

    /// The game after a right click on `p` with the marker cycle: while the game
    /// is being played, the cell's state moves one step along hidden -> flag ->
    /// marker -> hidden, and without question marks a second step skips the
    /// marker; otherwise nothing changes.
    pub open spec fn after_right_click(self, p: (usize, usize), question_marks: bool) -> GameView {
        let i = self.index(p);
        if self.status == GameStatus::Playing {
            self.with_cell_state(i, right_click_state(self.cells[i].state, question_marks))
        } else {
            self
        }
    }

    /// The game that [`MinesweeperGame::new`] creates from these arguments.
    pub open spec fn fresh(width: nat, height: nat, mines: nat) -> GameView {
        GameView {
            width,
            height,
            mines: if mines < width * height - 1 {
                mines
            } else {
                (width * height - 1) as nat
            },
            cells: Seq::new(width * height, |i: int| Cell { is_mine: false, state: CellState::Hidden, adjacent_mines: 0 }),
            status: GameStatus::Playing,
            started: false,
        }
    }
}

impl View for MinesweeperGame {
    type V = GameView;

    /// The fields of the game, with the cells taken by their view. It is closed
    /// because the game has a private field, which no open spec function may
    /// read.
    closed spec fn view(&self) -> GameView {
        GameView {
            width: self.width as nat,
            height: self.height as nat,
            mines: self.mines as nat,
            cells: self.cells@,
            status: self.status,
            started: self.initialized,
        }
    }
}

impl MinesweeperGame {
    /// A game whose cells changed only in their states, without any cell becoming
    /// or ceasing to be revealed, stays well formed.
    proof fn lemma_wf_after_state_change(old: GameView, new: GameView)
        requires
            old.wf(),
            new == old.with_cells(new.cells),
            same_layout(old.cells, new.cells),
            forall|i: int|
                0 <= i < old.cells.len() ==> ((#[trigger] old.cells[i]).state == CellState::Revealed)
                    == (new.cells[i].state == CellState::Revealed),
        ensures
            new.wf(),
    {
        if old.started {
            lemma_same_layout_consistent(old.cells, new.cells, old.width as int, old.height as int);
        } else {
            assert forall|i: int| 0 <= i < new.cells.len() implies !(#[trigger] new.cells[i]).is_mine
                && new.cells[i].adjacent_mines == 0 && new.cells[i].state != CellState::Revealed by {
                assert(old.cells[i].is_mine == new.cells[i].is_mine);
            }
        }
        assert(some_mine_revealed(old.cells) == some_mine_revealed(new.cells)) by {
            if some_mine_revealed(old.cells) {
                let i = choose|i: int|
                    0 <= i < old.cells.len() && (#[trigger] old.cells[i]).is_mine && old.cells[i].state
                        == CellState::Revealed;
                assert(new.cells[i].is_mine);
            }
            if some_mine_revealed(new.cells) {
                let i = choose|i: int|
                    0 <= i < new.cells.len() && (#[trigger] new.cells[i]).is_mine && new.cells[i].state
                        == CellState::Revealed;
                assert(old.cells[i].is_mine);
            }
        }
        assert(all_safe_revealed(old.cells) == all_safe_revealed(new.cells)) by {
            if !all_safe_revealed(new.cells) {
                let i = choose|i: int| 0 <= i < new.cells.len() && !((#[trigger] new.cells[i]).is_mine
                    || new.cells[i].state == CellState::Revealed);
                assert(old.cells[i].is_mine == new.cells[i].is_mine);
            }
            if !all_safe_revealed(old.cells) {
                let i = choose|i: int| 0 <= i < old.cells.len() && !((#[trigger] old.cells[i]).is_mine
                    || old.cells[i].state == CellState::Revealed);
                assert(old.cells[i].is_mine == new.cells[i].is_mine);
            }
        }
        if some_mine_revealed(new.cells) {
            assert forall|i: int| 0 <= i < new.cells.len() implies (#[trigger] new.cells[i]).is_mine
                ==> new.cells[i].state == CellState::Revealed by {
                assert(old.cells[i].is_mine == new.cells[i].is_mine);
            }
        }
    }

    /// Create a new game. Mines are placed on the first [`reveal_cell`](Self::reveal_cell) call so
    /// the player can never lose on the very first click. The number of mines
    /// is capped at one less than the number of cells.
    pub fn new(width: usize, height: usize, mines: usize) -> (g: Self)
        requires
            width > 0,
            height > 0,
            width * height <= usize::MAX,
        ensures
            g@ == GameView::fresh(width as nat, height as nat, mines as nat),
            g@.wf(),
    {
        let total = width * height;
        assert(total > 0) by (nonlinear_arith)
            requires
                width > 0,
                height > 0,
                total == width * height,
        ;
        let cap = total - 1;
        let mines = if mines < cap {
            mines
        } else {
            cap
        };
        let cells = vec![Cell::default(); total];
        let g = MinesweeperGame {
            width,
            height,
            mines,
            cells,
            status: GameStatus::Playing,
            initialized: false,
        };
        assert(g@.cells =~= GameView::fresh(width as nat, height as nat, mines as nat).cells);
        assert(!all_safe_revealed(g@.cells)) by {
            assert(!(g@.cells[0].is_mine || g@.cells[0].state == CellState::Revealed));
        }
        g
    }

    /// Reset to a fresh game with the same parameters.
    pub fn reset(&mut self)
        requires
            0 < old(self)@.width,
            0 < old(self)@.height,
            old(self)@.width * old(self)@.height <= usize::MAX,
        ensures
            final(self)@ == GameView::fresh(old(self)@.width, old(self)@.height, old(self)@.mines),
            final(self)@.wf(),
    {
        *self = Self::new(self.width, self.height, self.mines);
    }

    /// Number of flags the player has placed.
    pub fn flags_placed(&self) -> (n: usize)
        ensures
            n == flag_count(self@.cells),
    {
        let mut count: usize = 0;
        let mut i: usize = 0;
        while i < self.cells.len()
            invariant
                i <= self.cells@.len(),
                count == flag_count(self.cells@.take(i as int)),
            decreases self.cells@.len() - i,
        {
            assert(self.cells@.take(i + 1).drop_last() =~= self.cells@.take(i as int));
            proof {
                lemma_count_cells_bound(
                    self.cells@.take(i as int),
                    |c: Cell| c.state == CellState::Flagged,
                );
            }
            if self.cells[i].state == CellState::Flagged {
                count = count + 1;
            }
            i = i + 1;
        }
        assert(self.cells@.take(i as int) =~= self.cells@);
        count
    }

    /// Board width in cells.
    pub fn width(&self) -> (w: usize)
        ensures
            w == self@.width,
    {
        self.width
    }

    /// Board height in cells.
    pub fn height(&self) -> (h: usize)
        ensures
            h == self@.height,
    {
        self.height
    }

    /// Number of mines to place (see the field [`MinesweeperGame::mines`]).
    pub fn mines(&self) -> (m: usize)
        ensures
            m == self@.mines,
    {
        self.mines
    }

    /// The current status of the game.
    pub fn status(&self) -> (s: GameStatus)
        ensures
            s == self@.status,
    {
        self.status
    }

    /// The cell at `(x, y)`.
    pub fn cell(&self, x: usize, y: usize) -> (c: Cell)
        requires
            self@.index((x, y)) < self@.cells.len(),
        ensures
            c == self@.cell((x, y)),
    {
        assert(self.cells@.len() == self.cells.len());
        self.cells[y * self.width + x]
    }

    // ── Internal helpers ──────────────────────────────────────────────────────
    /// Index of cell `(x, y)` in `cells`.
    fn idx(&self, x: usize, y: usize) -> (i: usize)
        requires
            y * self.width + x <= usize::MAX,
        ensures
            i == self@.index((x, y)),
    {
        y * self.width + x
    }

    /// The `k`-th neighbour of `(x, y)`, when it lies on the board.
    fn neighbor_step(&self, x: usize, y: usize, k: usize) -> (r: Option<(usize, usize)>)
        requires
            x < self.width,
            y < self.height,
            k < 8,
        ensures
            r == neighbor_at(self.width as int, self.height as int, (x, y), k as int),
    {
        let (sx, sy): (usize, usize) = if k == 0 {
            (0, 0)
        } else if k == 1 {
            (1, 0)
        } else if k == 2 {
            (2, 0)
        } else if k == 3 {
            (0, 1)
        } else if k == 4 {
            (2, 1)
        } else if k == 5 {
            (0, 2)
        } else if k == 6 {
            (1, 2)
        } else {
            (2, 2)
        };
        if (sx == 0 && x == 0) || (sy == 0 && y == 0) {
            return None;
        }
        let nx = if sx == 0 {
            x - 1
        } else {
            x + (sx - 1)
        };
        let ny = if sy == 0 {
            y - 1
        } else {
            y + (sy - 1)
        };
        if nx < self.width && ny < self.height {
            Some((nx, ny))
        } else {
            None
        }
    }

    /// The on-board cells around `(x, y)`, row by row from the top left.
    fn neighbors(&self, x: usize, y: usize) -> (out: Vec<(usize, usize)>)
        requires
            x < self.width,
            y < self.height,
        ensures
            out@ == neighbors_of(self.width as int, self.height as int, (x, y)),
    {
        let mut out: Vec<(usize, usize)> = Vec::with_capacity(8);
        let mut k: usize = 0;
        while k < 8
            invariant
                k <= 8,
                x < self.width,
                y < self.height,
                out@ == neighbor_prefix(self.width as int, self.height as int, (x, y), k as nat),
            decreases 8 - k,
        {
            match self.neighbor_step(x, y, k) {
                Some(q) => out.push(q),
                None => {},
            }
            k = k + 1;
        }
        out
    }

    /// Give cell `i` the state `s`.
    fn set_state(&mut self, i: usize, s: CellState)
        requires
            i < old(self)@.cells.len(),
        ensures
            final(self)@ == old(self)@.with_cell_state(i as int, s),
            same_layout(old(self)@.cells, final(self)@.cells),
    {
        let c = self.cells[i];
        self.cells.set(i, Cell { state: s, ..c });
        assert(self@.cells =~= old(self)@.with_cell_state(i as int, s).cells);
    }

    /// Declare the game won when every safe cell is revealed.
    fn check_win(&mut self)
        ensures
            final(self)@ == if all_safe_revealed(old(self)@.cells) {
                old(self)@.with_status(GameStatus::Won)
            } else {
                old(self)@
            },
    {
        let mut all_safe_revealed = true;
        let mut i: usize = 0;
        while i < self.cells.len()
            invariant
                i <= self.cells@.len(),
                all_safe_revealed == forall|j: int|
                    0 <= j < i ==> (#[trigger] self.cells@[j]).is_mine || self.cells@[j].state
                        == CellState::Revealed,
            decreases self.cells@.len() - i,
        {
            let c = self.cells[i];
            if !(c.is_mine || c.state == CellState::Revealed) {
                all_safe_revealed = false;
            }
            i = i + 1;
        }
        if all_safe_revealed {
            self.status = GameStatus::Won;
        }
    }

    // ── Public actions ────────────────────────────────────────────────────────
    /// Cycle marker state on an unrevealed cell: hidden -> red flag -> blue marker -> hidden.
    /// Does nothing once the game is over.
    pub fn cycle_flag(&mut self, x: usize, y: usize)
        requires
            old(self)@.status == GameStatus::Playing ==> old(self)@.index((x, y)) < old(
                self,
            )@.cells.len(),
        ensures
            old(self)@.wf() ==> final(self)@.wf(),
            final(self)@ == old(self)@.after_cycle((x, y)),
    {
        if self.status != GameStatus::Playing {
            return ;
        }
        assert(self.cells@.len() == self.cells.len());
        let idx = self.idx(x, y);
        let ghost pre = self@;
        match self.cells[idx].state {
            CellState::Hidden => self.set_state(idx, CellState::Flagged),
            CellState::Flagged => self.set_state(idx, CellState::Marked),
            CellState::Marked => self.set_state(idx, CellState::Hidden),
            CellState::Revealed => {
                assert(pre.cells =~= pre.with_cell_state(idx as int, CellState::Revealed).cells);
            },
        }
        proof {
            if pre.wf() {
                Self::lemma_wf_after_state_change(pre, self@);
            }
        }
    }

    /// Set a cell directly to `Flagged` without cycling through the normal
    /// [Hidden → Flagged → Marked → Hidden](Self::cycle_flag) sequence.
    /// A revealed cell stays revealed; nothing changes once the game is over.
    pub fn flag(&mut self, x: usize, y: usize)
        requires
            old(self)@.status == GameStatus::Playing ==> old(self)@.index((x, y)) < old(
                self,
            )@.cells.len(),
        ensures
            old(self)@.wf() ==> final(self)@.wf(),
            final(self)@ == old(self)@.with_marker((x, y), CellState::Flagged),
    {
        if self.status != GameStatus::Playing {
            return ;
        }
        assert(self.cells@.len() == self.cells.len());
        let idx = self.idx(x, y);
        let ghost pre = self@;
        if self.cells[idx].state == CellState::Revealed {
            assert(pre.cells =~= pre.with_cell_state(idx as int, CellState::Revealed).cells);
            return ;
        }
        self.set_state(idx, CellState::Flagged);
        proof {
            if pre.wf() {
                Self::lemma_wf_after_state_change(pre, self@);
            }
        }
    }

    /// Set a cell directly to `Marked` without cycling through the normal
    /// [Hidden → Flagged → Marked → Hidden](Self::cycle_flag) sequence.
    /// A revealed cell stays revealed; nothing changes once the game is over.
    pub fn mark(&mut self, x: usize, y: usize)
        requires
            old(self)@.status == GameStatus::Playing ==> old(self)@.index((x, y)) < old(
                self,
            )@.cells.len(),
        ensures
            old(self)@.wf() ==> final(self)@.wf(),
            final(self)@ == old(self)@.with_marker((x, y), CellState::Marked),
    {
        if self.status != GameStatus::Playing {
            return ;
        }
        assert(self.cells@.len() == self.cells.len());
        let idx = self.idx(x, y);
        let ghost pre = self@;
        if self.cells[idx].state == CellState::Revealed {
            assert(pre.cells =~= pre.with_cell_state(idx as int, CellState::Revealed).cells);
            return ;
        }
        self.set_state(idx, CellState::Marked);
        proof {
            if pre.wf() {
                Self::lemma_wf_after_state_change(pre, self@);
            }
        }
    }

    /// Clear any marker on a cell, returning it to `Hidden`.
    /// This removes both flags and question marks.
    /// A revealed cell stays revealed; nothing changes once the game is over.
    pub fn clear_marker(&mut self, x: usize, y: usize)
        requires
            old(self)@.status == GameStatus::Playing ==> old(self)@.index((x, y)) < old(
                self,
            )@.cells.len(),
        ensures
            old(self)@.wf() ==> final(self)@.wf(),
            final(self)@ == old(self)@.with_marker((x, y), CellState::Hidden),
    {
        if self.status != GameStatus::Playing {
            return ;
        }
        assert(self.cells@.len() == self.cells.len());
        let idx = self.idx(x, y);
        let ghost pre = self@;
        if self.cells[idx].state == CellState::Revealed {
            assert(pre.cells =~= pre.with_cell_state(idx as int, CellState::Revealed).cells);
            return ;
        }
        self.set_state(idx, CellState::Hidden);
        proof {
            if pre.wf() {
                Self::lemma_wf_after_state_change(pre, self@);
            }
        }
    }
}

} // verus!
