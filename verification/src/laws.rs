//! Properties of the game that span its actions: the safe first click, when
//! a reveal loses, the marker cycle, and what counts as a flag.

use vstd::prelude::*;

use crate::cell::{Cell, CellState, GameStatus};
use crate::game::{
    cycled_state, right_click_state, some_mine_revealed, with_state, GameView,
};
use crate::grid::{
    adjacent_count, all_mines_revealed, all_safe_revealed, cell_at, flag_count, lemma_count_cells_same, mine_count, flood_closed, in_bounds, lemma_count_cells_update,
    lemma_count_mines_zero, lemma_index_in_range, lemma_neighbors, neighbors_of, newly_revealed,
    opens, revealed_region,
};

verus! {

/// The first click is safe: the first reveal of a game never loses, places
/// as many mines as the setting asks for or as fit outside the 3×3 zone
/// around the revealed cell, none on that cell or its neighbours, and
/// reveals the cell and each of its neighbours that was hidden.
pub proof fn lemma_first_reveal_is_safe(before: GameView, after: GameView, p: (usize, usize))
    requires
        before.wf(),
        !before.started,
        before.status == GameStatus::Playing,
        before.on_board(p),
        before.revealed_into(after, p),
    ensures
        after.status != GameStatus::Lost,
        mine_count(after.cells) == if before.mines < before.room_around(p) {
            before.mines
        } else {
            before.room_around(p)
        },
        !after.cell(p).is_mine,
        before.cell(p).state == CellState::Hidden ==> after.cell(p).state == CellState::Revealed,
        forall|j: int|
            0 <= j < neighbors_of(before.width as int, before.height as int, p).len() ==> {
                let q = #[trigger] neighbors_of(before.width as int, before.height as int, p)[j];
                &&& !after.cell(q).is_mine
                &&& before.cell(q).state == CellState::Hidden ==> after.cell(q).state
                    == CellState::Revealed
            },
{
    let w = before.width as int;
    let h = before.height as int;
    let b = before.board_before_flood(after);
    let ns = neighbors_of(w, h, p);
    let seeds = before.reveal_seeds(p);
    let region = revealed_region(b, after.cells, w, h);
    lemma_neighbors(w, h, p);
    lemma_index_in_range(w, h, p);
    let placed = GameView { cells: b, started: true, ..before };
    assert(placed.mines_placed_from(before, p));
    assert(flood_closed(b, w, h, seeds, region));
    assert(seeds[0] == p);
    assert(cell_at(b, w, p) == with_state(after.cell(p), before.cell(p).state));
    lemma_count_cells_same(b, after.cells, |c: Cell| c.is_mine);
    assert forall|j: int| 0 <= j < ns.len() implies {
        let q = #[trigger] ns[j];
        &&& !after.cell(q).is_mine
        &&& before.cell(q).state == CellState::Hidden ==> after.cell(q).state == CellState::Revealed
    } by {
        let q = ns[j];
        lemma_index_in_range(w, h, q);
        assert(seeds[j + 1] == q);
        assert(cell_at(b, w, q) == with_state(after.cell(q), before.cell(q).state));
        assert(!placed.cell(q).is_mine);
    }
}

/// A reveal loses exactly when it hits a hidden mine, and a reveal that does
/// not hit one uncovers no mine.
pub proof fn lemma_reveal_loses_only_on_a_mine(before: GameView, after: GameView, p: (usize, usize))
    requires
        before.wf(),
        before.status == GameStatus::Playing,
        before.on_board(p),
        before.revealed_into(after, p),
    ensures
        (after.status == GameStatus::Lost) == before.reveal_hits_mine(p),
        !before.reveal_hits_mine(p) ==> forall|q: (usize, usize)|
            #[trigger] newly_revealed(before.cells, after.cells, before.width as int, before.height as int, q)
                ==> !after.cell(q).is_mine,
{
    let w = before.width as int;
    let h = before.height as int;
    let b = before.board_before_flood(after);
    let seeds = before.reveal_seeds(p);
    lemma_neighbors(w, h, p);
    lemma_index_in_range(w, h, p);
    if !before.reveal_hits_mine(p) {
        let placed = GameView { cells: b, started: true, ..before };
        if before.started {
            assert(b =~= before.cells);
        } else {
            assert(placed.mines_placed_from(before, p));
        }
        // The board before the fill carries consistent counts.
        assert(crate::grid::counts_consistent(b, w, h));
        let safe = Set::new(|q: (usize, usize)| in_bounds(w, h, q) && !cell_at(b, w, q).is_mine);
        assert forall|i: int|
            0 <= i < seeds.len() && crate::grid::hidden_at(b, w, #[trigger] seeds[i]) implies safe.contains(
            seeds[i],
        ) by {
            if i == 0 {
                assert(seeds[i] == p);
                assert(cell_at(b, w, p) == with_state(after.cell(p), before.cell(p).state));
            } else {
                assert(!before.started);
                let q = neighbors_of(w, h, p)[i - 1];
                assert(seeds[i] == q);
                assert(!placed.cell(q).is_mine);
            }
        }
        assert forall|q: (usize, usize), j: int|
            #![trigger safe.contains(q), neighbors_of(w, h, q)[j]]
            safe.contains(q) && in_bounds(w, h, q) && opens(b, w, q) && 0 <= j < neighbors_of(
                w,
                h,
                q,
            ).len() && crate::grid::hidden_at(b, w, neighbors_of(w, h, q)[j]) implies safe.contains(
            neighbors_of(w, h, q)[j],
        ) by {
            lemma_neighbors(w, h, q);
            assert(cell_at(b, w, q).adjacent_mines == adjacent_count(b, w, h, q));
            lemma_count_mines_zero(b, w, neighbors_of(w, h, q));
        }
        assert(flood_closed(b, w, h, seeds, safe));
        assert forall|q: (usize, usize)|
            #[trigger] newly_revealed(before.cells, after.cells, w, h, q) implies !after.cell(q).is_mine by {
            lemma_index_in_range(w, h, q);
            assert(cell_at(b, w, q) == with_state(after.cell(q), before.cell(q).state));
            assert(revealed_region(b, after.cells, w, h).contains(q));
        }
    }
}

/// Three steps of the marker cycle bring a cell back to where it started.
pub proof fn lemma_three_cycles_restore(g: GameView, p: (usize, usize))
    requires
        0 <= g.index(p) < g.cells.len(),
    ensures
        g.after_cycle(p).after_cycle(p).after_cycle(p) == g,
{
    let i = g.index(p);
    let s = g.cells[i].state;
    assert(cycled_state(cycled_state(cycled_state(s))) == s);
    assert(g.after_cycle(p).after_cycle(p).after_cycle(p).cells =~= g.cells);
}

/// Without question marks a right click never leaves a marker, and two right
/// clicks bring back a cell that carries none.
pub proof fn lemma_right_clicks_without_marker(g: GameView, p: (usize, usize))
    requires
        0 <= g.index(p) < g.cells.len(),
    ensures
        forall|s: CellState| #[trigger] right_click_state(s, false) != CellState::Marked,
        g.cells[g.index(p)].state != CellState::Marked ==> g.after_right_click(p, false).after_right_click(
            p,
            false,
        ) == g,
{
    let i = g.index(p);
    if g.cells[i].state != CellState::Marked {
        assert(g.after_right_click(p, false).after_right_click(p, false).cells =~= g.cells);
    }
}

/// A marker is not a flag: flagging an unflagged cell adds one to the number
/// of flags, and marking or clearing a flagged cell takes one away.
pub proof fn lemma_markers_are_not_flags(g: GameView, p: (usize, usize))
    requires
        0 <= g.index(p) < g.cells.len(),
        g.status == GameStatus::Playing,
        g.cells[g.index(p)].state != CellState::Revealed,
    ensures
        flag_count(g.with_marker(p, CellState::Flagged).cells) == flag_count(g.cells) + if g.cells[g.index(
            p,
        )].state == CellState::Flagged {
            0int
        } else {
            1int
        },
        flag_count(g.with_marker(p, CellState::Marked).cells) + if g.cells[g.index(p)].state
            == CellState::Flagged {
            1int
        } else {
            0int
        } == flag_count(g.cells),
        flag_count(g.with_marker(p, CellState::Hidden).cells) + if g.cells[g.index(p)].state
            == CellState::Flagged {
            1int
        } else {
            0int
        } == flag_count(g.cells),
{
    let i = g.index(p);
    let c = g.cells[i];
    let flagged = |x: Cell| x.state == CellState::Flagged;
    lemma_count_cells_update(g.cells, i, with_state(c, CellState::Flagged), flagged);
    lemma_count_cells_update(g.cells, i, with_state(c, CellState::Marked), flagged);
    lemma_count_cells_update(g.cells, i, with_state(c, CellState::Hidden), flagged);
}

/// The status of a well-formed game, and so of every game that the actions
/// reach from [`crate::MinesweeperGame::new`], is read off its board: the game
/// is lost exactly when some mine is revealed, and then every mine is; it is
/// won exactly when no mine is revealed and every cell without a mine is.
pub proof fn lemma_status_follows_board(g: GameView)
    requires
        g.wf(),
    ensures
        (g.status == GameStatus::Lost) == some_mine_revealed(g.cells),
        g.status == GameStatus::Lost ==> all_mines_revealed(g.cells),
        (g.status == GameStatus::Won) == (!some_mine_revealed(g.cells) && all_safe_revealed(g.cells)),
{
}

/// An action that puts or moves a marker on a cell.
pub enum MarkerAction {
    /// [`crate::MinesweeperGame::flag`].
    Flag,
    /// [`crate::MinesweeperGame::mark`].
    Mark,
    /// [`crate::MinesweeperGame::cycle_flag`].
    Cycle,
}

/// The game after the marker actions `acts`, in order, at `p`.
pub open spec fn after_marker_actions(g: GameView, p: (usize, usize), acts: Seq<MarkerAction>) -> GameView
    decreases acts.len(),
{
    if acts.len() == 0 {
        g
    } else {
        let prev = after_marker_actions(g, p, acts.drop_last());
        match acts.last() {
            MarkerAction::Flag => prev.with_marker(p, CellState::Flagged),
            MarkerAction::Mark => prev.with_marker(p, CellState::Marked),
            MarkerAction::Cycle => prev.after_cycle(p),
        }
    }
}

/// Marker actions on an unrevealed cell of a game being played change only
/// that cell's state, which stays unrevealed.
proof fn lemma_marker_actions_stay_unrevealed(g: GameView, p: (usize, usize), acts: Seq<MarkerAction>)
    requires
        0 <= g.index(p) < g.cells.len(),
        g.status == GameStatus::Playing,
        g.cells[g.index(p)].state != CellState::Revealed,
    ensures
        ({
            let r = after_marker_actions(g, p, acts);
            &&& r.cells[g.index(p)].state != CellState::Revealed
            &&& r == g.with_cell_state(g.index(p), r.cells[g.index(p)].state)
        }),
    decreases acts.len(),
{
    let i = g.index(p);
    if acts.len() == 0 {
        assert(g.with_cell_state(i, g.cells[i].state).cells =~= g.cells);
    } else {
        lemma_marker_actions_stay_unrevealed(g, p, acts.drop_last());
        let prev = after_marker_actions(g, p, acts.drop_last());
        let r = after_marker_actions(g, p, acts);
        assert(r.cells =~= g.with_cell_state(i, r.cells[i].state).cells);
    }
}

/// Clearing the marker undoes any sequence of flag, mark and cycle actions on
/// a hidden cell of a game being played.
pub proof fn lemma_clear_marker_undoes_markers(g: GameView, p: (usize, usize), acts: Seq<MarkerAction>)
    requires
        0 <= g.index(p) < g.cells.len(),
        g.status == GameStatus::Playing,
        g.cells[g.index(p)].state == CellState::Hidden,
    ensures
        after_marker_actions(g, p, acts).with_marker(p, CellState::Hidden) == g,
{
    lemma_marker_actions_stay_unrevealed(g, p, acts);
    let r = after_marker_actions(g, p, acts);
    assert(r.with_marker(p, CellState::Hidden).cells =~= g.cells);
}

/// A right click, with or without question marks, and a step of the marker
/// cycle never reveal a cell and never cover a revealed one: afterwards every
/// cell is revealed exactly when it was before and keeps its mine and count,
/// no cell but the clicked one changes, the rest of the game stays as it was,
/// and a click on a revealed cell changes nothing at all.
pub proof fn lemma_right_click_keeps_revealed(g: GameView, p: (usize, usize), question_marks: bool)
    requires
        0 <= g.index(p) < g.cells.len(),
    ensures
        ({
            let i = g.index(p);
            let r = g.after_right_click(p, question_marks);
            let c = g.after_cycle(p);
            &&& r == g.with_cells(r.cells)
            &&& c == g.with_cells(c.cells)
            &&& r.cells.len() == g.cells.len()
            &&& c.cells.len() == g.cells.len()
            &&& forall|j: int|
                0 <= j < g.cells.len() ==> ((#[trigger] r.cells[j]).state == CellState::Revealed) == (
                g.cells[j].state == CellState::Revealed) && r.cells[j].is_mine == g.cells[j].is_mine
                    && r.cells[j].adjacent_mines == g.cells[j].adjacent_mines
            &&& forall|j: int|
                0 <= j < g.cells.len() ==> ((#[trigger] c.cells[j]).state == CellState::Revealed) == (
                g.cells[j].state == CellState::Revealed) && c.cells[j].is_mine == g.cells[j].is_mine
                    && c.cells[j].adjacent_mines == g.cells[j].adjacent_mines
            &&& forall|j: int| 0 <= j < g.cells.len() && j != i ==> #[trigger] r.cells[j] == g.cells[j]
            &&& forall|j: int| 0 <= j < g.cells.len() && j != i ==> #[trigger] c.cells[j] == g.cells[j]
            &&& g.cells[i].state == CellState::Revealed ==> r == g && c == g
        }),
{
    let i = g.index(p);
    if g.cells[i].state == CellState::Revealed {
        assert(g.after_right_click(p, question_marks).cells =~= g.cells);
        assert(g.after_cycle(p).cells =~= g.cells);
    }
}

/// `flag`, `mark` and `clear_marker` put the cell in the state asked for:
/// while the game is being played an unrevealed cell ends up in exactly that
/// state, keeping its mine and count; a revealed cell, or a finished game,
/// stays as it was; no other cell changes; and doing the same action twice
/// is the same as doing it once.
pub proof fn lemma_marker_actions_set_the_state(g: GameView, p: (usize, usize), s: CellState)
    requires
        0 <= g.index(p) < g.cells.len(),
        s != CellState::Revealed,
    ensures
        ({
            let i = g.index(p);
            let r = g.with_marker(p, s);
            &&& r == g.with_cells(r.cells)
            &&& r.cells.len() == g.cells.len()
            &&& g.status == GameStatus::Playing && g.cells[i].state != CellState::Revealed ==> {
                &&& r.cells[i].state == s
                &&& r.cells[i].is_mine == g.cells[i].is_mine
                &&& r.cells[i].adjacent_mines == g.cells[i].adjacent_mines
            }
            &&& g.status != GameStatus::Playing || g.cells[i].state == CellState::Revealed ==> r == g
            &&& forall|j: int| 0 <= j < g.cells.len() && j != i ==> #[trigger] r.cells[j] == g.cells[j]
            &&& r.with_marker(p, s) == r
        }),
{
    let i = g.index(p);
    let r = g.with_marker(p, s);
    if g.status != GameStatus::Playing || g.cells[i].state == CellState::Revealed {
        assert(r.cells =~= g.cells);
    } else {
        assert(r.with_marker(p, s).cells =~= r.cells);
    }
}

} // verus!
