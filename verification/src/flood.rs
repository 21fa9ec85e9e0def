//! The proof of the flood-fill reveal: what holds after each step of the
//! iterative fill, and how the outcome of a reveal follows from it.

use vstd::prelude::*;

use crate::cell::{Cell, CellState, GameStatus};
use crate::game::{some_mine_revealed, with_state, GameView};
use crate::grid::{
    adjacent_count, all_safe_revealed, cell_at, cell_index, flood_closed,
    flood_filled, hidden_at, hidden_count, in_bounds, lemma_count_cells_some, lemma_count_cells_update,
    lemma_count_mines_zero, lemma_index_in_range, lemma_index_injective, lemma_neighbors,
    lemma_same_layout_consistent, neighbors_of, newly_revealed, opens, revealed_region,
    same_layout,
};

verus! {

/// What holds while the fill runs on the board `b`, with the current cells
/// `cur` and the pending positions `stack`, for a fill started from `seeds` at
/// `start` (on a game whose mines were already placed when `started`):
/// only hidden cells were revealed, and no mine; every pending position lies on
/// the board; a pending mine can only be `start` itself, before anything was
/// revealed; each hidden seed, and each hidden neighbour of a revealed cell
/// that opens, is revealed or pending; and every set closed under the fill
/// holds all revealed cells and all hidden pending ones.
pub open spec fn flood_progress(
    b: GameView,
    cur: Seq<Cell>,
    stack: Seq<(usize, usize)>,
    seeds: Seq<(usize, usize)>,
    start: (usize, usize),
    started: bool,
) -> bool {
    let w = b.width as int;
    let h = b.height as int;
    let board = b.cells;
    &&& same_layout(board, cur)
    &&& forall|i: int|
        0 <= i < board.len() ==> (#[trigger] cur[i]).state == board[i].state || (board[i].state
            == CellState::Hidden && cur[i].state == CellState::Revealed)
    &&& forall|k: int| 0 <= k < stack.len() ==> in_bounds(w, h, #[trigger] stack[k])
    &&& forall|k: int|
        0 <= k < stack.len() && (#[trigger] cell_at(board, w, stack[k])).is_mine ==> started && stack
            =~= seq![start] && cur == board
    &&& forall|p: (usize, usize)|
        #[trigger] newly_revealed(board, cur, w, h, p) ==> !cell_at(board, w, p).is_mine
    &&& forall|i: int|
        0 <= i < board.len() && (#[trigger] cur[i]).state == CellState::Revealed && board[i].state
            != CellState::Revealed ==> !board[i].is_mine
    &&& forall|i: int|
        0 <= i < seeds.len() && hidden_at(board, w, #[trigger] seeds[i]) ==> newly_revealed(
            board,
            cur,
            w,
            h,
            seeds[i],
        ) || stack.contains(seeds[i])
    &&& forall|p: (usize, usize), j: int|
        #![trigger newly_revealed(board, cur, w, h, p), neighbors_of(w, h, p)[j]]
        newly_revealed(board, cur, w, h, p) && opens(board, w, p) && 0 <= j < neighbors_of(
            w,
            h,
            p,
        ).len() && hidden_at(board, w, neighbors_of(w, h, p)[j]) ==> newly_revealed(
            board,
            cur,
            w,
            h,
            neighbors_of(w, h, p)[j],
        ) || stack.contains(neighbors_of(w, h, p)[j])
    &&& forall|g: Set<(usize, usize)>|
        #[trigger] flood_closed(board, w, h, seeds, g) ==> (forall|p: (usize, usize)|
            newly_revealed(board, cur, w, h, p) ==> g.contains(p)) && (forall|k: int|
            0 <= k < stack.len() && hidden_at(board, w, stack[k]) ==> g.contains(#[trigger] stack[k]))
}

/// The fill starts with the seeds pending and nothing revealed.
pub proof fn lemma_flood_start(
    b: GameView,
    seeds: Seq<(usize, usize)>,
    start: (usize, usize),
    started: bool,
)
    requires
        forall|k: int|
            0 <= k < seeds.len() ==> in_bounds(b.width as int, b.height as int, #[trigger] seeds[k])
                && (cell_at(b.cells, b.width as int, seeds[k]).is_mine ==> started && seeds =~= seq![start]),
    ensures
        flood_progress(b, b.cells, seeds, seeds, start, started),
{
    let w = b.width as int;
    let h = b.height as int;
    assert forall|i: int|
        0 <= i < seeds.len() && hidden_at(b.cells, w, #[trigger] seeds[i]) implies newly_revealed(
        b.cells,
        b.cells,
        w,
        h,
        seeds[i],
    ) || seeds.contains(seeds[i]) by {
        assert(seeds[i] == seeds[i]);
    }
}

/// Facts about the membership of a stack after its top is popped.
proof fn lemma_pop_contains(s: Seq<(usize, usize)>, q: (usize, usize))
    requires
        s.len() > 0,
        s.contains(q),
    ensures
        q == s.last() || s.drop_last().contains(q),
{
    let k = choose|k: int| 0 <= k < s.len() && s[k] == q;
    if k < s.len() - 1 {
        assert(s.drop_last()[k] == q);
    }
}

/// Popping a position that is no longer hidden keeps the fill's progress.
pub proof fn lemma_flood_skip(
    b: GameView,
    cur: Seq<Cell>,
    old_stack: Seq<(usize, usize)>,
    seeds: Seq<(usize, usize)>,
    start: (usize, usize),
    started: bool,
)
    requires
        flood_progress(b, cur, old_stack, seeds, start, started),
        b.cells.len() == b.width * b.height,
        old_stack.len() > 0,
        !hidden_at(cur, b.width as int, old_stack.last()),
    ensures
        flood_progress(b, cur, old_stack.drop_last(), seeds, start, started),
{
    let w = b.width as int;
    let h = b.height as int;
    let board = b.cells;
    let c = old_stack.last();
    let t = old_stack.drop_last();
    assert(in_bounds(w, h, old_stack[old_stack.len() - 1]));
    lemma_index_in_range(w, h, c);
    let ci = cell_index(w, c);
    assert(cur[ci].state == board[ci].state || (board[ci].state == CellState::Hidden && cur[ci].state
        == CellState::Revealed));
    assert(hidden_at(board, w, c) ==> newly_revealed(board, cur, w, h, c));
    assert forall|k: int| 0 <= k < t.len() implies in_bounds(w, h, #[trigger] t[k]) by {
        assert(t[k] == old_stack[k]);
    }
    assert forall|k: int|
        0 <= k < t.len() && (#[trigger] cell_at(board, w, t[k])).is_mine implies started && t =~= seq![
        start,
    ] && cur == board by {
        assert(t[k] == old_stack[k]);
    }
    assert forall|i: int|
        0 <= i < seeds.len() && hidden_at(board, w, #[trigger] seeds[i]) implies newly_revealed(
        board,
        cur,
        w,
        h,
        seeds[i],
    ) || t.contains(seeds[i]) by {
        if old_stack.contains(seeds[i]) {
            lemma_pop_contains(old_stack, seeds[i]);
        }
    }
    assert forall|p: (usize, usize), j: int|
        #![trigger newly_revealed(board, cur, w, h, p), neighbors_of(w, h, p)[j]]
        newly_revealed(board, cur, w, h, p) && opens(board, w, p) && 0 <= j < neighbors_of(
            w,
            h,
            p,
        ).len() && hidden_at(board, w, neighbors_of(w, h, p)[j]) implies newly_revealed(
        board,
        cur,
        w,
        h,
        neighbors_of(w, h, p)[j],
    ) || t.contains(neighbors_of(w, h, p)[j]) by {
        let q = neighbors_of(w, h, p)[j];
        if old_stack.contains(q) {
            lemma_pop_contains(old_stack, q);
        }
    }
    assert forall|g: Set<(usize, usize)>| #[trigger] flood_closed(board, w, h, seeds, g) implies (forall|
        p: (usize, usize),
    | newly_revealed(board, cur, w, h, p) ==> g.contains(p)) && (forall|k: int|
        0 <= k < t.len() && hidden_at(board, w, t[k]) ==> g.contains(#[trigger] t[k])) by {
        assert forall|k: int| 0 <= k < t.len() && hidden_at(board, w, t[k]) implies g.contains(
            #[trigger] t[k],
        ) by {
            assert(t[k] == old_stack[k]);
        }
    }
}

/// Revealing one hidden safe cell, and queueing its neighbours when it opens,
/// keeps the fill's progress, and leaves one hidden cell fewer.
pub proof fn lemma_flood_step(
    b: GameView,
    cur: Seq<Cell>,
    new: Seq<Cell>,
    old_stack: Seq<(usize, usize)>,
    new_stack: Seq<(usize, usize)>,
    seeds: Seq<(usize, usize)>,
    start: (usize, usize),
    started: bool,
)
    requires
        flood_progress(b, cur, old_stack, seeds, start, started),
        b.wf(),
        b.started,
        old_stack.len() > 0,
        hidden_at(cur, b.width as int, old_stack.last()),
        !cell_at(b.cells, b.width as int, old_stack.last()).is_mine,
        new == cur.update(
            cell_index(b.width as int, old_stack.last()),
            with_state(cur[cell_index(b.width as int, old_stack.last())], CellState::Revealed),
        ),
        new_stack == old_stack.drop_last() + if opens(b.cells, b.width as int, old_stack.last()) {
            neighbors_of(b.width as int, b.height as int, old_stack.last())
        } else {
            Seq::empty()
        },
    ensures
        flood_progress(b, new, new_stack, seeds, start, started),
        hidden_count(new) + 1 == hidden_count(cur),
        new_stack.len() <= old_stack.len() + 7,
{
    let w = b.width as int;
    let h = b.height as int;
    let board = b.cells;
    let c = old_stack.last();
    let t = old_stack.drop_last();
    let ns = if opens(board, w, c) {
        neighbors_of(w, h, c)
    } else {
        Seq::<(usize, usize)>::empty()
    };
    assert(in_bounds(w, h, old_stack[old_stack.len() - 1]));
    lemma_index_in_range(w, h, c);
    lemma_neighbors(w, h, c);
    let ci = cell_index(w, c);
    assert(cur[ci].state == board[ci].state || (board[ci].state == CellState::Hidden && cur[ci].state
        == CellState::Revealed));
    assert(hidden_at(board, w, c));
    lemma_count_cells_update(
        cur,
        ci,
        with_state(cur[ci], CellState::Revealed),
        |x: Cell| x.state == CellState::Hidden,
    );
    // Which cells are revealed now.
    assert forall|p: (usize, usize)| in_bounds(w, h, p) && p != c implies #[trigger] cell_at(new, w, p)
        == cell_at(cur, w, p) by {
        lemma_index_in_range(w, h, p);
        if cell_index(w, p) == ci {
            lemma_index_injective(w, h, p, c);
        }
    }
    assert forall|p: (usize, usize)| #[trigger]
        newly_revealed(board, new, w, h, p) == (newly_revealed(board, cur, w, h, p) || p == c) by {
        if in_bounds(w, h, p) && p != c {
            assert(cell_at(new, w, p) == cell_at(cur, w, p));
        }
    }
    // The neighbours of an opening cell hold no mine.
    if opens(board, w, c) {
        assert(cell_at(board, w, c).adjacent_mines == adjacent_count(board, w, h, c));
        lemma_count_mines_zero(board, w, neighbors_of(w, h, c));
    }
    assert forall|k: int| 0 <= k < new_stack.len() implies in_bounds(w, h, #[trigger] new_stack[k])
        && (cell_at(board, w, new_stack[k]).is_mine ==> started && new_stack =~= seq![start] && new
        == board) by {
        if k < t.len() {
            assert(new_stack[k] == old_stack[k]);
        } else {
            assert(new_stack[k] == ns[k - t.len()]);
        }
    }
    assert forall|i: int| 0 <= i < board.len() implies (#[trigger] new[i]).state == board[i].state
        || (board[i].state == CellState::Hidden && new[i].state == CellState::Revealed) by {
        if i != ci {
            assert(new[i] == cur[i]);
        }
    }
    assert(same_layout(board, new));
    assert forall|i: int|
        0 <= i < board.len() && (#[trigger] new[i]).state == CellState::Revealed && board[i].state
            != CellState::Revealed implies !board[i].is_mine by {
        if i != ci {
            assert(new[i] == cur[i]);
        }
    }
    // Membership in the new stack.
    assert forall|q: (usize, usize)| t.contains(q) implies new_stack.contains(q) by {
        let k = choose|k: int| 0 <= k < t.len() && t[k] == q;
        assert(new_stack[k] == q);
    }
    assert forall|i: int|
        0 <= i < seeds.len() && hidden_at(board, w, #[trigger] seeds[i]) implies newly_revealed(
        board,
        new,
        w,
        h,
        seeds[i],
    ) || new_stack.contains(seeds[i]) by {
        assert(newly_revealed(board, new, w, h, seeds[i]) == (newly_revealed(board, cur, w, h, seeds[i])
            || seeds[i] == c));
        if old_stack.contains(seeds[i]) {
            lemma_pop_contains(old_stack, seeds[i]);
        }
    }
    assert forall|p: (usize, usize), j: int|
        #![trigger newly_revealed(board, new, w, h, p), neighbors_of(w, h, p)[j]]
        newly_revealed(board, new, w, h, p) && opens(board, w, p) && 0 <= j < neighbors_of(
            w,
            h,
            p,
        ).len() && hidden_at(board, w, neighbors_of(w, h, p)[j]) implies newly_revealed(
        board,
        new,
        w,
        h,
        neighbors_of(w, h, p)[j],
    ) || new_stack.contains(neighbors_of(w, h, p)[j]) by {
        let q = neighbors_of(w, h, p)[j];
        assert(newly_revealed(board, new, w, h, q) == (newly_revealed(board, cur, w, h, q) || q == c));
        if p == c {
            assert(new_stack[t.len() + j] == q);
        } else {
            assert(newly_revealed(board, cur, w, h, p));
            if old_stack.contains(q) {
                lemma_pop_contains(old_stack, q);
            }
        }
    }
    assert forall|g: Set<(usize, usize)>| #[trigger] flood_closed(board, w, h, seeds, g) implies (forall|
        p: (usize, usize),
    | newly_revealed(board, new, w, h, p) ==> g.contains(p)) && (forall|k: int|
        0 <= k < new_stack.len() && hidden_at(board, w, new_stack[k]) ==> g.contains(
            #[trigger] new_stack[k],
        )) by {
        assert(g.contains(old_stack[old_stack.len() - 1]));
        assert forall|p: (usize, usize)| newly_revealed(board, new, w, h, p) implies g.contains(p) by {
            assert(newly_revealed(board, new, w, h, p) == (newly_revealed(board, cur, w, h, p) || p
                == c));
        }
        assert forall|k: int| 0 <= k < new_stack.len() && hidden_at(board, w, new_stack[k]) implies g.contains(
            #[trigger] new_stack[k],
        ) by {
            if k < t.len() {
                assert(new_stack[k] == old_stack[k]);
            } else {
                let j = k - t.len();
                assert(new_stack[k] == neighbors_of(w, h, c)[j]);
                assert(g.contains(c) && in_bounds(w, h, c) && opens(board, w, c) && 0 <= j
                    < neighbors_of(w, h, c).len() && hidden_at(board, w, neighbors_of(w, h, c)[j]));
            }
        }
    }
    assert forall|p: (usize, usize)| #[trigger] newly_revealed(board, new, w, h, p) implies !cell_at(
        board,
        w,
        p,
    ).is_mine by {
        assert(newly_revealed(board, new, w, h, p) == (newly_revealed(board, cur, w, h, p) || p == c));
    }
}

/// The outcome of a reveal that hits a hidden mine: the game is lost and every
/// mine is revealed.
pub proof fn lemma_loss_outcome(pre: GameView, b: GameView, after: GameView, start: (usize, usize))
    requires
        pre.wf(),
        pre.status == GameStatus::Playing,
        pre.on_board(start),
        pre.started,
        b == pre,
        hidden_at(b.cells, b.width as int, start),
        cell_at(b.cells, b.width as int, start).is_mine,
        after == b.with_cells(
            Seq::new(
                b.cells.len(),
                |i: int|
                    if b.cells[i].is_mine {
                        with_state(b.cells[i], CellState::Revealed)
                    } else {
                        b.cells[i]
                    },
            ),
        ).with_status(GameStatus::Lost),
    ensures
        after.wf(),
        pre.revealed_into(after, start),
{
    let w = pre.width as int;
    let h = pre.height as int;
    assert(pre.board_before_flood(after) =~= pre.cells);
    assert(same_layout(pre.cells, after.cells));
    lemma_same_layout_consistent(pre.cells, after.cells, w, h);
    lemma_index_in_range(w, h, start);
    lemma_count_cells_some(after.cells, |c: Cell| c.is_mine, cell_index(w, start));
}

/// The outcome of a reveal whose fill ran to the end: exactly the fill is
/// revealed, and the game is won when every safe cell is.
pub proof fn lemma_flood_outcome(
    pre: GameView,
    b: GameView,
    after: GameView,
    seeds: Seq<(usize, usize)>,
    stack: Seq<(usize, usize)>,
    start: (usize, usize),
)
    requires
        pre.wf(),
        pre.status == GameStatus::Playing,
        pre.on_board(start),
        if pre.started {
            b == pre
        } else {
            b.mines_placed_from(pre, start)
        },
        b.wf(),
        b.started,
        b.status == GameStatus::Playing,
        seeds == pre.reveal_seeds(start),
        stack.len() == 0,
        flood_progress(b, after.cells, stack, seeds, start, pre.started),
        after == b.with_cells(after.cells).with_status(
            if all_safe_revealed(after.cells) {
                GameStatus::Won
            } else {
                GameStatus::Playing
            },
        ),
    ensures
        after.wf(),
        pre.revealed_into(after, start),
{
    let w = pre.width as int;
    let h = pre.height as int;
    let board = b.cells;
    let region = revealed_region(board, after.cells, w, h);
    assert(pre.board_before_flood(after) =~= board);
    lemma_same_layout_consistent(board, after.cells, w, h);
    assert forall|i: int|
        0 <= i < seeds.len() && hidden_at(board, w, #[trigger] seeds[i]) implies region.contains(
        seeds[i],
    ) by {
        if stack.contains(seeds[i]) {
            let k = choose|k: int| 0 <= k < stack.len() && stack[k] == seeds[i];
        }
    }
    assert forall|p: (usize, usize), j: int|
        #![trigger region.contains(p), neighbors_of(w, h, p)[j]]
        region.contains(p) && in_bounds(w, h, p) && opens(board, w, p) && 0 <= j < neighbors_of(
            w,
            h,
            p,
        ).len() && hidden_at(board, w, neighbors_of(w, h, p)[j]) implies region.contains(
        neighbors_of(w, h, p)[j],
    ) by {
        assert(newly_revealed(board, after.cells, w, h, p));
        let q = neighbors_of(w, h, p)[j];
        if stack.contains(q) {
            let k = choose|k: int| 0 <= k < stack.len() && stack[k] == q;
        }
    }
    assert(flood_closed(board, w, h, seeds, region));
    assert forall|g: Set<(usize, usize)>| #[trigger] flood_closed(board, w, h, seeds, g) implies region.subset_of(
        g,
    ) by {
        assert forall|p: (usize, usize)| region.contains(p) implies g.contains(p) by {
            assert(newly_revealed(board, after.cells, w, h, p));
        }
    }
    assert(flood_filled(board, after.cells, w, h, seeds));
    assert(!some_mine_revealed(board)) by {
        if some_mine_revealed(board) {
            let i = choose|i: int|
                0 <= i < board.len() && (#[trigger] board[i]).is_mine && board[i].state
                    == CellState::Revealed;
            assert(board[i].state == pre.cells[i].state);
            if !pre.started {
                assert(pre.cells[i].state != CellState::Revealed);
            } else {
                assert(pre.cells[i].is_mine);
            }
        }
    }
    assert(!some_mine_revealed(after.cells)) by {
        if some_mine_revealed(after.cells) {
            let i = choose|i: int|
                0 <= i < after.cells.len() && (#[trigger] after.cells[i]).is_mine && after.cells[i].state
                    == CellState::Revealed;
            assert(board[i].is_mine);
        }
    }
    if pre.reveal_hits_mine(start) {
        assert(seeds[0] == start);
        assert(hidden_at(board, w, seeds[0]));
        if stack.contains(seeds[0]) {
            let k = choose|k: int| 0 <= k < stack.len() && stack[k] == seeds[0];
        }
        assert(newly_revealed(board, after.cells, w, h, start));
    }
}

} // verus!
