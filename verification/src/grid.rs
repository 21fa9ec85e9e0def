//! The mathematical model of a board: a row-major sequence of cells, positions
//! as `(x, y)` pairs, the eight-neighbourhood of a position, and counts over
//! cells.

use vstd::prelude::*;

use crate::cell::{Cell, CellState};

verus! {

/// Position of cell `(x, y)` in the row-major cell sequence of a board `w` cells wide.
pub open spec fn cell_index(w: int, p: (usize, usize)) -> int {
    p.1 * w + p.0
}

/// Whether `p` lies on a board of `w` columns and `h` rows.
pub open spec fn in_bounds(w: int, h: int, p: (usize, usize)) -> bool {
    p.0 < w && p.1 < h
}

/// The cell at position `p`.
pub open spec fn cell_at(cells: Seq<Cell>, w: int, p: (usize, usize)) -> Cell {
    cells[cell_index(w, p)]
}

/// Horizontal offset of the `k`-th neighbour, in the order
/// (-1,-1) (0,-1) (1,-1) (-1,0) (1,0) (-1,1) (0,1) (1,1).
pub open spec fn offset_dx(k: int) -> int {
    if k == 0 || k == 3 || k == 5 {
        -1
    } else if k == 1 || k == 6 {
        0
    } else {
        1
    }
}

/// Vertical offset of the `k`-th neighbour (see [`offset_dx`]).
pub open spec fn offset_dy(k: int) -> int {
    if k < 3 {
        -1
    } else if k < 5 {
        0
    } else {
        1
    }
}

/// The `k`-th neighbour of `p`, when it lies on the board.
pub open spec fn neighbor_at(w: int, h: int, p: (usize, usize), k: int) -> Option<(usize, usize)> {
    let nx = p.0 + offset_dx(k);
    let ny = p.1 + offset_dy(k);
    if 0 <= nx < w && 0 <= ny < h {
        Some((nx as usize, ny as usize))
    } else {
        None
    }
}

/// The neighbours among the first `k` offsets that lie on the board, in offset order.
pub open spec fn neighbor_prefix(w: int, h: int, p: (usize, usize), k: nat) -> Seq<(usize, usize)>
    decreases k,
{
    if k == 0 {
        Seq::empty()
    } else {
        let prev = neighbor_prefix(w, h, p, (k - 1) as nat);
        match neighbor_at(w, h, p, k - 1) {
            Some(q) => prev.push(q),
            None => prev,
        }
    }
}

/// The on-board cells among the eight that surround `p`, row by row from the top left.
pub open spec fn neighbors_of(w: int, h: int, p: (usize, usize)) -> Seq<(usize, usize)> {
    neighbor_prefix(w, h, p, 8)
}

/// Whether `q` is one of the eight cells around `p`.
pub open spec fn adjacent(p: (usize, usize), q: (usize, usize)) -> bool {
    &&& q != p
    &&& p.0 - 1 <= q.0 <= p.0 + 1
    &&& p.1 - 1 <= q.1 <= p.1 + 1
}

/// Number of mines at the positions `ps`, each counted once per occurrence.
pub open spec fn count_mines(cells: Seq<Cell>, w: int, ps: Seq<(usize, usize)>) -> nat
    decreases ps.len(),
{
    if ps.len() == 0 {
        0
    } else {
        count_mines(cells, w, ps.drop_last()) + if cell_at(cells, w, ps.last()).is_mine {
            1nat
        } else {
            0nat
        }
    }
}

/// Number of mines around `p`.
pub open spec fn adjacent_count(cells: Seq<Cell>, w: int, h: int, p: (usize, usize)) -> nat {
    count_mines(cells, w, neighbors_of(w, h, p))
}

/// Every cell carries the number of mines around it, and a mine carries 0.
pub open spec fn counts_consistent(cells: Seq<Cell>, w: int, h: int) -> bool {
    forall|p: (usize, usize)|
        #![trigger cell_at(cells, w, p)]
        in_bounds(w, h, p) ==> cell_at(cells, w, p).adjacent_mines == if cell_at(
            cells,
            w,
            p,
        ).is_mine {
            0
        } else {
            adjacent_count(cells, w, h, p)
        }
}

/// No cell holds a mine and every count is 0, as on a board before mines are placed.
pub open spec fn pristine_layout(cells: Seq<Cell>) -> bool {
    forall|i: int| 0 <= i < cells.len() ==> !(#[trigger] cells[i]).is_mine && cells[i].adjacent_mines == 0
}

/// Two boards agree on where the mines are and on every count.
pub open spec fn same_layout(a: Seq<Cell>, b: Seq<Cell>) -> bool {
    &&& a.len() == b.len()
    &&& forall|i: int|
        0 <= i < a.len() ==> (#[trigger] a[i]).is_mine == b[i].is_mine && a[i].adjacent_mines
            == b[i].adjacent_mines
}

/// Two boards agree on the state of every cell.
pub open spec fn same_states(a: Seq<Cell>, b: Seq<Cell>) -> bool {
    &&& a.len() == b.len()
    &&& forall|i: int| 0 <= i < a.len() ==> (#[trigger] a[i]).state == b[i].state
}

/// Number of cells of `s` that satisfy `pred`.
pub open spec fn count_cells(s: Seq<Cell>, pred: spec_fn(Cell) -> bool) -> nat
    decreases s.len(),
{
    if s.len() == 0 {
        0
    } else {
        count_cells(s.drop_last(), pred) + if pred(s.last()) {
            1nat
        } else {
            0nat
        }
    }
}

/// Number of flagged cells.
pub open spec fn flag_count(s: Seq<Cell>) -> nat {
    count_cells(s, |c: Cell| c.state == CellState::Flagged)
}

/// Number of hidden cells.
pub open spec fn hidden_count(s: Seq<Cell>) -> nat {
    count_cells(s, |c: Cell| c.state == CellState::Hidden)
}

/// Number of mines on the board.
pub open spec fn mine_count(s: Seq<Cell>) -> nat {
    count_cells(s, |c: Cell| c.is_mine)
}

/// Every cell without a mine has been revealed.
pub open spec fn all_safe_revealed(s: Seq<Cell>) -> bool {
    forall|i: int| 0 <= i < s.len() ==> (#[trigger] s[i]).is_mine || s[i].state == CellState::Revealed
}

/// Every mine has been revealed.
pub open spec fn all_mines_revealed(s: Seq<Cell>) -> bool {
    forall|i: int| 0 <= i < s.len() ==> (#[trigger] s[i]).is_mine ==> s[i].state == CellState::Revealed
}

/// Indices of the cells that the first reveal at `p` keeps free of mines: the
/// cell at `p` followed by its neighbours.
pub open spec fn safe_zone(w: int, h: int, p: (usize, usize)) -> Seq<usize> {
    seq![cell_index(w, p) as usize] + neighbors_of(w, h, p).map_values(
        |q: (usize, usize)| cell_index(w, q) as usize,
    )
}

/// The indices below `n` that `zone` does not hold, in increasing order.
pub open spec fn indices_outside(zone: Seq<usize>, n: nat) -> Seq<usize>
    decreases n,
{
    if n == 0 {
        Seq::empty()
    } else {
        let prev = indices_outside(zone, (n - 1) as nat);
        if zone.contains((n - 1) as usize) {
            prev
        } else {
            prev.push((n - 1) as usize)
        }
    }
}

/// A cell without a mine and without mines around it: revealing it opens its neighbours.
pub open spec fn opens(cells: Seq<Cell>, w: int, p: (usize, usize)) -> bool {
    !cell_at(cells, w, p).is_mine && cell_at(cells, w, p).adjacent_mines == 0
}

/// Whether the cell at `p` is hidden.
pub open spec fn hidden_at(cells: Seq<Cell>, w: int, p: (usize, usize)) -> bool {
    cell_at(cells, w, p).state == CellState::Hidden
}

/// The set `g` is closed under flood fill on the board `board` from `seeds`:
/// it holds every hidden seed, and with every on-board cell that opens, every
/// hidden neighbour of that cell.
pub open spec fn flood_closed(
    board: Seq<Cell>,
    w: int,
    h: int,
    seeds: Seq<(usize, usize)>,
    g: Set<(usize, usize)>,
) -> bool {
    &&& forall|i: int|
        0 <= i < seeds.len() && hidden_at(board, w, #[trigger] seeds[i]) ==> g.contains(seeds[i])
    &&& forall|p: (usize, usize), j: int|
        #![trigger g.contains(p), neighbors_of(w, h, p)[j]]
        g.contains(p) && in_bounds(w, h, p) && opens(board, w, p) && 0 <= j < neighbors_of(
            w,
            h,
            p,
        ).len() && hidden_at(board, w, neighbors_of(w, h, p)[j]) ==> g.contains(
            neighbors_of(w, h, p)[j],
        )
}

/// The cell at `p` was hidden on `before` and is revealed on `after`.
pub open spec fn newly_revealed(
    before: Seq<Cell>,
    after: Seq<Cell>,
    w: int,
    h: int,
    p: (usize, usize),
) -> bool {
    &&& in_bounds(w, h, p)
    &&& hidden_at(before, w, p)
    &&& cell_at(after, w, p).state == CellState::Revealed
}

/// The positions revealed in going from `before` to `after`.
pub open spec fn revealed_region(before: Seq<Cell>, after: Seq<Cell>, w: int, h: int) -> Set<
    (usize, usize),
> {
    Set::new(|p: (usize, usize)| newly_revealed(before, after, w, h, p))
}

/// `after` is `before` with exactly the flood fill from `seeds` revealed: only
/// hidden cells turned revealed, and the revealed positions form the smallest
/// set that is closed under flood fill from `seeds`.
pub open spec fn flood_filled(
    before: Seq<Cell>,
    after: Seq<Cell>,
    w: int,
    h: int,
    seeds: Seq<(usize, usize)>,
) -> bool {
    &&& same_layout(before, after)
    &&& forall|i: int|
        0 <= i < before.len() ==> (#[trigger] after[i]).state == before[i].state || (before[i].state
            == CellState::Hidden && after[i].state == CellState::Revealed)
    &&& flood_closed(before, w, h, seeds, revealed_region(before, after, w, h))
    &&& forall|g: Set<(usize, usize)>|
        #[trigger] flood_closed(before, w, h, seeds, g) ==> revealed_region(
            before,
            after,
            w,
            h,
        ).subset_of(g)
}

// ─── Lemmas ────────────────────────────────────────────────────────────────────

/// An on-board position has an index inside the cell sequence.
pub proof fn lemma_index_in_range(w: int, h: int, p: (usize, usize))
    requires
        in_bounds(w, h, p),
    ensures
        0 <= cell_index(w, p) < w * h,
{
    let x = p.0 as int;
    let y = p.1 as int;
    assert(0 <= y * w + x < w * h) by (nonlinear_arith)
        requires
            0 <= x < w,
            0 <= y < h,
    ;
}

/// Distinct on-board positions have distinct indices.
pub proof fn lemma_index_injective(w: int, h: int, p: (usize, usize), q: (usize, usize))
    requires
        in_bounds(w, h, p),
        in_bounds(w, h, q),
        cell_index(w, p) == cell_index(w, q),
    ensures
        p == q,
{
    let (x1, y1, x2, y2) = (p.0 as int, p.1 as int, q.0 as int, q.1 as int);
    assert(y1 == y2) by (nonlinear_arith)
        requires
            0 <= x1 < w,
            0 <= x2 < w,
            y1 >= 0,
            y2 >= 0,
            y1 * w + x1 == y2 * w + x2,
    {
        if y1 < y2 {
            assert(y1 * w + w <= y2 * w);
        } else if y2 < y1 {
            assert(y2 * w + w <= y1 * w);
        }
    }
}

/// Each neighbour lies on the board and is adjacent to `p`; there are at most `k`.
pub proof fn lemma_neighbor_prefix(w: int, h: int, p: (usize, usize), k: nat)
    requires
        k <= 8,
        w <= usize::MAX,
        h <= usize::MAX,
    ensures
        neighbor_prefix(w, h, p, k).len() <= k,
        forall|j: int|
            0 <= j < neighbor_prefix(w, h, p, k).len() ==> in_bounds(
                w,
                h,
                #[trigger] neighbor_prefix(w, h, p, k)[j],
            ) && adjacent(p, neighbor_prefix(w, h, p, k)[j]),
    decreases k,
{
    if k > 0 {
        lemma_neighbor_prefix(w, h, p, (k - 1) as nat);
    }
}

/// Each of the neighbours of `p` lies on the board and is adjacent to `p`; there are at most 8.
pub proof fn lemma_neighbors(w: int, h: int, p: (usize, usize))
    requires
        w <= usize::MAX,
        h <= usize::MAX,
    ensures
        neighbors_of(w, h, p).len() <= 8,
        forall|j: int|
            0 <= j < neighbors_of(w, h, p).len() ==> in_bounds(w, h, #[trigger] neighbors_of(w, h, p)[j])
                && adjacent(p, neighbors_of(w, h, p)[j]),
{
    lemma_neighbor_prefix(w, h, p, 8);
}

/// At most one mine per listed position.
pub proof fn lemma_count_mines_bound(cells: Seq<Cell>, w: int, ps: Seq<(usize, usize)>)
    ensures
        count_mines(cells, w, ps) <= ps.len(),
    decreases ps.len(),
{
    if ps.len() > 0 {
        lemma_count_mines_bound(cells, w, ps.drop_last());
    }
}

/// A count of 0 means that none of the listed positions holds a mine.
pub proof fn lemma_count_mines_zero(cells: Seq<Cell>, w: int, ps: Seq<(usize, usize)>)
    requires
        count_mines(cells, w, ps) == 0,
    ensures
        forall|j: int| 0 <= j < ps.len() ==> !cell_at(cells, w, #[trigger] ps[j]).is_mine,
    decreases ps.len(),
{
    if ps.len() > 0 {
        lemma_count_mines_zero(cells, w, ps.drop_last());
        assert forall|j: int| 0 <= j < ps.len() implies !cell_at(cells, w, #[trigger] ps[j]).is_mine by {
            if j < ps.len() - 1 {
                assert(ps[j] == ps.drop_last()[j]);
            }
        }
    }
}

/// The count of mines at some positions depends only on where the mines are.
pub proof fn lemma_count_mines_same_mines(
    a: Seq<Cell>,
    b: Seq<Cell>,
    w: int,
    h: int,
    ps: Seq<(usize, usize)>,
)
    requires
        a.len() == w * h,
        b.len() == w * h,
        forall|i: int| 0 <= i < a.len() ==> (#[trigger] a[i]).is_mine == b[i].is_mine,
        forall|j: int| 0 <= j < ps.len() ==> in_bounds(w, h, #[trigger] ps[j]),
    ensures
        count_mines(a, w, ps) == count_mines(b, w, ps),
    decreases ps.len(),
{
    if ps.len() > 0 {
        let last = ps.last();
        assert(in_bounds(w, h, ps[ps.len() - 1]));
        lemma_index_in_range(w, h, last);
        lemma_count_mines_same_mines(a, b, w, h, ps.drop_last());
    }
}

/// Boards with the same layout agree on whether their counts are consistent.
pub proof fn lemma_same_layout_consistent(a: Seq<Cell>, b: Seq<Cell>, w: int, h: int)
    requires
        same_layout(a, b),
        a.len() == w * h,
        w <= usize::MAX,
        h <= usize::MAX,
        counts_consistent(a, w, h),
    ensures
        counts_consistent(b, w, h),
{
    assert forall|p: (usize, usize)| in_bounds(w, h, p) implies #[trigger] cell_at(b, w, p).adjacent_mines
        == if cell_at(b, w, p).is_mine {
        0
    } else {
        adjacent_count(b, w, h, p)
    } by {
        lemma_index_in_range(w, h, p);
        lemma_neighbors(w, h, p);
        lemma_count_mines_same_mines(a, b, w, h, neighbors_of(w, h, p));
        assert(cell_at(a, w, p).adjacent_mines == if cell_at(a, w, p).is_mine {
            0
        } else {
            adjacent_count(a, w, h, p)
        });
    }
}

/// Replacing one cell changes a count by what that cell contributed and contributes.
pub proof fn lemma_count_cells_update(s: Seq<Cell>, i: int, c: Cell, pred: spec_fn(Cell) -> bool)
    requires
        0 <= i < s.len(),
    ensures
        count_cells(s.update(i, c), pred) + (if pred(s[i]) {
            1int
        } else {
            0int
        }) == count_cells(s, pred) + (if pred(c) {
            1int
        } else {
            0int
        }),
    decreases s.len(),
{
    let t = s.update(i, c);
    if i == s.len() - 1 {
        assert(t.drop_last() =~= s.drop_last());
    } else {
        assert(t.drop_last() =~= s.drop_last().update(i, c));
        lemma_count_cells_update(s.drop_last(), i, c, pred);
    }
}

/// A count over cells is at most the number of cells.
pub proof fn lemma_count_cells_bound(s: Seq<Cell>, pred: spec_fn(Cell) -> bool)
    ensures
        count_cells(s, pred) <= s.len(),
    decreases s.len(),
{
    if s.len() > 0 {
        lemma_count_cells_bound(s.drop_last(), pred);
    }
}

/// The indices outside a zone are below the bound, outside the zone, and distinct.
pub proof fn lemma_indices_outside(zone: Seq<usize>, n: nat)
    requires
        n <= usize::MAX + 1,
    ensures
        indices_outside(zone, n).len() <= n,
        forall|j: int|
            0 <= j < indices_outside(zone, n).len() ==> (#[trigger] indices_outside(zone, n)[j]) < n
                && !zone.contains(indices_outside(zone, n)[j]),
        indices_outside(zone, n).no_duplicates(),
    decreases n,
{
    if n > 0 {
        lemma_indices_outside(zone, (n - 1) as nat);
    }
}

/// A count over cells that no cell satisfies is 0.
pub proof fn lemma_count_cells_none(s: Seq<Cell>, pred: spec_fn(Cell) -> bool)
    requires
        forall|i: int| 0 <= i < s.len() ==> !pred(#[trigger] s[i]),
    ensures
        count_cells(s, pred) == 0,
    decreases s.len(),
{
    if s.len() > 0 {
        assert(!pred(s[s.len() - 1]));
        lemma_count_cells_none(s.drop_last(), pred);
    }
}

/// Cell sequences that agree on a predicate cell by cell have the same count.
pub proof fn lemma_count_cells_same(a: Seq<Cell>, b: Seq<Cell>, pred: spec_fn(Cell) -> bool)
    requires
        a.len() == b.len(),
        forall|i: int| 0 <= i < a.len() ==> pred(#[trigger] a[i]) == pred(b[i]),
    ensures
        count_cells(a, pred) == count_cells(b, pred),
    decreases a.len(),
{
    if a.len() > 0 {
        assert(pred(a[a.len() - 1]) == pred(b[b.len() - 1]));
        lemma_count_cells_same(a.drop_last(), b.drop_last(), pred);
    }
}

/// A count over cells is positive when some cell satisfies the predicate.
pub proof fn lemma_count_cells_some(s: Seq<Cell>, pred: spec_fn(Cell) -> bool, i: int)
    requires
        0 <= i < s.len(),
        pred(s[i]),
    ensures
        count_cells(s, pred) > 0,
    decreases s.len(),
{
    if i < s.len() - 1 {
        assert(s.drop_last()[i] == s[i]);
        lemma_count_cells_some(s.drop_last(), pred, i);
    }
}

/// A count over cells that every cell satisfies is the number of cells.
pub proof fn lemma_count_cells_all(s: Seq<Cell>, pred: spec_fn(Cell) -> bool)
    requires
        forall|i: int| 0 <= i < s.len() ==> pred(#[trigger] s[i]),
    ensures
        count_cells(s, pred) == s.len(),
    decreases s.len(),
{
    if s.len() > 0 {
        assert(pred(s[s.len() - 1]));
        lemma_count_cells_all(s.drop_last(), pred);
    }
}

/// When the zone holds an index below `n`, fewer than `n` indices below `n`
/// lie outside it.
pub proof fn lemma_outside_bound(zone: Seq<usize>, n: nat, c: usize)
    requires
        zone.contains(c),
        c < n <= usize::MAX + 1,
    ensures
        indices_outside(zone, n).len() < n,
    decreases n,
{
    if n - 1 == c {
        lemma_indices_outside(zone, (n - 1) as nat);
    } else {
        lemma_outside_bound(zone, (n - 1) as nat, c);
    }
}

} // verus!
