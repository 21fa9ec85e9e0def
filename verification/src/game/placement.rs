//! Mine placement: the zone kept free of mines around the first revealed
//! cell, the random choice of mine cells, and the counts of adjacent mines.

use vstd::prelude::*;

use crate::cell::{Cell, CellState, GameStatus};
use crate::game::{GameView, MinesweeperGame};
use crate::grid::{
    adjacent_count, cell_at, cell_index, count_mines, counts_consistent, in_bounds, indices_outside,
    lemma_count_cells_none, lemma_count_cells_same, lemma_count_cells_update, lemma_count_mines_bound,
    lemma_count_mines_same_mines, lemma_index_in_range, lemma_index_injective, lemma_indices_outside,
    lemma_neighbors, mine_count, neighbors_of, pristine_layout, same_states, all_safe_revealed,
    lemma_count_cells_all, lemma_outside_bound,
};
use crate::random::random_below;

verus! {

/// Whether one of the first `k` entries of `s` is `i`.
spec fn listed_before(s: Seq<usize>, k: int, i: int) -> bool {
    exists|j: int| 0 <= j < k && s[j] == i
}

impl MinesweeperGame {
    // ── Mine placement ────────────────────────────────────────────────────────
    /// Number of mines around `(x, y)`.
    fn count_adjacent(&self, x: usize, y: usize) -> (n: u8)
        requires
            x < self.width,
            y < self.height,
            self.cells@.len() == self.width * self.height,
        ensures
            n == adjacent_count(self@.cells, self.width as int, self.height as int, (x, y)),
    {
        let ns = self.neighbors(x, y);
        let ghost w = self.width as int;
        let ghost h = self.height as int;
        proof {
            lemma_neighbors(w, h, (x, y));
        }
        let mut count: u8 = 0;
        let mut j: usize = 0;
        while j < ns.len()
            invariant
                ns@ == neighbors_of(w, h, (x, y)),
                ns@.len() <= 8,
                j <= ns@.len(),
                w == self.width,
                h == self.height,
                self.cells@.len() == w * h,
                forall|k: int| 0 <= k < ns@.len() ==> in_bounds(w, h, #[trigger] ns@[k]),
                count == count_mines(self@.cells, w, ns@.take(j as int)),
            decreases ns@.len() - j,
        {
            let (nx, ny) = ns[j];
            proof {
                assert(in_bounds(w, h, ns@[j as int]));
                lemma_index_in_range(w, h, (nx, ny));
                lemma_count_mines_bound(self@.cells, w, ns@.take(j as int));
                assert(ns@.take(j + 1).drop_last() =~= ns@.take(j as int));
            }
            assert(self.cells@.len() == self.cells.len());
            let i = self.idx(nx, ny);
            if self.cells[i].is_mine {
                count = count + 1;
            }
            j = j + 1;
        }
        assert(ns@.take(j as int) =~= ns@);
        count
    }

    /// Give every cell without a mine the number of mines around it.
    fn compute_counts(&mut self)
        requires
            0 < old(self).width,
            0 < old(self).height,
            old(self).cells@.len() == old(self).width * old(self).height,
            forall|i: int|
                0 <= i < old(self).cells@.len() ==> (#[trigger] old(self).cells@[i]).is_mine
                    ==> old(self).cells@[i].adjacent_mines == 0,
        ensures
            final(self)@ == old(self)@.with_cells(final(self)@.cells),
            final(self)@.cells.len() == old(self)@.cells.len(),
            forall|i: int|
                0 <= i < old(self)@.cells.len() ==> (#[trigger] final(self)@.cells[i]).is_mine
                    == old(self)@.cells[i].is_mine && final(self)@.cells[i].state == old(
                    self,
                )@.cells[i].state,
            counts_consistent(final(self)@.cells, old(self).width as int, old(self).height as int),
    {
        let ghost pre = self@;
        let ghost w = self.width as int;
        let ghost h = self.height as int;
        assert(self.cells@.len() == self.cells.len());
        let mut y: usize = 0;
        while y < self.height
            invariant
                y <= h,
                w == self.width,
                h == self.height,
                0 < w,
                0 < h,
                self@ == pre.with_cells(self@.cells),
                self@.cells.len() == pre.cells.len(),
                pre.cells.len() == w * h,
                forall|i: int|
                    0 <= i < pre.cells.len() ==> (#[trigger] self@.cells[i]).is_mine == pre.cells[i].is_mine
                        && self@.cells[i].state == pre.cells[i].state,
                forall|i: int|
                    0 <= i < pre.cells.len() ==> (#[trigger] pre.cells[i]).is_mine
                        ==> pre.cells[i].adjacent_mines == 0,
                forall|p: (usize, usize)|
                    #![trigger cell_at(self@.cells, w, p)]
                    in_bounds(w, h, p) ==> cell_at(self@.cells, w, p).adjacent_mines == if p.1 < y {
                        if cell_at(pre.cells, w, p).is_mine {
                            0
                        } else {
                            adjacent_count(pre.cells, w, h, p)
                        }
                    } else {
                        cell_at(pre.cells, w, p).adjacent_mines as nat
                    },
            decreases h - y,
        {
            let mut x: usize = 0;
            while x < self.width
                invariant
                    y < h,
                    x <= w,
                    w == self.width,
                    h == self.height,
                    0 < w,
                    0 < h,
                    self@ == pre.with_cells(self@.cells),
                    self@.cells.len() == pre.cells.len(),
                    pre.cells.len() == w * h,
                    forall|i: int|
                        0 <= i < pre.cells.len() ==> (#[trigger] self@.cells[i]).is_mine
                            == pre.cells[i].is_mine && self@.cells[i].state == pre.cells[i].state,
                    forall|i: int|
                        0 <= i < pre.cells.len() ==> (#[trigger] pre.cells[i]).is_mine
                            ==> pre.cells[i].adjacent_mines == 0,
                    forall|p: (usize, usize)|
                        #![trigger cell_at(self@.cells, w, p)]
                        in_bounds(w, h, p) ==> cell_at(self@.cells, w, p).adjacent_mines == if p.1
                            < y || (p.1 == y && p.0 < x) {
                            if cell_at(pre.cells, w, p).is_mine {
                                0
                            } else {
                                adjacent_count(pre.cells, w, h, p)
                            }
                        } else {
                            cell_at(pre.cells, w, p).adjacent_mines as nat
                        },
                decreases w - x,
            {
                proof {
                    lemma_index_in_range(w, h, (x, y));
                }
                assert(self.cells@.len() == self.cells.len());
                let i = self.idx(x, y);
                let ghost before = self@.cells;
                if !self.cells[i].is_mine {
                    let count = self.count_adjacent(x, y);
                    proof {
                        lemma_neighbors(w, h, (x, y));
                        lemma_count_mines_same_mines(
                            self@.cells,
                            pre.cells,
                            w,
                            h,
                            neighbors_of(w, h, (x, y)),
                        );
                    }
                    let c = self.cells[i];
                    self.cells.set(i, Cell { adjacent_mines: count, ..c });
                }
                proof {
                    assert forall|p: (usize, usize)|
                        #![trigger cell_at(self@.cells, w, p)]
                        in_bounds(w, h, p) && p != (x, y) implies cell_at(self@.cells, w, p)
                        == cell_at(before, w, p) by {
                        lemma_index_in_range(w, h, p);
                        if cell_index(w, p) == cell_index(w, (x, y)) {
                            lemma_index_injective(w, h, p, (x, y));
                        }
                    }
                    assert(cell_at(before, w, (x, y)).adjacent_mines == cell_at(pre.cells, w, (x, y)).adjacent_mines);
                }
                x = x + 1;
            }
            y = y + 1;
        }
        proof {
            assert forall|p: (usize, usize)|
                #![trigger cell_at(self@.cells, w, p)]
                in_bounds(w, h, p) implies cell_at(self@.cells, w, p).adjacent_mines == if cell_at(
                    self@.cells,
                    w,
                    p,
                ).is_mine {
                    0
                } else {
                    adjacent_count(self@.cells, w, h, p)
                } by {
                lemma_index_in_range(w, h, p);
                lemma_neighbors(w, h, p);
                lemma_count_mines_same_mines(self@.cells, pre.cells, w, h, neighbors_of(w, h, p));
            }
        }
    }

    /// Place mines on the cells with the given indices and give every cell the
    /// number of mines around it, as the first reveal does with the cells that
    /// it draws at random. Afterwards the game counts as started, so the next
    /// reveal places no further mines.
    pub fn place_mines(&mut self, mine_cells: &[usize])
        requires
            old(self)@.wf(),
            !old(self)@.started,
            old(self)@.status == GameStatus::Playing,
            forall|j: int| 0 <= j < mine_cells@.len() ==> #[trigger] mine_cells@[j] < old(self)@.cells.len(),
            mine_cells@.len() < old(self)@.cells.len(),
        ensures
            final(self)@.wf(),
            final(self)@ == (GameView { cells: final(self)@.cells, started: true, ..old(self)@ }),
            same_states(old(self)@.cells, final(self)@.cells),
            forall|i: int|
                0 <= i < final(self)@.cells.len() ==> (#[trigger] final(self)@.cells[i]).is_mine
                    == mine_cells@.contains(i as usize),
            mine_cells@.no_duplicates() ==> mine_count(final(self)@.cells) == mine_cells@.len(),
    {
        let ghost pre = self@;
        proof {
            lemma_count_cells_none(pre.cells, |c: Cell| c.is_mine);
        }
        let mut k: usize = 0;
        while k < mine_cells.len()
            invariant
                k <= mine_cells@.len(),
                self@ == pre.with_cells(self@.cells),
                self@.cells.len() == pre.cells.len(),
                pristine_layout(pre.cells),
                forall|j: int| 0 <= j < mine_cells@.len() ==> #[trigger] mine_cells@[j] < pre.cells.len(),
                forall|i: int|
                    0 <= i < pre.cells.len() ==> (#[trigger] self@.cells[i]).state == pre.cells[i].state
                        && self@.cells[i].adjacent_mines == 0 && (self@.cells[i].is_mine <==> listed_before(mine_cells@, k as int, i)),
                mine_cells@.no_duplicates() ==> mine_count(self@.cells) == k,
                mine_count(self@.cells) <= k,
            decreases mine_cells@.len() - k,
        {
            let pos = mine_cells[k];
            assert(self.cells@.len() == self.cells.len());
            let c = self.cells[pos];
            let ghost before = self@.cells;
            self.cells.set(pos, Cell { is_mine: true, ..c });
            proof {
                lemma_count_cells_update(before, pos as int, Cell { is_mine: true, ..c }, |c: Cell| c.is_mine);
                if mine_cells@.no_duplicates() {
                    assert(!c.is_mine) by {
                        if c.is_mine {
                            let j = choose|j: int| 0 <= j < k && mine_cells@[j] == pos as int;
                            assert(mine_cells@[j] == mine_cells@[k as int]);
                        }
                    }
                    lemma_count_cells_update(before, pos as int, Cell { is_mine: true, ..c }, |c: Cell| c.is_mine);
                }
                assert forall|i: int| 0 <= i < pre.cells.len() implies (#[trigger] self@.cells[i]).state
                    == pre.cells[i].state && self@.cells[i].adjacent_mines == 0 && (self@.cells[i].is_mine
                    <==> listed_before(mine_cells@, k + 1, i)) by {
                    if i == pos {
                        assert(mine_cells@[k as int] == i);
                    } else {
                        assert(before[i] == self@.cells[i]);
                        if self@.cells[i].is_mine {
                            let j = choose|j: int| 0 <= j < k && mine_cells@[j] == i;
                            assert(0 <= j < k + 1 && mine_cells@[j] == i);
                        }
                    }
                }
            }
            k = k + 1;
        }
        assert(self.cells@.len() == self.cells.len());
        proof {
            assert forall|i: int| 0 <= i < self@.cells.len() implies (#[trigger] self@.cells[i]).is_mine
                == mine_cells@.contains(i as usize) by {
                assert(i as usize == i);
                if mine_cells@.contains(i as usize) {
                    let j = choose|j: int| 0 <= j < mine_cells@.len() && mine_cells@[j] == i as usize;
                    assert(0 <= j < k && mine_cells@[j] == i);
                }
            }
        }
        let ghost marked = self@.cells;
        self.compute_counts();
        self.initialized = true;
        proof {
            lemma_count_cells_same(marked, self@.cells, |c: Cell| c.is_mine);
            assert(!all_safe_revealed(self@.cells)) by {
                if all_safe_revealed(self@.cells) {
                    assert forall|i: int| 0 <= i < self@.cells.len() implies (#[trigger] self@.cells[i]).is_mine by {
                        assert(pre.cells[i].state != CellState::Revealed);
                    }
                    lemma_count_cells_all(self@.cells, |c: Cell| c.is_mine);
                }
            }
        }
    }

    /// Whether `zone` holds `i`.
    fn zone_contains(zone: &Vec<usize>, i: usize) -> (r: bool)
        ensures
            r == zone@.contains(i),
    {
        let mut j: usize = 0;
        while j < zone.len()
            invariant
                j <= zone@.len(),
                forall|k: int| 0 <= k < j ==> zone@[k] != i,
            decreases zone@.len() - j,
        {
            if zone[j] == i {
                return true;
            }
            j = j + 1;
        }
        false
    }

    /// The cells below `total` that `zone` does not hold, in increasing order.
    fn cells_outside(zone: &Vec<usize>, total: usize) -> (out: Vec<usize>)
        ensures
            out@ == indices_outside(zone@, total as nat),
    {
        let mut out: Vec<usize> = Vec::new();
        let mut i: usize = 0;
        while i < total
            invariant
                i <= total,
                out@ == indices_outside(zone@, i as nat),
            decreases total - i,
        {
            if !Self::zone_contains(zone, i) {
                out.push(i);
            }
            i = i + 1;
        }
        out
    }

    /// Place the mines at random outside the 3×3 zone around the first
    /// revealed cell `(safe_x, safe_y)`, as many as the mine setting asks for
    /// or as fit there, and compute the counts.
    pub(super) fn initialize(&mut self, safe_x: usize, safe_y: usize)
        requires
            old(self)@.wf(),
            !old(self)@.started,
            old(self)@.status == GameStatus::Playing,
            safe_x < old(self).width,
            safe_y < old(self).height,
        ensures
            final(self)@.wf(),
            final(self)@.mines_placed_from(old(self)@, (safe_x, safe_y)),
    {
        let ghost w = self.width as int;
        let ghost h = self.height as int;
        let ghost p = (safe_x, safe_y);
        assert(self.cells@.len() == self.cells.len());
        proof {
            lemma_index_in_range(w, h, p);
            lemma_neighbors(w, h, p);
        }
        let mut safe_zone: Vec<usize> = Vec::with_capacity(9);
        safe_zone.push(self.idx(safe_x, safe_y));
        let ns = self.neighbors(safe_x, safe_y);
        let mut j: usize = 0;
        while j < ns.len()
            invariant
                j <= ns@.len(),
                ns@ == neighbors_of(w, h, p),
                w == self.width,
                h == self.height,
                self.cells@.len() == w * h,
                forall|k: int| 0 <= k < ns@.len() ==> in_bounds(w, h, #[trigger] ns@[k]),
                safe_zone@ == seq![cell_index(w, p) as usize] + ns@.take(j as int).map_values(
                    |q: (usize, usize)| cell_index(w, q) as usize,
                ),
            decreases ns@.len() - j,
        {
            let (nx, ny) = ns[j];
            proof {
                assert(in_bounds(w, h, ns@[j as int]));
                lemma_index_in_range(w, h, (nx, ny));
            }
            assert(self.cells@.len() == self.cells.len());
            safe_zone.push(self.idx(nx, ny));
            assert(ns@.take(j + 1).map_values(|q: (usize, usize)| cell_index(w, q) as usize)
                =~= ns@.take(j as int).map_values(|q: (usize, usize)| cell_index(w, q) as usize).push(
                cell_index(w, (nx, ny)) as usize,
            ));
            j = j + 1;
        }
        assert(ns@.take(j as int) =~= ns@);
        assert(safe_zone@ == crate::grid::safe_zone(w, h, p));

        // Collect candidate positions and shuffle them with fastrand.
        let total = self.width * self.height;
        let mut positions = Self::cells_outside(&safe_zone, total);
        proof {
            lemma_indices_outside(safe_zone@, total as nat);
            lemma_outside_bound(safe_zone@, total as nat, safe_zone@[0]);
        }

        // Partial Fisher-Yates – only shuffle the first `mines` elements.
        let ghost room = positions@.len();
        let mines = self.mines.min(positions.len());
        let mut i: usize = 0;
        while i < mines
            invariant
                i <= mines,
                mines <= positions@.len(),
                positions@.len() == room,
                forall|a: int|
                    0 <= a < positions@.len() ==> (#[trigger] positions@[a]) < total
                        && !safe_zone@.contains(positions@[a]),
                positions@.no_duplicates(),
            decreases mines - i,
        {
            let j = i + random_below(positions.len() - i);
            let a = positions[i];
            let b = positions[j];
            positions.set(i, b);
            positions.set(j, a);
            i = i + 1;
        }
        positions.truncate(mines);
        let ghost pre = self@;
        self.place_mines(positions.as_slice());
        proof {
            assert(self@.cells.len() == w * h);
            assert(!self@.cell(p).is_mine) by {
                if self@.cell(p).is_mine {
                    let k = choose|k: int| 0 <= k < positions@.len() && positions@[k] == cell_index(w, p) as usize;
                    assert(safe_zone@[0] == cell_index(w, p) as usize);
                }
            }
            assert forall|k: int| 0 <= k < neighbors_of(w, h, p).len() implies !self@.cell(
                #[trigger] neighbors_of(w, h, p)[k],
            ).is_mine by {
                let q = neighbors_of(w, h, p)[k];
                assert(in_bounds(w, h, ns@[k]));
                lemma_index_in_range(w, h, q);
                if self@.cell(q).is_mine {
                    let m = choose|m: int| 0 <= m < positions@.len() && positions@[m] == cell_index(w, q) as usize;
                    assert(safe_zone@[k + 1] == cell_index(w, q) as usize);
                }
            }
        }
    }
}

} // verus!
