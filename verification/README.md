# egui_minesweeper

Minesweeper game logic, verified with Verus, and an egui widget around it.

- `src/` is the verified library. `cell.rs` holds the value types, `grid.rs`
  the model of a board (positions, neighbourhoods, counts, flood-fill
  closure) with its lemmas, `game.rs` the game (`MinesweeperGame`, its
  abstract view `GameView` and the marker actions) with the submodules
  `game/placement.rs` (mines placed on the first reveal),
  `game/uncover.rs` (the flood-fill reveal) and `game/interaction.rs`
  (what a click does), `flood.rs` the proof of the flood fill, `laws.rs`
  the properties that span actions, `label.rs` the column labels,
  `palette.rs` the colours of the counts and `random.rs` the random draws.
- `app/` is the egui widget: layout, pointer handling and painting.
- `tests/` runs the library on concrete boards.

Every action requires and keeps the well-formedness of the game
(`GameView::wf`), under which the status is the one the board shows. A
reveal is described by `GameView::revealed_into`: the first reveal places
`mines` mines, or as many as fit, outside the 3×3 zone around the revealed
cell and never loses; a later reveal of a hidden mine loses and shows every
mine; and any other reveal uncovers exactly the smallest set closed under
flood fill from the revealed cell and its seeds.

The reveal action is called `reveal_cell`, since `reveal` names a builtin
of Verus.
