use egui_minesweeper::{CellState, GameStatus, MinesweeperGame};

#[test]
fn cycle_flag_goes_hidden_flag_marker_hidden() {
    let mut game = MinesweeperGame::new(4, 4, 3);
    let i = 2 * 4 + 1;
    game.cycle_flag(1, 2);
    assert_eq!(game.cells[i].state, CellState::Flagged);
    game.cycle_flag(1, 2);
    assert_eq!(game.cells[i].state, CellState::Marked);
    game.cycle_flag(1, 2);
    assert_eq!(game.cells[i].state, CellState::Hidden);
    assert!(game.cells.iter().enumerate().all(|(j, c)| j == i || c.state == CellState::Hidden));
}

#[test]
fn cycle_flag_leaves_revealed_cells_alone() {
    let mut game = MinesweeperGame::new(3, 1, 1);
    game.place_mines(&[2]);
    game.reveal_cell(0, 0);
    assert_eq!(game.cells[0].state, CellState::Revealed);
    game.cycle_flag(0, 0);
    assert_eq!(game.cells[0].state, CellState::Revealed);
    game.flag(0, 0);
    game.mark(0, 0);
    game.clear_marker(0, 0);
    assert_eq!(game.cells[0].state, CellState::Revealed);
}

#[test]
fn flag_mark_and_clear_set_the_state_directly() {
    let mut game = MinesweeperGame::new(3, 3, 2);
    game.flag(0, 0);
    assert_eq!(game.cells[0].state, CellState::Flagged);
    game.flag(0, 0);
    assert_eq!(game.cells[0].state, CellState::Flagged);
    game.mark(0, 0);
    assert_eq!(game.cells[0].state, CellState::Marked);
    game.clear_marker(0, 0);
    assert_eq!(game.cells[0].state, CellState::Hidden);
    game.mark(2, 2);
    assert_eq!(game.cells[8].state, CellState::Marked);
    game.flag(2, 2);
    assert_eq!(game.cells[8].state, CellState::Flagged);
    assert_eq!(game.status, GameStatus::Playing);
}

#[test]
fn flags_placed_counts_flags_but_not_markers() {
    let mut game = MinesweeperGame::new(5, 5, 4);
    assert_eq!(game.flags_placed(), 0);
    game.flag(0, 0);
    game.flag(1, 0);
    game.flag(2, 0);
    assert_eq!(game.flags_placed(), 3);
    game.mark(1, 0);
    assert_eq!(game.flags_placed(), 2);
    game.mark(4, 4);
    assert_eq!(game.flags_placed(), 2);
    game.clear_marker(0, 0);
    assert_eq!(game.flags_placed(), 1);
    game.cycle_flag(3, 3);
    assert_eq!(game.flags_placed(), 2);
    game.cycle_flag(3, 3);
    assert_eq!(game.flags_placed(), 1);
}

#[test]
fn three_cycles_restore_every_cell() {
    let mut game = MinesweeperGame::new(3, 3, 1);
    game.flag(1, 1);
    game.mark(2, 2);
    let before: Vec<CellState> = game.cells.iter().map(|c| c.state).collect();
    for (x, y) in [(0, 0), (1, 1), (2, 2)] {
        game.cycle_flag(x, y);
        game.cycle_flag(x, y);
        game.cycle_flag(x, y);
    }
    let after: Vec<CellState> = game.cells.iter().map(|c| c.state).collect();
    assert_eq!(before, after);
}

#[test]
fn clear_marker_undoes_any_marker_actions() {
    let mut game = MinesweeperGame::new(4, 3, 2);
    let before: Vec<CellState> = game.cells.iter().map(|c| c.state).collect();
    game.flag(2, 1);
    game.cycle_flag(2, 1);
    game.mark(2, 1);
    game.cycle_flag(2, 1);
    game.cycle_flag(2, 1);
    game.flag(2, 1);
    assert_eq!(game.cells[6].state, CellState::Flagged);
    game.clear_marker(2, 1);
    let after: Vec<CellState> = game.cells.iter().map(|c| c.state).collect();
    assert_eq!(before, after);
    assert_eq!(game.status, GameStatus::Playing);
}

#[test]
fn status_is_read_off_the_board() {
    let mut game = MinesweeperGame::new(3, 1, 1);
    game.place_mines(&[1]);
    game.reveal_cell(0, 0);
    // No mine revealed and a safe cell still hidden: still playing.
    assert_eq!(game.status, GameStatus::Playing);
    game.reveal_cell(1, 0);
    // A revealed mine: lost, and every mine is revealed.
    assert_eq!(game.status, GameStatus::Lost);
    assert!(game.cells.iter().all(|c| !c.is_mine || c.state == CellState::Revealed));
}
