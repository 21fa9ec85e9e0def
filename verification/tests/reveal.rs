use egui_minesweeper::{CellState, GameStatus, MinesweeperGame};

fn states(game: &MinesweeperGame) -> Vec<CellState> {
    game.cells.iter().map(|c| c.state).collect()
}

/// A 5x5 board with a single mine in the bottom right corner.
fn corner_mine_board() -> MinesweeperGame {
    let mut game = MinesweeperGame::new(5, 5, 1);
    game.place_mines(&[24]);
    game
}

#[test]
fn flood_fill_reveals_the_empty_region_and_wins() {
    let mut game = corner_mine_board();
    game.reveal_cell(0, 0);
    for (i, c) in game.cells.iter().enumerate() {
        if i == 24 {
            assert_eq!(c.state, CellState::Hidden);
        } else {
            assert_eq!(c.state, CellState::Revealed, "cell {}", i);
        }
    }
    assert_eq!(game.status, GameStatus::Won);
}

#[test]
fn reveal_of_a_numbered_cell_reveals_only_it() {
    let mut game = corner_mine_board();
    game.reveal_cell(3, 3);
    assert_eq!(game.cells[18].adjacent_mines, 1);
    let s = states(&game);
    for (i, st) in s.iter().enumerate() {
        if i == 18 {
            assert_eq!(*st, CellState::Revealed);
        } else {
            assert_eq!(*st, CellState::Hidden);
        }
    }
    assert_eq!(game.status, GameStatus::Playing);
}

#[test]
fn flood_fill_stops_at_flags_and_numbers() {
    // 5x1 strip: mine at x = 4; a flag at x = 1 blocks the fill from x = 0.
    let mut game = MinesweeperGame::new(5, 1, 1);
    game.place_mines(&[4]);
    game.flag(1, 0);
    game.reveal_cell(0, 0);
    assert_eq!(
        states(&game),
        vec![
            CellState::Revealed,
            CellState::Flagged,
            CellState::Hidden,
            CellState::Hidden,
            CellState::Hidden
        ]
    );
    // From the other side the fill stops at the count next to the mine.
    game.reveal_cell(2, 0);
    assert_eq!(
        states(&game),
        vec![
            CellState::Revealed,
            CellState::Flagged,
            CellState::Revealed,
            CellState::Revealed,
            CellState::Hidden
        ]
    );
    assert_eq!(game.cells[3].adjacent_mines, 1);
    assert_eq!(game.status, GameStatus::Playing);
}

#[test]
fn revealing_a_mine_loses_and_shows_every_mine() {
    let mut game = MinesweeperGame::new(4, 4, 3);
    game.place_mines(&[0, 5, 15]);
    game.flag(2, 2);
    game.reveal_cell(1, 1);
    assert_eq!(game.status, GameStatus::Lost);
    for (i, c) in game.cells.iter().enumerate() {
        if c.is_mine {
            assert_eq!(c.state, CellState::Revealed, "mine {}", i);
        } else if i == 10 {
            assert_eq!(c.state, CellState::Flagged);
        } else {
            assert_eq!(c.state, CellState::Hidden, "cell {}", i);
        }
    }
}

#[test]
fn revealing_a_revealed_cell_changes_nothing() {
    let mut game = corner_mine_board();
    game.reveal_cell(3, 3);
    let before = states(&game);
    game.reveal_cell(3, 3);
    assert_eq!(states(&game), before);
    assert_eq!(game.status, GameStatus::Playing);
}

#[test]
fn revealing_a_flagged_mine_does_not_lose() {
    let mut game = corner_mine_board();
    game.flag(4, 4);
    game.reveal_cell(4, 4);
    assert_eq!(game.status, GameStatus::Playing);
    assert_eq!(game.cells[24].state, CellState::Flagged);
}

#[test]
fn a_finished_game_ignores_every_action() {
    let mut game = MinesweeperGame::new(3, 3, 1);
    game.place_mines(&[8]);
    game.reveal_cell(2, 2);
    assert_eq!(game.status, GameStatus::Lost);
    let before = states(&game);
    game.reveal_cell(0, 0);
    game.cycle_flag(1, 1);
    game.flag(0, 1);
    game.mark(1, 0);
    game.clear_marker(2, 2);
    assert_eq!(states(&game), before);
    assert_eq!(game.status, GameStatus::Lost);

    let mut won = corner_mine_board();
    won.reveal_cell(0, 0);
    assert_eq!(won.status, GameStatus::Won);
    won.cycle_flag(4, 4);
    won.reveal_cell(4, 4);
    assert_eq!(won.cells[24].state, CellState::Hidden);
    assert_eq!(won.status, GameStatus::Won);
}

#[test]
fn winning_needs_every_safe_cell_revealed() {
    // 3x1 strip with the mine in the middle: two separate safe cells.
    let mut game = MinesweeperGame::new(3, 1, 1);
    game.place_mines(&[1]);
    game.reveal_cell(0, 0);
    assert_eq!(game.status, GameStatus::Playing);
    game.reveal_cell(2, 0);
    assert_eq!(game.status, GameStatus::Won);
    assert_eq!(game.cells[1].state, CellState::Hidden);
}
