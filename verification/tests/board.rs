use egui_minesweeper::{Cell, CellState, GameStatus, InteractionMode, MinesweeperGame};

fn count_mines(game: &MinesweeperGame) -> usize {
    game.cells.iter().filter(|c| c.is_mine).count()
}

fn neighbor_mines(game: &MinesweeperGame, x: usize, y: usize) -> u8 {
    let mut n = 0;
    for dy in -1i64..=1 {
        for dx in -1i64..=1 {
            if dx == 0 && dy == 0 {
                continue;
            }
            let nx = x as i64 + dx;
            let ny = y as i64 + dy;
            if nx >= 0 && ny >= 0 && (nx as usize) < game.width && (ny as usize) < game.height {
                if game.cells[ny as usize * game.width + nx as usize].is_mine {
                    n += 1;
                }
            }
        }
    }
    n
}

#[test]
fn new_game_has_fresh_hidden_cells() {
    let game = MinesweeperGame::new(16, 16, 40);
    assert_eq!(game.width, 16);
    assert_eq!(game.height, 16);
    assert_eq!(game.mines, 40);
    assert_eq!(game.cells.len(), 256);
    assert_eq!(game.status, GameStatus::Playing);
    assert!(game
        .cells
        .iter()
        .all(|c| !c.is_mine && c.state == CellState::Hidden && c.adjacent_mines == 0));
    assert_eq!(count_mines(&game), 0);
}

#[test]
fn new_caps_mines_below_cell_count() {
    assert_eq!(MinesweeperGame::new(3, 3, 100).mines, 8);
    assert_eq!(MinesweeperGame::new(3, 3, 8).mines, 8);
    assert_eq!(MinesweeperGame::new(3, 3, 7).mines, 7);
    assert_eq!(MinesweeperGame::new(1, 1, 5).mines, 0);
}

#[test]
fn cell_default_is_hidden_and_safe() {
    let c = Cell::default();
    assert!(!c.is_mine);
    assert_eq!(c.state, CellState::Hidden);
    assert_eq!(c.adjacent_mines, 0);
}

#[test]
fn interaction_mode_default_is_direct() {
    assert_eq!(InteractionMode::default(), InteractionMode::Direct);
}

#[test]
fn reset_restores_a_fresh_game() {
    let mut game = MinesweeperGame::new(5, 4, 6);
    game.reveal_cell(2, 2);
    game.flag(0, 0);
    game.reset();
    assert_eq!(game.width, 5);
    assert_eq!(game.height, 4);
    assert_eq!(game.mines, 6);
    assert_eq!(game.status, GameStatus::Playing);
    assert!(game
        .cells
        .iter()
        .all(|c| !c.is_mine && c.state == CellState::Hidden && c.adjacent_mines == 0));
    // The game is fresh again: the next reveal places mines anew and is safe.
    game.reveal_cell(0, 3);
    assert_ne!(game.status, GameStatus::Lost);
    assert_eq!(count_mines(&game), 6);
}

#[test]
fn place_mines_computes_adjacent_counts() {
    let mut game = MinesweeperGame::new(3, 3, 1);
    game.place_mines(&[4]);
    assert!(game.cells[4].is_mine);
    assert_eq!(game.cells[4].adjacent_mines, 0);
    for i in [0, 1, 2, 3, 5, 6, 7, 8] {
        assert!(!game.cells[i].is_mine);
        assert_eq!(game.cells[i].adjacent_mines, 1);
    }
    assert!(game.cells.iter().all(|c| c.state == CellState::Hidden));
}

#[test]
fn place_mines_counts_each_neighbourhood() {
    // Row-major 4x3 board, mines at (0,0), (1,0) and (3,2).
    let mut game = MinesweeperGame::new(4, 3, 3);
    game.place_mines(&[0, 1, 11]);
    let expected: [u8; 12] = [0, 0, 1, 0, 2, 2, 2, 1, 0, 0, 1, 0];
    for (i, e) in expected.iter().enumerate() {
        assert_eq!(game.cells[i].adjacent_mines, *e, "cell {}", i);
    }
    assert_eq!(count_mines(&game), 3);
}

#[test]
fn first_reveal_is_safe_and_opens_the_neighbourhood() {
    for seed in 0..50u64 {
        fastrand::seed(seed);
        let mut game = MinesweeperGame::new(10, 8, 30);
        game.reveal_cell(4, 3);
        assert_ne!(game.status, GameStatus::Lost);
        assert_eq!(count_mines(&game), 30);
        for y in 2..=4 {
            for x in 3..=5 {
                let c = &game.cells[y * 10 + x];
                assert!(!c.is_mine);
                assert_eq!(c.state, CellState::Revealed);
            }
        }
        // Every count is right after the mines are placed.
        for y in 0..8 {
            for x in 0..10 {
                let c = &game.cells[y * 10 + x];
                if !c.is_mine {
                    assert_eq!(c.adjacent_mines, neighbor_mines(&game, x, y));
                } else {
                    assert_eq!(c.adjacent_mines, 0);
                }
            }
        }
    }
}

#[test]
fn first_reveal_in_a_corner_places_only_the_mines_that_fit() {
    // 4x4 board, 15 mines asked for; a corner reveal keeps 4 cells free, so 12 fit.
    fastrand::seed(7);
    let mut game = MinesweeperGame::new(4, 4, 100);
    assert_eq!(game.mines, 15);
    game.reveal_cell(0, 0);
    assert_eq!(count_mines(&game), 12);
    for i in [0, 1, 4, 5] {
        assert!(!game.cells[i].is_mine);
        assert_eq!(game.cells[i].state, CellState::Revealed);
    }
    assert_eq!(game.status, GameStatus::Won);
}

#[test]
fn crowded_first_reveal_keeps_the_zone_free() {
    let mut game = MinesweeperGame::new(3, 3, 8);
    game.reveal_cell(0, 0);
    for i in 0..9 {
        assert_eq!(game.cells[i].is_mine, [2, 5, 6, 7, 8].contains(&i), "cell {}", i);
    }
    assert_eq!(game.cells[0].adjacent_mines, 0);
    assert_eq!(game.cells[1].adjacent_mines, 2);
    assert_eq!(game.cells[3].adjacent_mines, 2);
    assert_eq!(game.cells[4].adjacent_mines, 5);
    for i in [0, 1, 3, 4] {
        assert_eq!(game.cells[i].state, CellState::Revealed);
    }
    for i in [2, 5, 6, 7, 8] {
        assert_eq!(game.cells[i].state, CellState::Hidden);
    }
    assert_eq!(game.status, GameStatus::Won);
}

#[test]
fn crowded_first_reveal_leaves_a_flag_in_the_zone() {
    let mut game = MinesweeperGame::new(3, 3, 8);
    game.flag(1, 1);
    game.reveal_cell(0, 0);
    assert_eq!(game.status, GameStatus::Playing);
    for i in [0, 1, 3] {
        assert_eq!(game.cells[i].state, CellState::Revealed);
    }
    assert_eq!(game.cells[4].state, CellState::Flagged);
    assert_eq!(game.flags_placed(), 1);
    for i in [2, 5, 6, 7, 8] {
        assert!(game.cells[i].is_mine);
        assert_eq!(game.cells[i].state, CellState::Hidden);
    }
}

#[test]
fn crowded_strip_stays_in_play_then_loses() {
    let mut game = MinesweeperGame::new(4, 1, 3);
    game.flag(1, 0);
    game.reveal_cell(0, 0);
    assert_eq!(game.status, GameStatus::Playing);
    assert_eq!(game.cells[0].state, CellState::Revealed);
    assert!(!game.cells[1].is_mine);
    assert!(game.cells[2].is_mine && game.cells[3].is_mine);
    game.flag(0, 0);
    assert_eq!(game.cells[0].state, CellState::Revealed);
    assert_eq!(game.flags_placed(), 1);
    assert_eq!(game.status, GameStatus::Playing);
    game.reveal_cell(2, 0);
    assert_eq!(game.status, GameStatus::Lost);
    assert_eq!(game.cells[1].state, CellState::Flagged);
    assert_eq!(game.cells[2].state, CellState::Revealed);
    assert_eq!(game.cells[3].state, CellState::Revealed);
}

#[test]
fn first_reveal_with_no_room_for_mines_wins() {
    let mut game = MinesweeperGame::new(3, 3, 8);
    game.reveal_cell(1, 1);
    assert_eq!(count_mines(&game), 0);
    assert!(game.cells.iter().all(|c| c.state == CellState::Revealed));
    assert_eq!(game.status, GameStatus::Won);
}

#[test]
fn the_mine_count_is_the_setting_or_the_room_outside_the_zone() {
    for seed in 0..30u64 {
        fastrand::seed(seed);
        let mut game = MinesweeperGame::new(5, 5, 20);
        game.reveal_cell(2, 2);
        assert_eq!(count_mines(&game), 16);
        assert_ne!(game.status, GameStatus::Lost);
        fastrand::seed(seed);
        let mut game = MinesweeperGame::new(5, 5, 10);
        game.reveal_cell(2, 2);
        assert_eq!(count_mines(&game), 10);
    }
}

#[test]
fn getters_read_the_game() {
    let mut game = MinesweeperGame::new(4, 3, 2);
    game.flag(1, 2);
    assert_eq!(game.width(), 4);
    assert_eq!(game.height(), 3);
    assert_eq!(game.mines(), 2);
    assert_eq!(game.status(), GameStatus::Playing);
    assert_eq!(game.cell(1, 2).state, CellState::Flagged);
    assert_eq!(game.cell(0, 0).state, CellState::Hidden);
}

#[test]
fn first_reveal_keeps_flagged_neighbours_hidden_under_their_flag() {
    let mut game = MinesweeperGame::new(6, 6, 5);
    game.flag(1, 1);
    game.mark(3, 3);
    game.reveal_cell(2, 2);
    assert_eq!(game.cells[1 * 6 + 1].state, CellState::Flagged);
    assert_eq!(game.cells[3 * 6 + 3].state, CellState::Marked);
    assert!(!game.cells[1 * 6 + 1].is_mine);
    assert!(!game.cells[3 * 6 + 3].is_mine);
    assert_eq!(game.cells[2 * 6 + 2].state, CellState::Revealed);
}
