use egui_minesweeper::{column_label, number_color, CellState, GameStatus, InteractionMode, MinesweeperGame};

#[test]
fn primary_click_in_direct_mode_reveals() {
    let mut game = MinesweeperGame::new(5, 5, 1);
    game.place_mines(&[24]);
    let sel = game.handle_click(3, 3, true, InteractionMode::Direct, false);
    assert_eq!(sel, None);
    assert_eq!(game.cells[18].state, CellState::Revealed);
}

#[test]
fn secondary_click_skips_the_marker_without_question_marks() {
    let mut game = MinesweeperGame::new(4, 4, 2);
    game.handle_click(1, 1, false, InteractionMode::Direct, false);
    assert_eq!(game.cells[5].state, CellState::Flagged);
    game.handle_click(1, 1, false, InteractionMode::Direct, false);
    assert_eq!(game.cells[5].state, CellState::Hidden);
    game.handle_click(1, 1, false, InteractionMode::Direct, false);
    assert_eq!(game.cells[5].state, CellState::Flagged);
}

#[test]
fn secondary_click_with_question_marks_cycles_all_three() {
    let mut game = MinesweeperGame::new(4, 4, 2);
    game.handle_click(2, 0, false, InteractionMode::Direct, true);
    assert_eq!(game.cells[2].state, CellState::Flagged);
    game.handle_click(2, 0, false, InteractionMode::Direct, true);
    assert_eq!(game.cells[2].state, CellState::Marked);
    game.handle_click(2, 0, false, InteractionMode::Direct, true);
    assert_eq!(game.cells[2].state, CellState::Hidden);
}

#[test]
fn secondary_click_on_a_marked_cell_without_question_marks_clears_it() {
    let mut game = MinesweeperGame::new(4, 4, 2);
    game.mark(0, 0);
    game.handle_click(0, 0, false, InteractionMode::Direct, false);
    assert_eq!(game.cells[0].state, CellState::Hidden);
}

#[test]
fn select_only_mode_selects_without_touching_the_game() {
    let mut game = MinesweeperGame::new(4, 4, 2);
    assert_eq!(game.handle_click(2, 3, true, InteractionMode::SelectOnly, false), Some((2, 3)));
    assert_eq!(game.handle_click(2, 3, false, InteractionMode::SelectOnly, false), None);
    assert!(game.cells.iter().all(|c| c.state == CellState::Hidden));
    game.place_mines(&[0]);
    game.reveal_cell(0, 0);
    assert_eq!(game.status, GameStatus::Lost);
    assert_eq!(game.handle_click(2, 3, true, InteractionMode::SelectOnly, false), None);
}

#[test]
fn clicks_off_the_board_do_nothing() {
    let mut game = MinesweeperGame::new(3, 2, 1);
    assert_eq!(game.handle_click(3, 0, true, InteractionMode::Direct, false), None);
    assert_eq!(game.handle_click(0, 2, false, InteractionMode::Direct, false), None);
    assert_eq!(game.handle_click(7, 9, true, InteractionMode::SelectOnly, false), None);
    assert!(game.cells.iter().all(|c| c.state == CellState::Hidden && !c.is_mine));
}

#[test]
fn selection_is_visible_on_unrevealed_cells_only() {
    let mut game = MinesweeperGame::new(3, 1, 1);
    game.place_mines(&[2]);
    assert!(game.selection_visible(0, 0));
    game.reveal_cell(0, 0);
    assert!(!game.selection_visible(0, 0));
    assert!(game.selection_visible(2, 0));
    assert!(!game.selection_visible(3, 0));
    assert!(!game.selection_visible(0, 1));
}

#[test]
fn column_labels_are_spreadsheet_style() {
    assert_eq!(column_label(0), "A");
    assert_eq!(column_label(1), "B");
    assert_eq!(column_label(25), "Z");
    assert_eq!(column_label(26), "AA");
    assert_eq!(column_label(27), "AB");
    assert_eq!(column_label(51), "AZ");
    assert_eq!(column_label(52), "BA");
    assert_eq!(column_label(701), "ZZ");
    assert_eq!(column_label(702), "AAA");
}

#[test]
fn column_labels_are_distinct() {
    let labels: Vec<String> = (0..2000).map(column_label).collect();
    let mut sorted = labels.clone();
    sorted.sort();
    sorted.dedup();
    assert_eq!(sorted.len(), labels.len());
    assert!(labels.iter().all(|l| !l.is_empty() && l.chars().all(|c| c.is_ascii_uppercase())));
}

#[test]
fn number_colours_follow_the_classic_palette() {
    assert_eq!(number_color(1, false), (0, 0, 255));
    assert_eq!(number_color(1, true), (120, 170, 255));
    assert_eq!(number_color(2, false), (0, 128, 0));
    assert_eq!(number_color(3, false), (200, 0, 0));
    assert_eq!(number_color(4, true), (160, 160, 255));
    assert_eq!(number_color(5, false), (128, 0, 0));
    assert_eq!(number_color(6, true), (120, 220, 220));
    assert_eq!(number_color(7, false), (0, 0, 0));
    assert_eq!(number_color(7, true), (240, 240, 240));
    assert_eq!(number_color(8, false), (96, 96, 96));
    assert_eq!(number_color(8, true), (190, 190, 190));
    assert_eq!(number_color(0, false), (96, 96, 96));
}

#[test]
fn column_labels_run_in_shortlex_order() {
    for x in 0..3000usize {
        let a = column_label(x);
        let b = column_label(x + 1);
        assert!(a.len() < b.len() || (a.len() == b.len() && a < b), "{} {}", a, b);
    }
}
