use minesweeper::difficulty::DifficultySettings;
use minesweeper::engine::{Game, GameStatus};

fn custom(width: usize, height: usize, mines: usize) -> DifficultySettings {
    DifficultySettings { width, height, mines, label: "Test".to_string() }
}

fn count_cells(game: &Game, pred: impl Fn(&minesweeper::engine::CellView) -> bool) -> usize {
    let settings = game.settings();
    let (w, h) = (settings.width, settings.height);
    let mut count = 0;
    for y in 0..h {
        for x in 0..w {
            let cell = game.cell(x, y).expect("cell should exist");
            if pred(&cell) {
                count += 1;
            }
        }
    }
    count
}

#[test]
fn first_click_is_always_safe() {
    let mut game = Game::new(custom(9, 9, 10));

    game.reveal_cell(4, 4, 100);

    let clicked = game.cell(4, 4).expect("cell should exist");
    assert!(!clicked.mine);

    let mine_count = count_cells(&game, |cell| cell.mine);
    assert_eq!(mine_count, 10);
    assert_eq!(game.status(), GameStatus::Running);
}

#[test]
fn flood_fill_reveals_empty_region() {
    let mut game = Game::new(custom(3, 3, 1));
    assert!(game.start_with_mines(&vec![8], 0));

    game.reveal_cell(0, 0, 10);

    let revealed_count = count_cells(&game, |cell| cell.revealed);
    assert_eq!(revealed_count, 8);
    assert!(game.cell(2, 2).expect("cell should exist").flagged);
    assert_eq!(game.status(), GameStatus::Won);
}

#[test]
fn toggle_flag_blocks_reveal() {
    let mut game = Game::new(custom(5, 5, 3));

    assert!(game.toggle_flag(1, 1));
    assert!(game.cell(1, 1).expect("cell should exist").flagged);
    assert!(!game.reveal_cell(1, 1, 10));
}

#[test]
fn chord_reveals_neighbors_when_flags_match() {
    let mut game = Game::new(custom(3, 3, 1));
    assert!(game.start_with_mines(&vec![0], 0));

    assert!(game.reveal_cell(1, 1, 5));
    assert!(game.toggle_flag(0, 0));

    assert!(game.chord_reveal(1, 1, 15));
    assert_eq!(game.status(), GameStatus::Won);
    let all_accounted = {
        let mut ok = true;
        for y in 0..3 {
            for x in 0..3 {
                let cell = game.cell(x, y).unwrap();
                ok = ok && (cell.revealed || (cell.mine && cell.flagged));
            }
        }
        ok
    };
    assert!(all_accounted);
}

#[test]
fn chord_does_nothing_when_flag_count_mismatch() {
    let mut game = Game::new(custom(3, 3, 1));
    assert!(game.start_with_mines(&vec![0], 0));

    assert!(game.reveal_cell(1, 1, 5));

    assert!(!game.chord_reveal(1, 1, 15));
    assert!(!game.cell(1, 0).unwrap().revealed);
    assert_eq!(game.status(), GameStatus::Running);
}

#[test]
fn chord_rejects_over_flagged_neighborhood() {
    let mut game = Game::new(custom(3, 3, 1));
    assert!(game.start_with_mines(&vec![0], 0));
    assert!(game.reveal_cell(1, 1, 5));
    assert!(game.toggle_flag(0, 0));
    assert!(game.toggle_flag(2, 0));

    assert!(!game.chord_reveal(1, 1, 15));
    assert!(!game.cell(1, 0).unwrap().revealed);
    assert_eq!(game.status(), GameStatus::Running);
}

#[test]
fn revealing_a_mine_loses_and_exposes_all_mines() {
    let mut game = Game::new(custom(4, 4, 3));
    assert!(game.start_with_mines(&vec![0, 5, 10], 0));

    assert!(game.reveal_cell(0, 0, 20));
    assert_eq!(game.status(), GameStatus::Lost);

    let exposed_mines = count_cells(&game, |cell| cell.mine && cell.revealed);
    assert_eq!(exposed_mines, 3);

    // terminal state: every mutator is a no-op
    assert!(!game.reveal_cell(3, 3, 30));
    assert!(!game.chord_reveal(3, 3, 30));
    assert!(!game.toggle_flag(3, 3));
}

#[test]
fn reset_leaves_terminal_state() {
    let mut game = Game::new(custom(4, 4, 3));
    assert!(game.start_with_mines(&vec![0, 5, 10], 0));
    assert!(game.reveal_cell(0, 0, 20));
    assert_eq!(game.status(), GameStatus::Lost);

    game.reset(custom(5, 5, 4));
    assert_eq!(game.status(), GameStatus::Ready);
    assert_eq!(game.settings().width, 5);
    assert_eq!(game.flags_left(), 4);
    assert_eq!(count_cells(&game, |cell| cell.revealed || cell.flagged || cell.mine), 0);
}

#[test]
fn toggle_flag_twice_restores_the_cell() {
    let mut game = Game::new(custom(5, 5, 3));
    let before = game.cell(2, 3).unwrap();
    let flags_before = game.flags_left();

    assert!(game.toggle_flag(2, 3));
    assert!(game.cell(2, 3).unwrap().flagged);
    assert!(game.toggle_flag(2, 3));

    assert_eq!(game.cell(2, 3).unwrap(), before);
    assert_eq!(game.flags_left(), flags_before);
}

#[test]
fn rejected_reveal_keeps_the_flag() {
    let mut game = Game::new(custom(5, 5, 3));
    assert!(game.toggle_flag(1, 1));
    assert!(!game.reveal_cell(1, 1, 10));
    let cell = game.cell(1, 1).unwrap();
    assert!(cell.flagged && !cell.revealed);
    assert_eq!(game.status(), GameStatus::Ready);
}

#[test]
fn flags_left_goes_negative_when_over_flagged() {
    let mut game = Game::new(custom(5, 5, 2));
    assert!(game.toggle_flag(0, 0));
    assert!(game.toggle_flag(1, 0));
    assert!(game.toggle_flag(2, 0));
    assert_eq!(game.flags_left(), -1);
}

#[test]
fn elapsed_ms_tracks_start_and_freezes_when_finished() {
    let mut game = Game::new(custom(3, 3, 1));
    assert_eq!(game.elapsed_ms(500), 0);

    assert!(game.start_with_mines(&vec![8], 1000));
    assert_eq!(game.elapsed_ms(1450), 450);
    // a clock running behind the recorded start clamps at zero
    assert_eq!(game.elapsed_ms(900), 0);

    assert!(game.reveal_cell(0, 0, 3000));
    assert_eq!(game.status(), GameStatus::Won);
    assert_eq!(game.elapsed_ms(9999), 2000);
}

#[test]
fn cell_is_none_out_of_bounds() {
    let game = Game::new(custom(5, 4, 3));
    assert!(game.cell(4, 3).is_some());
    assert!(game.cell(5, 3).is_none());
    assert!(game.cell(4, 4).is_none());
    assert!(game.cell(99, 0).is_none());
}

#[test]
fn start_with_mines_rejects_bad_layouts() {
    let mut game = Game::new(custom(3, 3, 2));
    // wrong count
    assert!(!game.start_with_mines(&vec![0], 0));
    // duplicate
    assert!(!game.start_with_mines(&vec![4, 4], 0));
    // out of bounds
    assert!(!game.start_with_mines(&vec![0, 9], 0));
    assert_eq!(game.status(), GameStatus::Ready);

    assert!(game.start_with_mines(&vec![0, 8], 0));
    assert_eq!(game.status(), GameStatus::Running);
    // only legal from Ready
    assert!(!game.start_with_mines(&vec![1, 2], 0));
}

#[test]
fn adjacency_hints_count_neighboring_mines() {
    let mut game = Game::new(custom(3, 3, 2));
    assert!(game.start_with_mines(&vec![0, 8], 0));
    assert!(game.reveal_cell(1, 1, 5));
    assert_eq!(game.cell(1, 1).unwrap().adjacent, 2);
    assert!(game.reveal_cell(1, 0, 6));
    assert_eq!(game.cell(1, 0).unwrap().adjacent, 1);
}
