use mine_rs::field::FieldError;
use mine_rs::{Minesweeper, MinesweeperAction, MinesweeperError, MinesweeperStatus};

#[test]
fn game_new_propagates_field_errors() {
    let too_small = Minesweeper::new(1, 1, 1);
    assert!(too_small
        .is_err_and(|err| err == MinesweeperError::FieldError(FieldError::NotEnoughCells)));

    let too_many_mines = Minesweeper::new(3, 3, 9);
    assert!(too_many_mines
        .is_err_and(|err| err == MinesweeperError::FieldError(FieldError::InvalidMinesAmount(8))));
}

#[test]
fn a_new_game_reports_zero_time_and_the_pre_status() {
    let game = Minesweeper::new(3, 3, 3).unwrap();
    assert_eq!(game.get_status(), MinesweeperStatus::Pre);
    assert_eq!(game.get_time(), 0);
}

#[test]
fn the_first_open_starts_the_game_and_never_hits_a_mine() {
    // 9 cells with 7 mines: only two cells stay empty, so the first open
    // reveals a cell with a positive count and the game must keep going.
    for _ in 0..25 {
        let mut game = Minesweeper::new(3, 3, 7).unwrap();
        let status = game
            .take_action(MinesweeperAction::OpenCell((1, 1)))
            .unwrap();
        assert_eq!(status, MinesweeperStatus::On);

        let opened = game.get_field().get_cell((1, 1)).unwrap();
        assert!(opened.is_open());
        assert!(!opened.is_mined());
    }
}

#[test]
fn the_first_open_on_an_invalid_position_is_an_error() {
    let mut game = Minesweeper::new(3, 3, 3).unwrap();
    let result = game.take_action(MinesweeperAction::OpenCell((9, 9)));
    assert!(result.is_err_and(|err| err
        == MinesweeperError::FieldError(FieldError::InvalidExceptedCellPosition((9, 9)))));
    assert_eq!(game.get_status(), MinesweeperStatus::Pre);
}

#[test]
fn the_first_open_can_win_a_two_cell_game_outright() {
    // Two cells, one mine: the excepted first cell is the only empty one, so
    // opening it opens every non-mined cell at once.
    let mut game = Minesweeper::new(2, 1, 1).unwrap();
    let status = game
        .take_action(MinesweeperAction::OpenCell((0, 0)))
        .unwrap();
    assert_eq!(status, MinesweeperStatus::End(true));
    assert!(game.get_field().get_cell((1, 0)).unwrap().is_mined());
}

#[test]
fn opening_a_mine_loses_and_reveals_the_missed_mines() {
    let mut game = Minesweeper::new(3, 3, 7).unwrap();
    game.take_action(MinesweeperAction::OpenCell((1, 1)))
        .unwrap();

    // find some mined cell and open it
    let mut mined_position = None;
    for r in 0..3u8 {
        for c in 0..3u8 {
            if game.get_field().get_cell((r, c)).unwrap().is_mined() {
                mined_position = Some((r, c));
            }
        }
    }
    let mined_position = mined_position.unwrap();
    let status = game
        .take_action(MinesweeperAction::OpenCell(mined_position))
        .unwrap();
    assert_eq!(status, MinesweeperStatus::End(false));

    // every mine was unflagged, so the loss revealed them all
    for r in 0..3u8 {
        for c in 0..3u8 {
            let cell = game.get_field().get_cell((r, c)).unwrap();
            if cell.is_mined() {
                assert!(cell.is_open());
            }
        }
    }
}

#[test]
fn actions_after_the_end_fail_and_change_nothing() {
    let mut game = Minesweeper::new(2, 1, 1).unwrap();
    let status = game
        .take_action(MinesweeperAction::OpenCell((0, 0)))
        .unwrap();
    assert_eq!(status, MinesweeperStatus::End(true));

    let flags_before = game.get_field().get_flagged_cells_amount();
    let result = game.take_action(MinesweeperAction::FlagCell((1, 0)));
    assert!(result.is_err_and(|err| err == MinesweeperError::GameAlreadyEnded));
    assert_eq!(game.get_field().get_flagged_cells_amount(), flags_before);
    assert_eq!(game.get_status(), MinesweeperStatus::End(true));
}

#[test]
fn pausing_freezes_the_board_and_resuming_unfreezes_it() {
    let mut game = Minesweeper::new(3, 3, 7).unwrap();
    game.take_action(MinesweeperAction::OpenCell((1, 1)))
        .unwrap();

    game.toggle_pause();
    assert_eq!(game.get_status(), MinesweeperStatus::Pause);

    // while paused, every action is a no-op that reports the paused status
    let status = game
        .take_action(MinesweeperAction::FlagCell((0, 0)))
        .unwrap();
    assert_eq!(status, MinesweeperStatus::Pause);
    assert!(!game.get_field().get_cell((0, 0)).unwrap().is_flagged());

    game.toggle_pause();
    assert_eq!(game.get_status(), MinesweeperStatus::On);

    // resumed: the same action works again
    game.take_action(MinesweeperAction::FlagCell((0, 0)))
        .unwrap();
    assert!(game.get_field().get_cell((0, 0)).unwrap().is_flagged());
}

#[test]
fn flagging_every_mine_and_chording_wins_the_game() {
    let mut game = Minesweeper::new(3, 3, 7).unwrap();
    game.take_action(MinesweeperAction::OpenCell((1, 1)))
        .unwrap();

    // flag all seven mines
    for r in 0..3u8 {
        for c in 0..3u8 {
            if game.get_field().get_cell((r, c)).unwrap().is_mined() {
                game.take_action(MinesweeperAction::FlagCell((r, c))).unwrap();
            }
        }
    }
    assert_eq!(game.get_field().get_flagged_cells_amount(), 7);

    // the combined action on the open middle cell resolves to the chord,
    // which opens the one remaining empty cell
    let status = game
        .take_action(MinesweeperAction::OpenCellOrSurroundingCells((1, 1)))
        .unwrap();
    assert_eq!(status, MinesweeperStatus::End(true));
}

#[test]
fn the_combined_action_does_nothing_outside_the_field() {
    let mut game = Minesweeper::new(3, 3, 7).unwrap();
    game.take_action(MinesweeperAction::OpenCell((1, 1)))
        .unwrap();

    let status = game
        .take_action(MinesweeperAction::OpenCellOrSurroundingCells((9, 9)))
        .unwrap();
    assert_eq!(status, MinesweeperStatus::On);
}
