use mine_rs::app::{App, AppGame, AppMenu, AppVariant, MenuItem};
use mine_rs::controls::{ControlsSupport, MoveCursorDirection};
use mine_rs::field::FieldError;
use mine_rs::{MinesweeperError, MinesweeperStatus};

#[test]
fn a_menu_starts_with_defaults_when_no_parameters_are_given() {
    let menu = AppMenu::new(None, None, None);
    assert_eq!(menu.rows_amount, 16);
    assert_eq!(menu.columns_amount, 16);
    assert_eq!(menu.mines_amount, 40);
    assert_eq!(menu.selected_item, MenuItem::ColumnsAmount);
    assert!(menu.error.is_none());
    assert!(!menu.should_quit);
}

#[test]
fn the_menu_cursor_moves_between_entries_and_steps_values() {
    let mut menu = AppMenu::new(Some(5), Some(5), Some(5));

    menu.move_cursor(MoveCursorDirection::Down);
    assert_eq!(menu.selected_item, MenuItem::RowsAmount);
    menu.move_cursor(MoveCursorDirection::Down);
    assert_eq!(menu.selected_item, MenuItem::MinesAmount);
    menu.move_cursor(MoveCursorDirection::Down);
    assert_eq!(menu.selected_item, MenuItem::MinesAmount);

    menu.move_cursor(MoveCursorDirection::Left);
    assert_eq!(menu.mines_amount, 4);
    menu.move_cursor(MoveCursorDirection::Right);
    menu.move_cursor(MoveCursorDirection::Right);
    assert_eq!(menu.mines_amount, 6);

    menu.move_cursor(MoveCursorDirection::Up);
    assert_eq!(menu.selected_item, MenuItem::RowsAmount);
    menu.move_cursor(MoveCursorDirection::Up);
    assert_eq!(menu.selected_item, MenuItem::ColumnsAmount);
    menu.move_cursor(MoveCursorDirection::Up);
    assert_eq!(menu.selected_item, MenuItem::ColumnsAmount);

    // values saturate at zero instead of wrapping
    for _ in 0..10 {
        menu.move_cursor(MoveCursorDirection::Left);
    }
    assert_eq!(menu.columns_amount, 0);
}

#[test]
fn restore_default_resets_only_the_selected_entry() {
    let mut menu = AppMenu::new(Some(5), Some(6), Some(7));
    menu.move_cursor(MoveCursorDirection::Down);
    menu.restore_default();
    assert_eq!(menu.rows_amount, 16);
    assert_eq!(menu.columns_amount, 6);
    assert_eq!(menu.mines_amount, 7);
}

#[test]
fn the_app_starts_in_a_game_only_with_all_parameters() {
    let in_game = App::new(Some(5), Some(5), Some(5)).unwrap();
    assert!(matches!(in_game.variant, AppVariant::InGame(_)));
    assert!(!in_game.should_quit);

    let in_menu = App::new(Some(5), None, Some(5)).unwrap();
    assert!(matches!(in_menu.variant, AppVariant::InMenu(_)));
}

#[test]
fn the_app_refuses_bad_game_parameters() {
    let result = App::new(Some(1), Some(1), Some(1));
    assert!(result
        .is_err_and(|err| err == MinesweeperError::FieldError(FieldError::NotEnoughCells)));
}

#[test]
fn the_main_action_in_the_menu_starts_a_game_or_keeps_the_error() {
    let mut app = App::new(None, None, None).unwrap();
    app.perform_main_action().unwrap();
    assert!(matches!(app.variant, AppVariant::InGame(_)));

    let mut broken = App::new(None, None, None).unwrap();
    if let AppVariant::InMenu(menu) = &mut broken.variant {
        menu.mines_amount = 999;
    }
    broken.perform_main_action().unwrap();
    match &broken.variant {
        AppVariant::InMenu(menu) => {
            assert_eq!(
                menu.error,
                Some(MinesweeperError::FieldError(FieldError::InvalidMinesAmount(255)))
            );
        }
        AppVariant::InGame(_) => panic!("a bad configuration must not start a game"),
    }
}

#[test]
fn the_game_cursor_moves_inside_the_field_and_slides_the_window() {
    let mut game = AppGame::new(5, 5, 3).unwrap();
    game.visible_rows_amount = 3;
    game.visible_columns_amount = 3;

    game.move_cursor(MoveCursorDirection::Down);
    assert_eq!(game.cursor_position, (1, 0));
    game.move_cursor(MoveCursorDirection::Right);
    assert_eq!(game.cursor_position, (1, 1));

    // the cursor stops at the field's edge
    for _ in 0..10 {
        game.move_cursor(MoveCursorDirection::Down);
    }
    assert_eq!(game.cursor_position.0, 4);
    // and the window slid after it, stopping at its own limit
    assert_eq!(game.window_offset.0, 2);

    for _ in 0..10 {
        game.move_cursor(MoveCursorDirection::Up);
    }
    assert_eq!(game.cursor_position.0, 0);
    assert_eq!(game.window_offset.0, 0);
}

#[test]
fn the_game_cursor_ignores_moves_while_paused() {
    let mut app = App::new(Some(3), Some(3), Some(7)).unwrap();
    app.perform_main_action().unwrap();
    app.pause();
    if let AppVariant::InGame(game) = &app.variant {
        assert_eq!(game.game.get_status(), MinesweeperStatus::Pause);
    } else {
        panic!("the app must still show the game");
    }

    app.move_cursor(MoveCursorDirection::Down);
    if let AppVariant::InGame(game) = &app.variant {
        assert_eq!(game.cursor_position, (0, 0));
    } else {
        panic!("the app must still show the game");
    }
}

#[test]
fn leaving_a_running_game_asks_for_a_confirmation_first() {
    let mut app = App::new(Some(3), Some(3), Some(7)).unwrap();
    app.perform_main_action().unwrap();

    app.leave(false);
    if let AppVariant::InGame(game) = &app.variant {
        assert!(game.awaiting_leave_confirmation);
        assert!(!game.should_leave);
    } else {
        panic!("the app must still show the game");
    }

    // the main action confirms the pending leave, and a tick goes back to
    // the menu with the game's parameters
    app.perform_main_action().unwrap();
    app.tick();
    match &app.variant {
        AppVariant::InMenu(menu) => {
            assert_eq!(menu.rows_amount, 3);
            assert_eq!(menu.columns_amount, 3);
            assert_eq!(menu.mines_amount, 7);
        }
        AppVariant::InGame(_) => panic!("the app must be back in the menu"),
    }
}

#[test]
fn a_forced_leave_quits_the_application() {
    let mut app = App::new(Some(3), Some(3), Some(7)).unwrap();
    app.perform_main_action().unwrap();
    app.leave(true);
    app.tick();
    assert!(app.should_quit);
}

#[test]
fn quitting_from_the_menu_stops_the_application() {
    let mut app = App::new(None, None, None).unwrap();
    app.leave(false);
    app.tick();
    assert!(app.should_quit);
}
