//! The terminal application's state: the menu screen, the game screen, and
//! the application that switches between the two. Only state lives here;
//! drawing the screens and decoding raw key events belong to the front end.

use vstd::prelude::*;

use crate::controls::{ControlsSupport, MoveCursorDirection};
use crate::field::FieldError;
use crate::{Minesweeper, MinesweeperAction, MinesweeperError, MinesweeperStatus};

verus! {

pub const DEFAULT_ROWS_AMOUNT: u8 = 16;

pub const DEFAULT_COLUMNS_AMOUNT: u8 = 16;

pub const DEFAULT_MINES_AMOUNT: u16 = 40;

/// Whether a field of these dimensions with this many mines can be created.
pub open spec fn valid_game_params(rows_amount: u8, columns_amount: u8, mines_amount: u16) -> bool {
    &&& (rows_amount as int) * (columns_amount as int) >= 2
    &&& 1 <= mines_amount as int <= (rows_amount as int) * (columns_amount as int) - 1
}

/// The error a game creation with the given parameters fails with, assuming
/// they are not valid.
pub open spec fn game_params_error(rows_amount: u8, columns_amount: u8, mines_amount: u16) -> MinesweeperError {
    if (rows_amount as int) * (columns_amount as int) < 2 {
        MinesweeperError::FieldError(FieldError::NotEnoughCells)
    } else {
        MinesweeperError::FieldError(
            FieldError::InvalidMinesAmount(
                ((rows_amount as int) * (columns_amount as int) - 1) as u16,
            ),
        )
    }
}

/// The smaller of two bytes.
pub open spec fn min8(a: u8, b: u8) -> u8 {
    if a < b {
        a
    } else {
        b
    }
}

/// The rows, columns or mines entry of the menu.
#[derive(Clone, Copy, Debug, PartialEq, Eq)]
pub enum MenuItem {
    ColumnsAmount,
    RowsAmount,
    MinesAmount,
}

/// The entry above `item` in the menu layout; the top entry stays put.
pub open spec fn menu_selection_up(item: MenuItem) -> MenuItem {
    match item {
        MenuItem::ColumnsAmount => MenuItem::ColumnsAmount,
        MenuItem::RowsAmount => MenuItem::ColumnsAmount,
        MenuItem::MinesAmount => MenuItem::RowsAmount,
    }
}

/// The entry below `item` in the menu layout; the bottom entry stays put.
pub open spec fn menu_selection_down(item: MenuItem) -> MenuItem {
    match item {
        MenuItem::ColumnsAmount => MenuItem::RowsAmount,
        MenuItem::RowsAmount => MenuItem::MinesAmount,
        MenuItem::MinesAmount => MenuItem::MinesAmount,
    }
}

/// The menu screen: the game parameters being edited, which entry the
/// cursor is on, the last configuration error, and the quit request.
#[derive(Debug)]
pub struct AppMenu {
    pub rows_amount: u8,
    pub columns_amount: u8,
    pub mines_amount: u16,
    pub selected_item: MenuItem,
    pub error: Option<MinesweeperError>,
    pub should_quit: bool,
}

impl AppMenu {
    /// A fresh menu: the given parameters where present, the defaults where
    /// not, with the cursor on the first entry.
    pub fn new(rows_amount: Option<u8>, columns_amount: Option<u8>, mines_amount: Option<u16>) -> (r:
        AppMenu)
        ensures
            r.rows_amount == (match rows_amount {
                Some(v) => v,
                None => DEFAULT_ROWS_AMOUNT,
            }),
            r.columns_amount == (match columns_amount {
                Some(v) => v,
                None => DEFAULT_COLUMNS_AMOUNT,
            }),
            r.mines_amount == (match mines_amount {
                Some(v) => v,
                None => DEFAULT_MINES_AMOUNT,
            }),
            r.selected_item == MenuItem::ColumnsAmount,
            r.error is None,
            !r.should_quit,
    {
        AppMenu {
            rows_amount: match rows_amount {
                Some(v) => v,
                None => DEFAULT_ROWS_AMOUNT,
            },
            columns_amount: match columns_amount {
                Some(v) => v,
                None => DEFAULT_COLUMNS_AMOUNT,
            },
            mines_amount: match mines_amount {
                Some(v) => v,
                None => DEFAULT_MINES_AMOUNT,
            },
            selected_item: MenuItem::ColumnsAmount,
            error: None,
            should_quit: false,
        }
    }

    /// Moves between the menu entries (up and down), or steps the selected
    /// entry's value (left to lower it, right to raise it), saturating at
    /// the ends.
    pub fn move_cursor(&mut self, direction: MoveCursorDirection)
        ensures
            final(self).error == old(self).error,
            final(self).should_quit == old(self).should_quit,
            final(self).selected_item == (match direction {
                MoveCursorDirection::Up => menu_selection_up(old(self).selected_item),
                MoveCursorDirection::Down => menu_selection_down(old(self).selected_item),
                MoveCursorDirection::Left | MoveCursorDirection::Right => old(self).selected_item,
            }),
            (direction == MoveCursorDirection::Up || direction == MoveCursorDirection::Down) ==> {
                &&& final(self).rows_amount == old(self).rows_amount
                &&& final(self).columns_amount == old(self).columns_amount
                &&& final(self).mines_amount == old(self).mines_amount
            },
            direction == MoveCursorDirection::Left ==> {
                &&& final(self).columns_amount == (if old(self).selected_item
                    == MenuItem::ColumnsAmount {
                    old(self).columns_amount.saturating_sub(1)
                } else {
                    old(self).columns_amount
                })
                &&& final(self).rows_amount == (if old(self).selected_item
                    == MenuItem::RowsAmount {
                    old(self).rows_amount.saturating_sub(1)
                } else {
                    old(self).rows_amount
                })
                &&& final(self).mines_amount == (if old(self).selected_item
                    == MenuItem::MinesAmount {
                    old(self).mines_amount.saturating_sub(1)
                } else {
                    old(self).mines_amount
                })
            },
            direction == MoveCursorDirection::Right ==> {
                &&& final(self).columns_amount == (if old(self).selected_item
                    == MenuItem::ColumnsAmount {
                    old(self).columns_amount.saturating_add(1)
                } else {
                    old(self).columns_amount
                })
                &&& final(self).rows_amount == (if old(self).selected_item
                    == MenuItem::RowsAmount {
                    old(self).rows_amount.saturating_add(1)
                } else {
                    old(self).rows_amount
                })
                &&& final(self).mines_amount == (if old(self).selected_item
                    == MenuItem::MinesAmount {
                    old(self).mines_amount.saturating_add(1)
                } else {
                    old(self).mines_amount
                })
            },
    {
        match direction {
            MoveCursorDirection::Up => {
                self.selected_item = match self.selected_item {
                    MenuItem::ColumnsAmount => MenuItem::ColumnsAmount,
                    MenuItem::RowsAmount => MenuItem::ColumnsAmount,
                    MenuItem::MinesAmount => MenuItem::RowsAmount,
                };
            },
            MoveCursorDirection::Down => {
                self.selected_item = match self.selected_item {
                    MenuItem::ColumnsAmount => MenuItem::RowsAmount,
                    MenuItem::RowsAmount => MenuItem::MinesAmount,
                    MenuItem::MinesAmount => MenuItem::MinesAmount,
                };
            },
            MoveCursorDirection::Left => {
                match self.selected_item {
                    MenuItem::ColumnsAmount => {
                        self.columns_amount = self.columns_amount.saturating_sub(1);
                    },
                    MenuItem::RowsAmount => {
                        self.rows_amount = self.rows_amount.saturating_sub(1);
                    },
                    MenuItem::MinesAmount => {
                        self.mines_amount = self.mines_amount.saturating_sub(1);
                    },
                }
            },
            MoveCursorDirection::Right => {
                match self.selected_item {
                    MenuItem::ColumnsAmount => {
                        self.columns_amount = self.columns_amount.saturating_add(1);
                    },
                    MenuItem::RowsAmount => {
                        self.rows_amount = self.rows_amount.saturating_add(1);
                    },
                    MenuItem::MinesAmount => {
                        self.mines_amount = self.mines_amount.saturating_add(1);
                    },
                }
            },
        }
    }

    /// Creates a game screen from the parameters currently in the menu.
    pub fn create_new_game(&self) -> (result: Result<AppGame, MinesweeperError>)
        ensures
            match result {
                Ok(game) => {
                    &&& valid_game_params(
                        self.rows_amount,
                        self.columns_amount,
                        self.mines_amount,
                    )
                    &&& game.wf()
                    &&& game.fresh_screen()
                    &&& game.game.status == MinesweeperStatus::Pre
                    &&& game.game.field.rows() == self.rows_amount as int
                    &&& game.game.field.cols() == self.columns_amount as int
                    &&& game.game.field.mines_amount == self.mines_amount
                },
                Err(e) => {
                    &&& !valid_game_params(
                        self.rows_amount,
                        self.columns_amount,
                        self.mines_amount,
                    )
                    &&& e == game_params_error(
                        self.rows_amount,
                        self.columns_amount,
                        self.mines_amount,
                    )
                },
            },
    {
        AppGame::new(self.rows_amount, self.columns_amount, self.mines_amount)
    }

    /// Restores the selected entry to its default value.
    pub fn restore_default(&mut self)
        ensures
            final(self).selected_item == old(self).selected_item,
            final(self).error == old(self).error,
            final(self).should_quit == old(self).should_quit,
            final(self).columns_amount == (if old(self).selected_item == MenuItem::ColumnsAmount {
                DEFAULT_COLUMNS_AMOUNT
            } else {
                old(self).columns_amount
            }),
            final(self).rows_amount == (if old(self).selected_item == MenuItem::RowsAmount {
                DEFAULT_ROWS_AMOUNT
            } else {
                old(self).rows_amount
            }),
            final(self).mines_amount == (if old(self).selected_item == MenuItem::MinesAmount {
                DEFAULT_MINES_AMOUNT
            } else {
                old(self).mines_amount
            }),
    {
        match self.selected_item {
            MenuItem::ColumnsAmount => self.columns_amount = DEFAULT_COLUMNS_AMOUNT,
            MenuItem::RowsAmount => self.rows_amount = DEFAULT_ROWS_AMOUNT,
            MenuItem::MinesAmount => self.mines_amount = DEFAULT_MINES_AMOUNT,
        }
    }

    /// Asks to quit the application from the menu.
    pub fn quit(&mut self)
        ensures
            final(self).should_quit,
            final(self).rows_amount == old(self).rows_amount,
            final(self).columns_amount == old(self).columns_amount,
            final(self).mines_amount == old(self).mines_amount,
            final(self).selected_item == old(self).selected_item,
            final(self).error == old(self).error,
    {
        self.should_quit = true;
    }
}

/// Where the sliding window over the field settles after the cursor moved:
/// it follows the cursor one step at a time, stopping at the field's edge.
/// The arithmetic saturates, so a window that was never sized (or sized
/// inconsistently) still settles somewhere instead of failing.
pub open spec fn adjusted_offset(cursor: u8, offset: u8, visible: u8, extent: u8) -> u8 {
    if cursor > offset.saturating_add(visible).saturating_sub(2) {
        min8(offset.saturating_add(1), extent.saturating_sub(visible))
    } else if cursor <= offset {
        offset.saturating_sub(1)
    } else {
        offset
    }
}

/// The game screen: the game itself, the part of the field shown, the
/// cursor, and the state of leaving the screen.
#[derive(Debug)]
pub struct AppGame {
    /// The game instance.
    pub game: Minesweeper,
    /// How many rows the front end can show; at most the field's height.
    pub visible_rows_amount: u8,
    /// How many columns the front end can show; at most the field's width.
    pub visible_columns_amount: u8,
    /// The top-left corner of the sliding window into the field.
    pub window_offset: (u8, u8),
    /// The selected cell, relative to the whole field.
    pub cursor_position: (u8, u8),
    /// Whether the screen is waiting for the player to confirm leaving.
    pub awaiting_leave_confirmation: bool,
    /// Whether leaving back to the menu was confirmed.
    pub should_leave: bool,
    /// Whether the application should quit at once.
    pub should_emergency_leave: bool,
}

impl AppGame {
    /// A usable game screen: the game keeps its invariant and the cursor
    /// points at a cell of the field.
    pub open spec fn wf(self) -> bool {
        &&& self.game.inv()
        &&& (self.cursor_position.0 as int) < self.game.field.rows()
        &&& (self.cursor_position.1 as int) < self.game.field.cols()
    }

    /// The screen state a game starts with, everything zeroed and nothing
    /// requested.
    pub open spec fn fresh_screen(self) -> bool {
        &&& self.visible_rows_amount == 0
        &&& self.visible_columns_amount == 0
        &&& self.window_offset == ((0u8, 0u8))
        &&& self.cursor_position == ((0u8, 0u8))
        &&& !self.awaiting_leave_confirmation
        &&& !self.should_leave
        &&& !self.should_emergency_leave
    }

    /// Creates a game screen over a new game with the given parameters,
    /// propagating the game's validation errors.
    pub fn new(rows_amount: u8, columns_amount: u8, mines_amount: u16) -> (result: Result<
        AppGame,
        MinesweeperError,
    >)
        ensures
            match result {
                Ok(game) => {
                    &&& valid_game_params(rows_amount, columns_amount, mines_amount)
                    &&& game.wf()
                    &&& game.fresh_screen()
                    &&& game.game.status == MinesweeperStatus::Pre
                    &&& game.game.field.rows() == rows_amount as int
                    &&& game.game.field.cols() == columns_amount as int
                    &&& game.game.field.mines_amount == mines_amount
                },
                Err(e) => {
                    &&& !valid_game_params(rows_amount, columns_amount, mines_amount)
                    &&& e == game_params_error(rows_amount, columns_amount, mines_amount)
                },
            },
    {
        let game = match Minesweeper::new(rows_amount, columns_amount, mines_amount) {
            Ok(game) => game,
            Err(e) => {
                return Err(e);
            },
        };

        Ok(
            AppGame {
                game,
                visible_rows_amount: 0,
                visible_columns_amount: 0,
                window_offset: (0, 0),
                cursor_position: (0, 0),
                awaiting_leave_confirmation: false,
                should_leave: false,
                should_emergency_leave: false,
            },
        )
    }

    /// Moves the cursor one step, clamped to the field, and slides the
    /// window after it; a paused or finished game ignores the request.
    pub fn move_cursor(&mut self, direction: MoveCursorDirection)
        requires
            old(self).wf(),
        ensures
            final(self).wf(),
            final(self).game == old(self).game,
            (old(self).game.status == MinesweeperStatus::Pause || old(self).game.status matches
                MinesweeperStatus::End(_)) ==> *final(self) == *old(self),
            !(old(self).game.status == MinesweeperStatus::Pause || old(self).game.status matches
                MinesweeperStatus::End(_)) ==> {
                let rows = old(self).game.field.rows();
                let cols = old(self).game.field.cols();
                let moved = (match direction {
                    MoveCursorDirection::Up => (
                        old(self).cursor_position.0.saturating_sub(1),
                        old(self).cursor_position.1,
                    ),
                    MoveCursorDirection::Left => (
                        old(self).cursor_position.0,
                        old(self).cursor_position.1.saturating_sub(1),
                    ),
                    MoveCursorDirection::Down => (
                        min8((old(self).cursor_position.0 + 1) as u8, (rows - 1) as u8),
                        old(self).cursor_position.1,
                    ),
                    MoveCursorDirection::Right => (
                        old(self).cursor_position.0,
                        min8((old(self).cursor_position.1 + 1) as u8, (cols - 1) as u8),
                    ),
                });
                &&& final(self).cursor_position == moved
                &&& final(self).window_offset == ((
                    adjusted_offset(
                        moved.0,
                        old(self).window_offset.0,
                        old(self).visible_rows_amount,
                        (rows as u8),
                    ),
                    adjusted_offset(
                        moved.1,
                        old(self).window_offset.1,
                        old(self).visible_columns_amount,
                        (cols as u8),
                    ),
                ))
                &&& final(self).visible_rows_amount == old(self).visible_rows_amount
                &&& final(self).visible_columns_amount == old(self).visible_columns_amount
                &&& final(self).awaiting_leave_confirmation == old(self).awaiting_leave_confirmation
                &&& final(self).should_leave == old(self).should_leave
                &&& final(self).should_emergency_leave == old(self).should_emergency_leave
            },
    {
        // don't move the cursor when the game's paused or already finished
        match self.game.get_status() {
            MinesweeperStatus::Pause | MinesweeperStatus::End(_) => {
                return ;
            },
            _ => {},
        }

        let (field_height, field_width, _) = self.game.get_field().get_size();
        let (cy, cx) = self.cursor_position;

        self.cursor_position = match direction {
            MoveCursorDirection::Up => (cy.saturating_sub(1), cx),
            MoveCursorDirection::Left => (cy, cx.saturating_sub(1)),
            MoveCursorDirection::Down => (
                if cy + 1 < field_height - 1 {
                    cy + 1
                } else {
                    field_height - 1
                },
                cx,
            ),
            MoveCursorDirection::Right => (
                cy,
                if cx + 1 < field_width - 1 {
                    cx + 1
                } else {
                    field_width - 1
                },
            ),
        };

        let (cy, cx) = self.cursor_position;
        let (oy, ox) = self.window_offset;

        let new_oy = if cy > oy.saturating_add(self.visible_rows_amount).saturating_sub(2) {
            let limit = field_height.saturating_sub(self.visible_rows_amount);
            let stepped = oy.saturating_add(1);
            if stepped < limit {
                stepped
            } else {
                limit
            }
        } else if cy <= oy {
            oy.saturating_sub(1)
        } else {
            oy
        };
        let new_ox = if cx > ox.saturating_add(self.visible_columns_amount).saturating_sub(2) {
            let limit = field_width.saturating_sub(self.visible_columns_amount);
            let stepped = ox.saturating_add(1);
            if stepped < limit {
                stepped
            } else {
                limit
            }
        } else if cx <= ox {
            ox.saturating_sub(1)
        } else {
            ox
        };
        self.window_offset = (new_oy, new_ox);
    }

    /// The screen's main action: confirm a pending leave, restart with the
    /// same parameters when the game has ended, and otherwise open the cell
    /// under the cursor or chord around it.
    pub fn open_cell_or_surrounding_cells_or_confirm_leave(&mut self) -> (result: Result<
        Option<(u8, u8, u16)>,
        MinesweeperError,
    >)
        requires
            old(self).wf(),
        ensures
            final(self).wf(),
            old(self).awaiting_leave_confirmation ==> {
                &&& result == Ok::<Option<(u8, u8, u16)>, MinesweeperError>(None)
                &&& final(self).should_leave
                &&& final(self).game == old(self).game
                &&& final(self).cursor_position == old(self).cursor_position
            },
            (!old(self).awaiting_leave_confirmation && old(self).game.status matches
                MinesweeperStatus::End(_)) ==> {
                &&& result == Ok::<Option<(u8, u8, u16)>, MinesweeperError>(
                    Some(
                        (
                            (old(self).game.field.rows() as u8),
                            (old(self).game.field.cols() as u8),
                            old(self).game.field.mines_amount,
                        ),
                    ),
                )
                &&& *final(self) == *old(self)
            },
            (!old(self).awaiting_leave_confirmation && !(old(self).game.status matches
                MinesweeperStatus::End(_))) ==> {
                &&& (result matches Ok(r) ==> r is None)
                &&& (old(self).game.status == MinesweeperStatus::Pause ==> (final(self).game == old(self).game && result is Ok))
                &&& ((old(self).game.status == MinesweeperStatus::Pre || old(self).game.status
                    == MinesweeperStatus::On) ==> crate::take_action_live_post(
                    old(self).game,
                    final(self).game,
                    (match result {
                        Ok(_) => Ok::<MinesweeperStatus, MinesweeperError>(final(self).game.status),
                        Err(e) => Err::<MinesweeperStatus, MinesweeperError>(e),
                    }),
                    MinesweeperAction::OpenCellOrSurroundingCells(old(self).cursor_position),
                ))
                &&& final(self).cursor_position == old(self).cursor_position
                &&& final(self).should_leave == old(self).should_leave
                &&& final(self).awaiting_leave_confirmation == old(self).awaiting_leave_confirmation
            },
    {
        if self.awaiting_leave_confirmation {
            self.leave();
            return Ok(None);
        }

        let ended = matches!(self.game.get_status(), MinesweeperStatus::End(_));
        if ended {
            // the game has ended: ask for a fresh one with the same shape
            let (height, width, _) = self.game.get_field().get_size();
            let mines = self.game.get_field().get_mines_amount();
            return Ok(Some((height, width, mines)));
        }

        // otherwise, open a cell or its surrounding cells
        match self.game.take_action(
            MinesweeperAction::OpenCellOrSurroundingCells(self.cursor_position),
        ) {
            Ok(_) => {},
            Err(e) => {
                return Err(e);
            },
        }

        Ok(None)
    }

    /// Toggles the flag of the cell under the cursor; only an ongoing game
    /// takes the request.
    pub fn toggle_flag(&mut self) -> (result: Result<(), MinesweeperError>)
        requires
            old(self).wf(),
        ensures
            final(self).wf(),
            result is Ok,
            old(self).game.status != MinesweeperStatus::On ==> *final(self) == *old(self),
            old(self).game.status == MinesweeperStatus::On ==> {
                &&& crate::take_action_live_post(
                    old(self).game,
                    final(self).game,
                    Ok::<MinesweeperStatus, MinesweeperError>(final(self).game.status),
                    MinesweeperAction::FlagCell(old(self).cursor_position),
                )
                &&& final(self).cursor_position == old(self).cursor_position
            },
    {
        let is_on = matches!(self.game.get_status(), MinesweeperStatus::On);
        if is_on {
            match self.game.take_action(MinesweeperAction::FlagCell(self.cursor_position)) {
                Ok(_) => {},
                Err(e) => {
                    proof {
                        assert(false);
                    }
                    return Err(e);
                },
            }
        }

        Ok(())
    }

    /// Confirms or cancels a pending leave; when the game has already ended
    /// the screen leaves at once, without asking.
    pub fn confirm_or_cancel_leave_or_leave(&mut self)
        requires
            old(self).wf(),
        ensures
            final(self).wf(),
            final(self).game == old(self).game,
            final(self).cursor_position == old(self).cursor_position,
            old(self).game.status matches MinesweeperStatus::End(_) ==> (final(self).should_leave
                && final(self).awaiting_leave_confirmation == old(self).awaiting_leave_confirmation),
            !(old(self).game.status matches MinesweeperStatus::End(_)) ==> (final(self).awaiting_leave_confirmation == !old(self).awaiting_leave_confirmation && final(self).should_leave == old(self).should_leave),
    {
        let ended = matches!(self.game.get_status(), MinesweeperStatus::End(_));
        if ended {
            // the game has ended: leave without asking for a confirmation
            self.leave();
        } else {
            // otherwise, ask for one
            self.awaiting_leave_confirmation = !self.awaiting_leave_confirmation;
        }
    }

    /// Marks the screen as confirmed to leave back to the menu.
    pub fn leave(&mut self)
        requires
            old(self).wf(),
        ensures
            final(self).wf(),
            final(self).should_leave,
            final(self).game == old(self).game,
            final(self).cursor_position == old(self).cursor_position,
            final(self).awaiting_leave_confirmation == old(self).awaiting_leave_confirmation,
            final(self).should_emergency_leave == old(self).should_emergency_leave,
    {
        self.should_leave = true;
    }

    /// Marks the screen as urgently leaving the whole application.
    pub fn emergency_leave(&mut self)
        requires
            old(self).wf(),
        ensures
            final(self).wf(),
            final(self).should_emergency_leave,
            final(self).game == old(self).game,
            final(self).should_leave == old(self).should_leave,
    {
        self.should_emergency_leave = true;
    }
}


/// The terminal application: one screen at a time, and the request to quit.
#[derive(Debug)]
pub struct App {
    /// The screen currently shown.
    pub variant: AppVariant,
    /// Whether the main loop should stop on the next tick.
    pub should_quit: bool,
}

/// The current application screen.
#[derive(Debug)]
pub enum AppVariant {
    /// The menu is being shown.
    InMenu(AppMenu),
    /// A game is being played.
    InGame(AppGame),
}

impl App {
    /// Creates the application: straight into a game when all three
    /// parameters are given, into the menu otherwise.
    pub fn new(rows_amount: Option<u8>, columns_amount: Option<u8>, mines_amount: Option<u16>) -> (
    result: Result<App, MinesweeperError>)
        ensures
            match result {
                Ok(app) => {
                    &&& app.wf()
                    &&& !app.should_quit
                    &&& ((rows_amount is Some && columns_amount is Some && mines_amount is Some)
                        ==> app.variant matches AppVariant::InGame(_))
                    &&& (!(rows_amount is Some && columns_amount is Some && mines_amount is Some)
                        ==> app.variant matches AppVariant::InMenu(_))
                },
                Err(e) => {
                    &&& rows_amount matches Some(r)
                    &&& columns_amount matches Some(c)
                    &&& mines_amount matches Some(m)
                    &&& rows_amount matches Some(r) && columns_amount matches Some(c)
                        && mines_amount matches Some(m) ==> (!valid_game_params(r, c, m) && e
                        == game_params_error(r, c, m))
                },
            },
    {
        let variant = match (rows_amount, columns_amount, mines_amount) {
            (Some(rows), Some(columns), Some(mines)) => {
                match AppGame::new(rows, columns, mines) {
                    Ok(game) => AppVariant::InGame(game),
                    Err(e) => {
                        return Err(e);
                    },
                }
            },
            _ => AppVariant::InMenu(AppMenu::new(rows_amount, columns_amount, mines_amount)),
        };
        Ok(App { variant, should_quit: false })
    }

    /// Advances the application once: quits when the menu asked to, and
    /// leaves a game either back to the menu or out of the application.
    pub fn tick(&mut self)
        requires
            old(self).wf(),
        ensures
            final(self).wf(),
            old(self).variant matches AppVariant::InMenu(menu) ==> {
                &&& (menu.should_quit ==> (final(self).should_quit && final(self).variant == old(self).variant))
                &&& (!menu.should_quit ==> *final(self) == *old(self))
            },
            old(self).variant matches AppVariant::InGame(game) ==> {
                &&& (game.should_leave ==> (final(self).variant matches AppVariant::InMenu(_)
                    && final(self).should_quit == old(self).should_quit))
                &&& ((!game.should_leave && game.should_emergency_leave) ==> (final(self).should_quit && final(self).variant == old(self).variant))
                &&& ((!game.should_leave && !game.should_emergency_leave) ==> *final(self) == *old(self))
            },
    {
        let (menu_quits, game_leaves, game_quits) = match &self.variant {
            AppVariant::InMenu(menu) => (menu.should_quit, false, false),
            AppVariant::InGame(game) => (false, game.should_leave, game.should_emergency_leave),
        };
        if menu_quits {
            self.quit();
        } else if game_leaves {
            self.back_to_menu();
        } else if game_quits {
            self.quit();
        }
    }

    /// Leaves a game back to the menu, seeding the menu with the game's own
    /// parameters; nothing happens when the menu is already shown.
    pub fn back_to_menu(&mut self)
        requires
            old(self).wf(),
        ensures
            final(self).wf(),
            final(self).should_quit == old(self).should_quit,
            old(self).variant matches AppVariant::InMenu(_) ==> final(self).variant == old(self).variant,
            old(self).variant matches AppVariant::InGame(game) ==> (final(self).variant matches
                AppVariant::InMenu(menu) && {
                &&& menu.rows_amount as int == game.game.field.rows()
                &&& menu.columns_amount as int == game.game.field.cols()
                &&& menu.mines_amount == game.game.field.mines_amount
                &&& menu.selected_item == MenuItem::ColumnsAmount
                &&& menu.error is None
                &&& !menu.should_quit
            }),
    {
        let sizes = match &self.variant {
            AppVariant::InGame(game) => {
                let (rows_amount, columns_amount, _) = game.game.get_field().get_size();
                Some((rows_amount, columns_amount, game.game.get_field().get_mines_amount()))
            },
            AppVariant::InMenu(_) => None,
        };
        if let Some((rows_amount, columns_amount, mines_amount)) = sizes {
            self.variant = AppVariant::InMenu(
                AppMenu::new(Some(rows_amount), Some(columns_amount), Some(mines_amount)),
            );
        }
    }

    /// Quits the application altogether.
    pub fn quit(&mut self)
        requires
            old(self).wf(),
        ensures
            final(self).wf(),
            final(self).should_quit,
            final(self).variant == old(self).variant,
    {
        self.should_quit = true;
    }
}

impl ControlsSupport for AppVariant {
    open spec fn wf(&self) -> bool {
        match *self {
            AppVariant::InMenu(_) => true,
            AppVariant::InGame(game) => game.wf(),
        }
    }

    fn move_cursor(&mut self, direction: MoveCursorDirection) {
        match self {
            AppVariant::InMenu(menu) => menu.move_cursor(direction),
            AppVariant::InGame(game) => game.move_cursor(direction),
        }
    }

    fn perform_main_action(&mut self) -> (result: Result<(), MinesweeperError>) {
        match self {
            AppVariant::InMenu(menu) => {
                match menu.create_new_game() {
                    Ok(game) => {
                        *self = AppVariant::InGame(game);
                    },
                    Err(e) => {
                        menu.error = Some(e);
                    },
                }
            },
            AppVariant::InGame(game) => {
                let restart = match game.open_cell_or_surrounding_cells_or_confirm_leave() {
                    Ok(restart) => restart,
                    Err(e) => {
                        return Err(e);
                    },
                };
                if let Some((rows_amount, columns_amount, mines_amount)) = restart {
                    match AppGame::new(rows_amount, columns_amount, mines_amount) {
                        Ok(fresh) => {
                            *self = AppVariant::InGame(fresh);
                        },
                        Err(e) => {
                            return Err(e);
                        },
                    }
                }
            },
        }

        Ok(())
    }

    fn perform_secondary_action(&mut self) -> (result: Result<(), MinesweeperError>) {
        match self {
            AppVariant::InMenu(menu) => {
                menu.restore_default();
                Ok(())
            },
            AppVariant::InGame(game) => game.toggle_flag(),
        }
    }

    fn pause(&mut self) {
        // only a game can be paused, never the menu
        if let AppVariant::InGame(game) = self {
            // don't toggle the pause while waiting for a leave confirmation
            if !game.awaiting_leave_confirmation {
                game.game.toggle_pause();
            }
        }
    }

    fn leave(&mut self, force: bool) {
        match self {
            AppVariant::InMenu(menu) => {
                menu.quit();
            },
            AppVariant::InGame(game) => {
                if force {
                    game.emergency_leave();
                } else {
                    game.confirm_or_cancel_leave_or_leave();
                }
            },
        }
    }
}

impl ControlsSupport for App {
    open spec fn wf(&self) -> bool {
        self.variant.wf()
    }

    fn move_cursor(&mut self, direction: MoveCursorDirection) {
        self.variant.move_cursor(direction);
    }

    fn perform_main_action(&mut self) -> (result: Result<(), MinesweeperError>) {
        self.variant.perform_main_action()
    }

    fn perform_secondary_action(&mut self) -> (result: Result<(), MinesweeperError>) {
        self.variant.perform_secondary_action()
    }

    fn pause(&mut self) {
        self.variant.pause();
    }

    fn leave(&mut self, force: bool) {
        self.variant.leave(force);
    }
}

} // verus!
