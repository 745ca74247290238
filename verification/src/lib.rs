//! A Minesweeper rules engine: a field of cells that can be mined, opened,
//! flagged and queried, wrapped in a game session that sequences actions
//! through a lifecycle and tracks the elapsed play time.

pub mod app;
pub mod cell;
pub mod controls;
pub mod field;
pub mod flood;
pub mod populate;
pub mod stopwatch;

use vstd::prelude::*;

use crate::cell::CellState;
use crate::field::{
    lemma_loss_win_agree, lemma_mined_count_agree, lemma_omm_keeps_loss, lemma_pristine_board,
    omm_post, toggle_flag_post, Field, FieldError,
};
use crate::flood::{
    cell_evolves, chord_active, chord_post, lemma_counts_correct_agree, lemma_flood_opens_no_mine,
    newly_opened, open_cell_post,
};
use crate::populate::populate_ok_post;
use crate::stopwatch::Stopwatch;

verus! {

/// Everything that can go wrong during a game.
#[derive(Debug, PartialEq, Eq)]
pub enum MinesweeperError {
    /// A field operation failed; the payload carries the field's own error.
    FieldError(FieldError),
    /// The game has already ended, so the requested action cannot be taken.
    GameAlreadyEnded,
}

/// The status of a game.
#[derive(Clone, Copy, Debug, PartialEq, Eq)]
pub enum MinesweeperStatus {
    /// The field exists but carries neither mines nor counts yet.
    Pre,
    /// An ongoing game.
    On,
    /// A paused game.
    Pause,
    /// A finished game: `true` for a victory, `false` for a loss.
    End(bool),
}

/// Every action a player can take on the board.
#[derive(Clone, Copy, Debug)]
pub enum MinesweeperAction {
    /// Open the cell at the position.
    OpenCell((u8, u8)),
    /// Open the cells around the position: the chord action.
    OpenSurroundingCells((u8, u8)),
    /// Open the cell when it is closed, or chord around it when it is open;
    /// meant for front ends with few distinct inputs.
    OpenCellOrSurroundingCells((u8, u8)),
    /// Toggle the flag of the cell at the position.
    FlagCell((u8, u8)),
}

/// One Minesweeper game: the field, the session status and the stopwatch.
#[derive(Debug)]
pub struct Minesweeper {
    /// The field played on.
    pub field: Field,
    /// The game status; recomputed by the session after every action.
    pub status: MinesweeperStatus,
    /// The in-game stopwatch: started on the first opened cell, stopped on
    /// pauses and at the end of the game.
    pub stopwatch: Stopwatch,
}

impl Minesweeper {
    /// The session invariant: the field is well-formed, and what the status
    /// claims about the board is true of it.
    pub open spec fn inv(self) -> bool {
        &&& self.field.wf()
        &&& match self.status {
            MinesweeperStatus::Pre => self.field.pristine(),
            MinesweeperStatus::On | MinesweeperStatus::Pause => {
                &&& !self.field.loss()
                &&& !self.field.win()
                &&& self.field.mined_count() == self.field.mines_amount as nat
                &&& self.field.counts_correct()
            },
            MinesweeperStatus::End(won) => if won {
                self.field.win() && !self.field.loss()
            } else {
                self.field.loss()
            },
        }
    }
}

/// How a session settles once a board action has produced the field `f1`: a
/// loss ends the game, reveals the missed mines and stops the stopwatch; a
/// win ends the game and stops the stopwatch; otherwise the status and the
/// stopwatch stay as they were.
pub open spec fn settled(s0: Minesweeper, s1: Minesweeper, f1: Field) -> bool {
    if f1.loss() {
        &&& s1.status == MinesweeperStatus::End(false)
        &&& omm_post(f1, s1.field)
        &&& !s1.stopwatch.running()
        &&& s1.stopwatch.accumulated() >= s0.stopwatch.accumulated()
    } else if f1.win() {
        &&& s1.status == MinesweeperStatus::End(true)
        &&& s1.field == f1
        &&& !s1.stopwatch.running()
        &&& s1.stopwatch.accumulated() >= s0.stopwatch.accumulated()
    } else {
        &&& s1.status == s0.status
        &&& s1.field == f1
        &&& s1.stopwatch == s0.stopwatch
    }
}

/// The outcome of the flag action: the flag at `p` is toggled and the
/// session settles around the result; flagging alone never ends a game.
pub open spec fn flag_outcome(
    s0: Minesweeper,
    s1: Minesweeper,
    result: Result<MinesweeperStatus, MinesweeperError>,
    p: (u8, u8),
) -> bool {
    &&& result == Ok::<MinesweeperStatus, MinesweeperError>(s1.status)
    &&& exists|f1: Field| #[trigger] toggle_flag_post(s0.field, f1, p) && settled(s0, s1, f1)
}

/// The outcome of the chord action: the cells around `p` open as the chord
/// allows, and the session settles around the result.
pub open spec fn chord_outcome(
    s0: Minesweeper,
    s1: Minesweeper,
    result: Result<MinesweeperStatus, MinesweeperError>,
    p: (u8, u8),
) -> bool {
    &&& result == Ok::<MinesweeperStatus, MinesweeperError>(s1.status)
    &&& exists|f1: Field| #[trigger] chord_post(s0.field, f1, p) && settled(s0, s1, f1)
}

/// The outcome of the open action. The very first open also places the
/// mines, with `p` excepted, so the first opened cell is never mined and the
/// first move can never lose the game; a position outside the field is then
/// an error and changes nothing. Any later open settles like the others.
pub open spec fn open_outcome(
    s0: Minesweeper,
    s1: Minesweeper,
    result: Result<MinesweeperStatus, MinesweeperError>,
    p: (u8, u8),
) -> bool {
    if s0.status == MinesweeperStatus::Pre {
        if s0.field.pos_in_bounds(p) {
            &&& result == Ok::<MinesweeperStatus, MinesweeperError>(s1.status)
            &&& exists|fp: Field|
                #[trigger] populate_ok_post(s0.field, fp, Some(p)) && open_cell_post(
                    fp,
                    s1.field,
                    p,
                )
            &&& !s1.field.cell_p(p).mined()
            &&& (!s0.field.cell_p(p).flagged() ==> s1.field.cell_p(p).opened())
            &&& !s1.field.loss()
            &&& s1.status == (if s1.field.win() {
                MinesweeperStatus::End(true)
            } else {
                MinesweeperStatus::On
            })
            &&& (s1.field.win() ==> !s1.stopwatch.running())
            &&& (!s1.field.win() ==> s1.stopwatch.running())
            &&& s1.stopwatch.accumulated() >= s0.stopwatch.accumulated()
        } else {
            &&& result == Err::<MinesweeperStatus, MinesweeperError>(
                MinesweeperError::FieldError(FieldError::InvalidExceptedCellPosition(p)),
            )
            &&& s1 == s0
        }
    } else {
        &&& result == Ok::<MinesweeperStatus, MinesweeperError>(s1.status)
        &&& exists|f1: Field| #[trigger] open_cell_post(s0.field, f1, p) && settled(s0, s1, f1)
    }
}

/// The outcome of an action taken while the game is live (not yet started
/// or ongoing): each action maps to its own outcome, and the combined
/// action resolves by whether the target cell is open, falling back to
/// doing nothing when the position has no cell.
pub open spec fn take_action_live_post(
    s0: Minesweeper,
    s1: Minesweeper,
    result: Result<MinesweeperStatus, MinesweeperError>,
    action: MinesweeperAction,
) -> bool {
    match action {
        MinesweeperAction::OpenCell(p) => open_outcome(s0, s1, result, p),
        MinesweeperAction::OpenSurroundingCells(p) => chord_outcome(s0, s1, result, p),
        MinesweeperAction::OpenCellOrSurroundingCells(p) => if !s0.field.pos_in_bounds(p) {
            result == Ok::<MinesweeperStatus, MinesweeperError>(s1.status) && s1 == s0
        } else if s0.field.cell_p(p).opened() {
            chord_outcome(s0, s1, result, p)
        } else {
            open_outcome(s0, s1, result, p)
        },
        MinesweeperAction::FlagCell(p) => flag_outcome(s0, s1, result, p),
    }
}

/// What recomputing the status does to a session, given the session `mid`
/// it starts from.
pub open spec fn update_post(mid: Minesweeper, s1: Minesweeper) -> bool {
    &&& s1.status == (if mid.field.loss() {
        MinesweeperStatus::End(false)
    } else if mid.field.win() {
        MinesweeperStatus::End(true)
    } else {
        mid.status
    })
    &&& (mid.field.loss() ==> omm_post(mid.field, s1.field))
    &&& (!mid.field.loss() ==> s1.field == mid.field)
    &&& ((mid.field.loss() || mid.field.win()) ==> (!s1.stopwatch.running()
        && s1.stopwatch.accumulated() >= mid.stopwatch.accumulated()))
    &&& (!(mid.field.loss() || mid.field.win()) ==> s1 == mid)
}

/// What holds of the session right after a successful open action, before
/// the status update.
pub open spec fn mid_open_ok(s0: Minesweeper, mid: Minesweeper, p: (u8, u8)) -> bool {
    &&& mid.field.wf()
    &&& mid.field.same_shape(s0.field)
    &&& mid.field.mined_count() == mid.field.mines_amount as nat
    &&& mid.field.counts_correct()
    &&& (s0.status == MinesweeperStatus::Pre ==> {
        &&& s0.field.pos_in_bounds(p)
        &&& exists|fp: Field|
            #[trigger] populate_ok_post(s0.field, fp, Some(p)) && open_cell_post(fp, mid.field, p)
        &&& !mid.field.cell_p(p).mined()
        &&& (!s0.field.cell_p(p).flagged() ==> mid.field.cell_p(p).opened())
        &&& !mid.field.loss()
        &&& mid.status == MinesweeperStatus::On
        &&& mid.stopwatch.running()
        &&& mid.stopwatch.accumulated() == s0.stopwatch.accumulated()
    })
    &&& (s0.status == MinesweeperStatus::On ==> {
        &&& open_cell_post(s0.field, mid.field, p)
        &&& mid.status == s0.status
        &&& mid.stopwatch == s0.stopwatch
    })
}

/// What holds of the session right after the chord action, before the
/// status update.
pub open spec fn mid_chord_ok(s0: Minesweeper, mid: Minesweeper, p: (u8, u8)) -> bool {
    &&& mid.field.wf()
    &&& chord_post(s0.field, mid.field, p)
    &&& mid.status == s0.status
    &&& mid.stopwatch == s0.stopwatch
}

/// What holds of the session right after the flag action, before the status
/// update.
pub open spec fn mid_flag_ok(s0: Minesweeper, mid: Minesweeper, p: (u8, u8)) -> bool {
    &&& mid.field.wf()
    &&& toggle_flag_post(s0.field, mid.field, p)
    &&& mid.status == s0.status
    &&& mid.stopwatch == s0.stopwatch
}

/// After the flag action and the status update, the session keeps its
/// invariant and meets the flag outcome.
proof fn lemma_settle_flag(s0: Minesweeper, mid: Minesweeper, s1: Minesweeper, p: (u8, u8))
    requires
        s0.inv(),
        s0.status == MinesweeperStatus::Pre || s0.status == MinesweeperStatus::On,
        mid_flag_ok(s0, mid, p),
        update_post(mid, s1),
        s1.field.wf(),
    ensures
        s1.inv(),
        s1.field.same_shape(s0.field),
        flag_outcome(s0, s1, Ok::<MinesweeperStatus, MinesweeperError>(s1.status), p),
{
    let f1 = mid.field;
    if s0.status == MinesweeperStatus::Pre {
        lemma_pristine_board(s0.field);
    }
    assert forall|i: int, j: int|
        s0.field.in_bounds(i, j) implies ((#[trigger] f1.cell(i, j)).variant == s0.field.cell(
        i,
        j,
    ).variant && f1.cell(i, j).opened() == s0.field.cell(i, j).opened()) by {
        if i == p.0 as int && j == p.1 as int {
            assert(s0.field.pos_in_bounds(p));
            let b = s0.field.cell_p(p);
            let a = f1.cell_p(p);
            if !b.opened() {
                assert(b.state matches CellState::Closed(_));
                assert(a.state matches CellState::Closed(_));
            }
        }
    }
    lemma_loss_win_agree(s0.field, f1);
    assert(!f1.loss() && !f1.win());
    assert(s1 == mid);
    assert(settled(s0, s1, f1));
    assert(toggle_flag_post(s0.field, f1, p) && settled(s0, s1, f1));
    if s0.status == MinesweeperStatus::Pre {
        assert forall|q: (u8, u8)| s1.field.pos_in_bounds(q) implies {
            let cell = #[trigger] s1.field.cell_p(q);
            &&& cell.variant == crate::cell::CellVariant::Empty(0)
            &&& !cell.opened()
        } by {
            assert(s0.field.cell_p(q).variant == crate::cell::CellVariant::Empty(0));
        }
    } else {
        assert forall|q: (u8, u8)| s0.field.pos_in_bounds(q) implies ((#[trigger] s0.field.cell_p(
            q,
        )).mined() == f1.cell_p(q).mined() && s0.field.cell_p(q).variant == f1.cell_p(
            q,
        ).variant) by {}
        lemma_mined_count_agree(s0.field, f1);
        lemma_counts_correct_agree(s0.field, f1);
    }
}

/// After the chord action and the status update, the session keeps its
/// invariant and meets the chord outcome.
proof fn lemma_settle_chord(s0: Minesweeper, mid: Minesweeper, s1: Minesweeper, p: (u8, u8))
    requires
        s0.inv(),
        s0.status == MinesweeperStatus::Pre || s0.status == MinesweeperStatus::On,
        mid_chord_ok(s0, mid, p),
        update_post(mid, s1),
        s1.field.wf(),
    ensures
        s1.inv(),
        s1.field.same_shape(s0.field),
        chord_outcome(s0, s1, Ok::<MinesweeperStatus, MinesweeperError>(s1.status), p),
{
    let f1 = mid.field;
    if s0.status == MinesweeperStatus::Pre {
        lemma_pristine_board(s0.field);
    }
    if !chord_active(s0.field, p) {
        assert(f1 == s0.field);
        assert(!f1.loss() && !f1.win());
        assert(s1 == mid);
        assert(settled(s0, s1, f1));
    } else {
        if s0.status == MinesweeperStatus::Pre {
            assert(!s0.field.cell_p(p).opened());
            assert(false);
        }
        if f1.loss() {
            lemma_omm_keeps_loss(f1, s1.field);
            assert(settled(s0, s1, f1));
        } else if f1.win() {
            assert(settled(s0, s1, f1));
        } else {
            assert(s1 == mid);
            assert(settled(s0, s1, f1));
            assert forall|q: (u8, u8)|
                s0.field.pos_in_bounds(q) implies ((#[trigger] s0.field.cell_p(q)).mined()
                == f1.cell_p(q).mined() && s0.field.cell_p(q).variant == f1.cell_p(
                q,
            ).variant) by {
                assert(cell_evolves(s0.field.cell_p(q), f1.cell_p(q)));
            }
            lemma_mined_count_agree(s0.field, f1);
            lemma_counts_correct_agree(s0.field, f1);
        }
    }
    assert(chord_post(s0.field, f1, p) && settled(s0, s1, f1));
}

/// After the open action and the status update, the session keeps its
/// invariant and meets the open outcome.
proof fn lemma_settle_open(s0: Minesweeper, mid: Minesweeper, s1: Minesweeper, p: (u8, u8))
    requires
        s0.inv(),
        s0.status == MinesweeperStatus::Pre || s0.status == MinesweeperStatus::On,
        mid_open_ok(s0, mid, p),
        update_post(mid, s1),
        s1.field.wf(),
    ensures
        s1.inv(),
        s1.field.same_shape(s0.field),
        open_outcome(s0, s1, Ok::<MinesweeperStatus, MinesweeperError>(s1.status), p),
{
    let f1 = mid.field;
    if s0.status == MinesweeperStatus::Pre {
        assert(!f1.loss());
        assert(s1.field == f1);
        let fp = choose|fp: Field|
            #[trigger] populate_ok_post(s0.field, fp, Some(p)) && open_cell_post(fp, mid.field, p);
        assert(populate_ok_post(s0.field, fp, Some(p)) && open_cell_post(fp, s1.field, p));
        if f1.win() {
            assert(s1.status == MinesweeperStatus::End(true));
        } else {
            assert(s1 == mid);
            assert(s1.status == MinesweeperStatus::On);
            assert(s1.stopwatch.running());
        }
    } else {
        if f1.loss() {
            lemma_omm_keeps_loss(f1, s1.field);
            assert(settled(s0, s1, f1));
        } else if f1.win() {
            assert(settled(s0, s1, f1));
        } else {
            assert(s1 == mid);
            assert(settled(s0, s1, f1));
        }
        assert(open_cell_post(s0.field, f1, p) && settled(s0, s1, f1));
    }
}

impl Minesweeper {
    /// Creates a new game over a field with the given dimensions and number
    /// of mines, propagating the field's validation errors.
    pub fn new(rows_amount: u8, columns_amount: u8, mines_amount: u16) -> (result: Result<
        Minesweeper,
        MinesweeperError,
    >)
        ensures
            (rows_amount as int) * (columns_amount as int) < 2 ==> result == Err::<
                Minesweeper,
                MinesweeperError,
            >(MinesweeperError::FieldError(FieldError::NotEnoughCells)),
            (rows_amount as int) * (columns_amount as int) >= 2 && !(1 <= mines_amount as int
                <= (rows_amount as int) * (columns_amount as int) - 1) ==> result == Err::<
                Minesweeper,
                MinesweeperError,
            >(
                MinesweeperError::FieldError(
                    FieldError::InvalidMinesAmount(
                        ((rows_amount as int) * (columns_amount as int) - 1) as u16,
                    ),
                ),
            ),
            (rows_amount as int) * (columns_amount as int) >= 2 && 1 <= mines_amount as int
                <= (rows_amount as int) * (columns_amount as int) - 1 ==> (result matches Ok(game)
                && {
                &&& game.inv()
                &&& game.status == MinesweeperStatus::Pre
                &&& game.field.rows() == rows_amount as int
                &&& game.field.cols() == columns_amount as int
                &&& game.field.mines_amount == mines_amount
                &&& game.field.pristine()
                &&& !game.stopwatch.running()
                &&& game.stopwatch.accumulated() == 0
            }),
    {
        let field = match Field::new(rows_amount, columns_amount, mines_amount) {
            Ok(field) => field,
            Err(e) => {
                return Err(MinesweeperError::FieldError(e));
            },
        };
        let game = Minesweeper {
            field,
            status: MinesweeperStatus::Pre,
            stopwatch: Stopwatch::default(),
        };
        proof {
            assert forall|q: (u8, u8)| game.field.pos_in_bounds(q) implies {
                let cell = #[trigger] game.field.cell_p(q);
                &&& cell.variant == crate::cell::CellVariant::Empty(0)
                &&& !cell.opened()
            } by {
                assert(game.field.cell(q.0 as int, q.1 as int) == crate::cell::Cell::fresh(
                    (q.0, q.1),
                ));
            }
        }
        Ok(game)
    }

    /// Returns the field, for read-only inspection.
    pub fn get_field(&self) -> (r: &Field)
        ensures
            *r == self.field,
    {
        &self.field
    }

    /// Returns the current game status.
    pub fn get_status(&self) -> (r: MinesweeperStatus)
        ensures
            r == self.status,
    {
        self.status
    }

    /// Determines whether the game is lost (`Some(false)`), won
    /// (`Some(true)`), or neither yet (`None`); a loss takes precedence.
    fn check_victory_or_loss(&self) -> (r: Option<bool>)
        requires
            self.field.wf(),
        ensures
            r == (if self.field.loss() {
                Some(false)
            } else if self.field.win() {
                Some(true)
            } else {
                None::<bool>
            }),
    {
        let loss = self.field.check_open_mines_exist();
        let victory = self.field.check_all_non_mines_open();

        if loss {
            Some(false)
        } else if victory {
            Some(true)
        } else {
            None
        }
    }

    /// Recomputes the status after an action: a loss ends the game and
    /// reveals the missed mines, a win ends the game, and either ending
    /// stops the stopwatch; otherwise nothing changes.
    fn update_status(&mut self)
        requires
            old(self).field.wf(),
        ensures
            final(self).field.wf(),
            update_post(*old(self), *final(self)),
    {
        if let Some(victory) = self.check_victory_or_loss() {
            if !victory {
                // reveal all the missed mines when the game is lost
                self.field.open_missed_mines();
            }
            self.status = MinesweeperStatus::End(victory);
            self.stopwatch.stop();
        }
    }

    /// Opens a cell, placing the mines first when this is the first open of
    /// the session; the status update is left to the caller.
    fn do_open_cell(&mut self, p: (u8, u8)) -> (result: Result<(), MinesweeperError>)
        requires
            old(self).inv(),
            old(self).status == MinesweeperStatus::Pre || old(self).status
                == MinesweeperStatus::On,
        ensures
            final(self).field.wf(),
            match result {
                Ok(()) => mid_open_ok(*old(self), *final(self), p),
                Err(e) => {
                    &&& old(self).status == MinesweeperStatus::Pre
                    &&& !old(self).field.pos_in_bounds(p)
                    &&& e == MinesweeperError::FieldError(
                        FieldError::InvalidExceptedCellPosition(p),
                    )
                    &&& *final(self) == *old(self)
                },
            },
    {
        let is_on = matches!(self.status, MinesweeperStatus::On);
        if !is_on {
            proof {
                lemma_pristine_board(self.field);
            }
            match self.field.populate_with_mines(Some(p)) {
                Ok(()) => {},
                Err(e) => {
                    return Err(MinesweeperError::FieldError(e));
                },
            }
            let ghost f0 = old(self).field;
            let ghost fp = self.field;
            proof {
                // placement kept every cell closed and set exact counts
                assert forall|q: (u8, u8)| fp.pos_in_bounds(q) implies !(#[trigger] fp.cell_p(
                    q,
                )).opened() by {
                    assert(!f0.cell_p(q).opened());
                }
                assert forall|q: (u8, u8)|
                    fp.pos_in_bounds(q) && !(#[trigger] fp.cell_p(q)).mined() implies fp.cell_p(
                    q,
                ).mines_around() == Some(fp.mined_neighbours(q) as u8) by {
                    assert(f0.cell_p(q).variant == crate::cell::CellVariant::Empty(0));
                }
                assert(fp.counts_correct());
            }
            self.status = MinesweeperStatus::On;
            self.stopwatch.start();
            self.field.open_cell(p);
            proof {
                lemma_flood_opens_no_mine(fp, self.field, p);
                assert(cell_evolves(fp.cell_p(p), self.field.cell_p(p)));
                assert(!self.field.cell_p(p).mined());
                assert forall|r: int, c: int|
                    self.field.in_bounds(r, c) implies !((#[trigger] self.field.cell(
                    r,
                    c,
                )).mined() && self.field.cell(r, c).opened()) by {
                    let q = ((r as u8), (c as u8));
                    assert(self.field.cell_p(q) == self.field.cell(r, c));
                    assert(fp.pos_in_bounds(q));
                    if self.field.cell_p(q).opened() {
                        assert(!fp.cell_p(q).opened());
                        assert(newly_opened(fp, self.field, q));
                    }
                }
                assert(!self.field.loss());
                lemma_mined_count_agree(fp, self.field);
                lemma_counts_correct_agree(fp, self.field);
            }
            Ok(())
        } else {
            let ghost f0 = self.field;
            self.field.open_cell(p);
            proof {
                lemma_mined_count_agree(f0, self.field);
                lemma_counts_correct_agree(f0, self.field);
            }
            Ok(())
        }
    }

    /// Performs the requested action, updates the status of the game and
    /// returns it. An action taken after the game has ended fails and leaves
    /// everything untouched; one taken while the game is paused does nothing
    /// and reports the paused status.
    pub fn take_action(&mut self, action_type: MinesweeperAction) -> (result: Result<
        MinesweeperStatus,
        MinesweeperError,
    >)
        requires
            old(self).inv(),
        ensures
            final(self).inv(),
            final(self).field.same_shape(old(self).field),
            old(self).status matches MinesweeperStatus::End(_) ==> (result == Err::<
                MinesweeperStatus,
                MinesweeperError,
            >(MinesweeperError::GameAlreadyEnded) && *final(self) == *old(self)),
            old(self).status == MinesweeperStatus::Pause ==> (result == Ok::<
                MinesweeperStatus,
                MinesweeperError,
            >(MinesweeperStatus::Pause) && *final(self) == *old(self)),
            (old(self).status == MinesweeperStatus::Pre || old(self).status
                == MinesweeperStatus::On) ==> take_action_live_post(
                *old(self),
                *final(self),
                result,
                action_type,
            ),
    {
        if matches!(self.status, MinesweeperStatus::End(_)) {
            return Err(MinesweeperError::GameAlreadyEnded);
        }
        if matches!(self.status, MinesweeperStatus::Pause) {
            return Ok(MinesweeperStatus::Pause);
        }

        let ghost s0 = *self;

        match action_type {
            MinesweeperAction::OpenCell(cell_position) => {
                match self.do_open_cell(cell_position) {
                    Ok(()) => {},
                    Err(e) => {
                        return Err(e);
                    },
                }
            },
            MinesweeperAction::OpenSurroundingCells(cell_position) => {
                self.field.open_surrounding_cells(cell_position);
            },
            MinesweeperAction::OpenCellOrSurroundingCells(cell_position) => {
                let target_open = match self.field.get_cell(cell_position) {
                    Some(cell) => Some(cell.is_open()),
                    None => None,
                };
                match target_open {
                    None => {},
                    Some(true) => {
                        self.field.open_surrounding_cells(cell_position);
                    },
                    Some(false) => {
                        match self.do_open_cell(cell_position) {
                            Ok(()) => {},
                            Err(e) => {
                                return Err(e);
                            },
                        }
                    },
                }
            },
            MinesweeperAction::FlagCell(cell_position) => {
                self.field.toggle_cell_flag(cell_position);
            },
        }

        let ghost mid = *self;
        self.update_status();
        proof {
            match action_type {
                MinesweeperAction::OpenCell(p) => {
                    lemma_settle_open(s0, mid, *self, p);
                },
                MinesweeperAction::OpenSurroundingCells(p) => {
                    lemma_settle_chord(s0, mid, *self, p);
                },
                MinesweeperAction::OpenCellOrSurroundingCells(p) => {
                    if !s0.field.pos_in_bounds(p) {
                        if s0.status == MinesweeperStatus::Pre {
                            lemma_pristine_board(s0.field);
                        }
                        assert(!mid.field.loss() && !mid.field.win());
                        assert(*self == s0);
                    } else if s0.field.cell_p(p).opened() {
                        lemma_settle_chord(s0, mid, *self, p);
                    } else {
                        lemma_settle_open(s0, mid, *self, p);
                    }
                },
                MinesweeperAction::FlagCell(p) => {
                    lemma_settle_flag(s0, mid, *self, p);
                },
            }
        }
        Ok(self.status)
    }

    /// Toggles the pause of an ongoing game, freezing or resuming the
    /// stopwatch; in any other status nothing happens. The board itself is
    /// never touched.
    pub fn toggle_pause(&mut self)
        requires
            old(self).inv(),
        ensures
            final(self).inv(),
            final(self).field == old(self).field,
            old(self).status == MinesweeperStatus::On ==> {
                &&& final(self).status == MinesweeperStatus::Pause
                &&& !final(self).stopwatch.running()
                &&& final(self).stopwatch.accumulated() >= old(self).stopwatch.accumulated()
            },
            old(self).status == MinesweeperStatus::Pause ==> {
                &&& final(self).status == MinesweeperStatus::On
                &&& final(self).stopwatch.running()
                &&& final(self).stopwatch.accumulated() == old(self).stopwatch.accumulated()
            },
            !(old(self).status == MinesweeperStatus::On || old(self).status
                == MinesweeperStatus::Pause) ==> *final(self) == *old(self),
    {
        match self.status {
            MinesweeperStatus::On => {
                self.status = MinesweeperStatus::Pause;
                self.stopwatch.stop();
            },
            MinesweeperStatus::Pause => {
                self.status = MinesweeperStatus::On;
                self.stopwatch.start();
            },
            _ => {},
        }
    }

    /// Returns the total whole seconds the game has been in the ongoing
    /// status.
    pub fn get_time(&self) -> (r: u64)
        ensures
            !self.stopwatch.running() ==> r == self.stopwatch.accumulated() / 1_000_000_000,
            r >= self.stopwatch.accumulated() / 1_000_000_000,
    {
        let nanos = self.stopwatch.get_elapsed_time();
        proof {
            vstd::arithmetic::div_mod::lemma_div_is_ordered(
                self.stopwatch.accumulated() as int,
                nanos as int,
                1_000_000_000,
            );
        }
        nanos / 1_000_000_000
    }
}

} // verus!
