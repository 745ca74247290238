//! The field: a grid of cells with a configured number of mines.

use vstd::prelude::*;

use crate::cell::{adjacent_seq, Cell, CellState, CellVariant};

verus! {

/// Everything that can go wrong when working with a field.
#[derive(Clone, Copy, Debug, PartialEq, Eq)]
pub enum FieldError {
    /// Creating a field with less than two cells in total.
    NotEnoughCells,
    /// Asking for less than 1 mine, or for more than the number of cells
    /// minus 1; the payload is the maximum valid amount for the dimensions.
    InvalidMinesAmount(u16),
    /// The position asked to be kept free of mines lies outside the field;
    /// the payload repeats the offending position.
    InvalidExceptedCellPosition((u8, u8)),
    /// Populating a field that already holds mines.
    MinesAlreadyExist,
}

/// The field: a rows-by-columns grid of cells and the total number of mines
/// it is configured to hold.
#[derive(Debug, PartialEq, Eq)]
pub struct Field {
    /// The grid; the outer vector holds the rows.
    pub grid: Vec<Vec<Cell>>,
    /// The configured total number of mined cells.
    pub mines_amount: u16,
}

impl Field {
    /// The number of rows.
    pub open spec fn rows(self) -> int {
        self.grid@.len() as int
    }

    /// The number of columns (the width of the first row).
    pub open spec fn cols(self) -> int {
        if self.grid@.len() > 0 {
            self.grid@[0]@.len() as int
        } else {
            0
        }
    }

    /// The total number of cells.
    pub open spec fn total(self) -> int {
        self.rows() * self.cols()
    }

    /// The cell at row `r`, column `c`.
    pub open spec fn cell(self, r: int, c: int) -> Cell {
        self.grid@[r]@[c]
    }

    /// Whether `(r, c)` lies inside the grid.
    pub open spec fn in_bounds(self, r: int, c: int) -> bool {
        0 <= r < self.rows() && 0 <= c < self.cols()
    }

    /// Whether the position lies inside the grid.
    pub open spec fn pos_in_bounds(self, p: (u8, u8)) -> bool {
        self.in_bounds(p.0 as int, p.1 as int)
    }

    /// The cell at the given position.
    pub open spec fn cell_p(self, p: (u8, u8)) -> Cell {
        self.cell(p.0 as int, p.1 as int)
    }

    /// The cell at flattened index `i`, counting row by row.
    pub open spec fn cell_flat(self, i: int) -> Cell {
        self.cell(i / self.cols(), i % self.cols())
    }

    /// Whether every row of the grid has the width of the first one.
    pub open spec fn rows_uniform(self) -> bool {
        forall|i: int| 0 <= i < self.rows() ==> #[trigger] self.grid@[i]@.len() == self.cols()
    }

    /// Well-formedness: at least two cells, every row of the same width, every
    /// cell aware of its own coordinates, and a valid configured mine count.
    pub open spec fn wf(self) -> bool {
        &&& 1 <= self.rows() <= 255
        &&& 1 <= self.cols() <= 255
        &&& self.total() >= 2
        &&& self.rows_uniform()
        &&& forall|i: int, j: int|
            self.in_bounds(i, j) ==> (#[trigger] self.cell(i, j)).position == ((i as u8, j as u8))
        &&& 1 <= self.mines_amount <= self.total() - 1
    }

    /// Whether the two fields have the same dimensions and mine configuration.
    pub open spec fn same_shape(self, other: Field) -> bool {
        &&& self.rows() == other.rows()
        &&& self.cols() == other.cols()
        &&& self.mines_amount == other.mines_amount
    }

    /// The number of cells among the first `n` (in flattened order) that
    /// satisfy `p`.
    pub open spec fn count_flat(self, p: spec_fn(Cell) -> bool, n: int) -> nat
        decreases n,
    {
        if n <= 0 {
            0
        } else {
            self.count_flat(p, n - 1) + (if p(self.cell_flat(n - 1)) {
                1nat
            } else {
                0nat
            })
        }
    }

    /// The number of mined cells.
    pub open spec fn mined_count(self) -> nat {
        self.count_flat(|c: Cell| c.mined(), self.total())
    }

    /// The number of flagged cells.
    pub open spec fn flagged_count(self) -> nat {
        self.count_flat(|c: Cell| c.flagged(), self.total())
    }

    /// The number of cells not yet open.
    pub open spec fn closed_count(self) -> nat {
        self.count_flat(|c: Cell| !c.opened(), self.total())
    }

    /// The number of mined in-bounds cells among the positions of `s`.
    pub open spec fn count_mined_at(self, s: Seq<(u8, u8)>) -> nat
        decreases s.len(),
    {
        if s.len() == 0 {
            0
        } else {
            self.count_mined_at(s.drop_last()) + (if self.pos_in_bounds(s.last())
                && self.cell_p(s.last()).mined() {
                1nat
            } else {
                0nat
            })
        }
    }

    /// The number of flagged in-bounds cells among the positions of `s`.
    pub open spec fn count_flagged_at(self, s: Seq<(u8, u8)>) -> nat
        decreases s.len(),
    {
        if s.len() == 0 {
            0
        } else {
            self.count_flagged_at(s.drop_last()) + (if self.pos_in_bounds(s.last())
                && self.cell_p(s.last()).flagged() {
                1nat
            } else {
                0nat
            })
        }
    }

    /// The number of mined cells among the up-to-eight neighbours of `p`.
    pub open spec fn mined_neighbours(self, p: (u8, u8)) -> nat {
        self.count_mined_at(adjacent_seq(p))
    }

    /// The number of flagged cells among the up-to-eight neighbours of `p`.
    pub open spec fn flagged_neighbours(self, p: (u8, u8)) -> nat {
        self.count_flagged_at(adjacent_seq(p))
    }

    /// Whether some mined cell is open: the loss condition.
    pub open spec fn loss(self) -> bool {
        exists|r: int, c: int|
            self.in_bounds(r, c) && (#[trigger] self.cell(r, c)).mined() && self.cell(r, c).opened()
    }

    /// Whether every non-mined cell is open: the win condition.
    pub open spec fn win(self) -> bool {
        forall|r: int, c: int|
            self.in_bounds(r, c) && !(#[trigger] self.cell(r, c)).mined() ==> self.cell(
                r,
                c,
            ).opened()
    }

    /// Whether the field looks as freshly constructed: no mines, every count
    /// zero, every cell closed. Flags may already have been placed.
    pub open spec fn pristine(self) -> bool {
        forall|q: (u8, u8)|
            self.pos_in_bounds(q) ==> {
                let cell = #[trigger] self.cell_p(q);
                &&& cell.variant == CellVariant::Empty(0)
                &&& !cell.opened()
            }
    }
}

/// What toggling the flag at `p` does to a field: nothing for a position
/// outside it; otherwise the one cell flips its flag when closed and stays
/// put when open, and every other cell is untouched.
pub open spec fn toggle_flag_post(f0: Field, f1: Field, p: (u8, u8)) -> bool {
    &&& f1.rows() == f0.rows()
    &&& f1.cols() == f0.cols()
    &&& f1.mines_amount == f0.mines_amount
    &&& (!f0.pos_in_bounds(p) ==> f1 == f0)
    &&& forall|i: int, j: int|
        f0.in_bounds(i, j) && !(i == p.0 as int && j == p.1 as int) ==> #[trigger] f1.cell(i, j)
            == f0.cell(i, j)
    &&& (f0.pos_in_bounds(p) ==> {
        let before = f0.cell_p(p);
        let after = f1.cell_p(p);
        &&& after.position == before.position
        &&& after.variant == before.variant
        &&& (before.opened() ==> after.state == before.state)
        &&& (before.state matches CellState::Closed(f) ==> after.state == CellState::Closed(!f))
    })
}

/// What revealing the missed mines does to a field: every mined, unflagged
/// cell is open, and every other cell is untouched.
pub open spec fn omm_post(f0: Field, f1: Field) -> bool {
    &&& f1.rows() == f0.rows()
    &&& f1.cols() == f0.cols()
    &&& f1.mines_amount == f0.mines_amount
    &&& forall|i: int, j: int|
        f0.in_bounds(i, j) ==> {
            let before = f0.cell(i, j);
            let after = #[trigger] f1.cell(i, j);
            if before.mined() && !before.flagged() {
                after == (Cell {
                    state: CellState::Open,
                    position: before.position,
                    variant: before.variant,
                })
            } else {
                after == before
            }
        }
}

/// A count over a flattened prefix never exceeds the prefix length.
pub proof fn lemma_count_flat_le(f: Field, p: spec_fn(Cell) -> bool, n: int)
    ensures
        f.count_flat(p, n) <= (if n >= 0 {
            n
        } else {
            0
        }),
    decreases n,
{
    if n > 0 {
        lemma_count_flat_le(f, p, n - 1);
    }
}

/// Two fields of the same width whose first `n` flattened cells give the
/// predicate the same verdicts have the same count over them.
pub proof fn lemma_count_flat_agree_pred(f1: Field, f2: Field, p: spec_fn(Cell) -> bool, n: int)
    requires
        f1.cols() == f2.cols(),
        forall|i: int| 0 <= i < n ==> p(#[trigger] f1.cell_flat(i)) == p(f2.cell_flat(i)),
    ensures
        f1.count_flat(p, n) == f2.count_flat(p, n),
    decreases n,
{
    if n > 0 {
        lemma_count_flat_agree_pred(f1, f2, p, n - 1);
    }
}

/// How a count changes when exactly one flattened cell may differ between two
/// fields of the same width.
pub proof fn lemma_count_flat_change_one(
    f1: Field,
    f2: Field,
    p: spec_fn(Cell) -> bool,
    j: int,
    n: int,
)
    requires
        f1.cols() == f2.cols(),
        forall|i: int| 0 <= i < n && i != j ==> #[trigger] f1.cell_flat(i) == f2.cell_flat(i),
    ensures
        0 <= j < n ==> f2.count_flat(p, n) + (if p(f1.cell_flat(j)) {
            1int
        } else {
            0int
        }) == f1.count_flat(p, n) + (if p(f2.cell_flat(j)) {
            1int
        } else {
            0int
        }),
        !(0 <= j < n) ==> f2.count_flat(p, n) == f1.count_flat(p, n),
    decreases n,
{
    if n > 0 {
        lemma_count_flat_change_one(f1, f2, p, j, n - 1);
    }
}

/// A count over a prefix is positive exactly when some cell of the prefix
/// satisfies the predicate.
pub proof fn lemma_count_flat_pos(f: Field, p: spec_fn(Cell) -> bool, n: int)
    ensures
        f.count_flat(p, n) > 0 <==> exists|i: int| 0 <= i < n && p(#[trigger] f.cell_flat(i)),
    decreases n,
{
    if n > 0 {
        lemma_count_flat_pos(f, p, n - 1);
        if p(f.cell_flat(n - 1)) {
            assert(exists|i: int| 0 <= i < n && p(#[trigger] f.cell_flat(i)));
        }
    }
}

/// Bounds for the row and column recovered from a flattened index.
pub proof fn lemma_flat_bounds(i: int, rows: int, cols: int)
    requires
        0 <= i < rows * cols,
        cols > 0,
    ensures
        0 <= i / cols < rows,
        0 <= i % cols < cols,
        i == (i / cols) * cols + i % cols,
{
    assert(0 <= i / cols < rows && 0 <= i % cols < cols && i == (i / cols) * cols + i
        % cols) by (nonlinear_arith)
        requires
            0 <= i < rows * cols,
            cols > 0,
    ;
}

/// A position inside the grid and its flattened index translate back and
/// forth exactly.
pub proof fn lemma_flat_of_pos(r: int, c: int, rows: int, cols: int)
    requires
        0 <= r < rows,
        0 <= c < cols,
    ensures
        0 <= r * cols + c < rows * cols,
        (r * cols + c) / cols == r,
        (r * cols + c) % cols == c,
{
    assert(0 <= r * cols + c < rows * cols && (r * cols + c) / cols == r && (r * cols + c) % cols
        == c) by (nonlinear_arith)
        requires
            0 <= r < rows,
            0 <= c < cols,
    ;
}

impl Field {
    /// Replaces the cell at an in-bounds position, leaving everything else of
    /// the field as it was.
    pub(crate) fn set_cell(&mut self, r: u8, c: u8, cell: Cell)
        requires
            old(self).rows_uniform(),
            old(self).in_bounds(r as int, c as int),
        ensures
            final(self).rows() == old(self).rows(),
            final(self).cols() == old(self).cols(),
            final(self).rows_uniform(),
            final(self).mines_amount == old(self).mines_amount,
            final(self).cell(r as int, c as int) == cell,
            forall|i: int, j: int|
                old(self).in_bounds(i, j) && !(i == r as int && j == c as int) ==> #[trigger] final(self).cell(i, j) == old(self).cell(i, j),
    {
        let ghost g0 = *self;
        let rr = r as usize;
        let cc = c as usize;
        let row: &mut Vec<Cell> = &mut self.grid[rr];
        row[cc] = cell;
        proof {
            assert(self.grid@ =~= g0.grid@.update(rr as int, self.grid@[rr as int]));
            assert(self.grid@[rr as int]@ =~= g0.grid@[rr as int]@.update(cc as int, cell));
            assert(self.cols() == g0.cols());
            assert forall|i: int| 0 <= i < self.rows() implies #[trigger] self.grid@[i]@.len()
                == self.cols() by {
                assert(g0.grid@[i]@.len() == g0.cols());
            }
        }
    }

    /// Creates a new field with the provided dimensions and number of mines.
    ///
    /// The field starts without mines: placement is deferred so that the
    /// player's first opened cell can be kept free of them. Fails with
    /// `NotEnoughCells` for less than two cells in total, and with
    /// `InvalidMinesAmount` when the requested amount is below 1 or above the
    /// total number of cells minus 1.
    pub fn new(rows_amount: u8, columns_amount: u8, mines_amount: u16) -> (r: Result<
        Field,
        FieldError,
    >)
        ensures
            (rows_amount as int) * (columns_amount as int) < 2 ==> r == Err::<Field, FieldError>(
                FieldError::NotEnoughCells,
            ),
            (rows_amount as int) * (columns_amount as int) >= 2 && !(1 <= mines_amount as int
                <= (rows_amount as int) * (columns_amount as int) - 1) ==> r == Err::<
                Field,
                FieldError,
            >(
                FieldError::InvalidMinesAmount(
                    ((rows_amount as int) * (columns_amount as int) - 1) as u16,
                ),
            ),
            (rows_amount as int) * (columns_amount as int) >= 2 && 1 <= mines_amount as int
                <= (rows_amount as int) * (columns_amount as int) - 1 ==> (r matches Ok(f) && {
                &&& f.wf()
                &&& f.rows() == rows_amount as int
                &&& f.cols() == columns_amount as int
                &&& f.mines_amount == mines_amount
                &&& forall|i: int, j: int|
                    f.in_bounds(i, j) ==> #[trigger] f.cell(i, j) == Cell::fresh(
                        (i as u8, j as u8),
                    )
            }),
    {
        proof {
            assert((rows_amount as int) * (columns_amount as int) <= 255 * 255) by (nonlinear_arith)
                requires
                    rows_amount <= 255,
                    columns_amount <= 255,
            ;
        }
        let cells_amount: u16 = rows_amount as u16 * columns_amount as u16;

        if cells_amount < 2 {
            return Err(FieldError::NotEnoughCells);
        }
        if mines_amount < 1 || mines_amount > cells_amount - 1 {
            return Err(FieldError::InvalidMinesAmount(cells_amount - 1));
        }
        proof {
            assert(rows_amount >= 1 && columns_amount >= 1) by (nonlinear_arith)
                requires
                    (rows_amount as int) * (columns_amount as int) >= 2,
            ;
        }
        let mut grid: Vec<Vec<Cell>> = Vec::new();
        let mut row_index: u8 = 0;
        while row_index < rows_amount
            invariant
                row_index <= rows_amount,
                grid@.len() == row_index as int,
                forall|i: int|
                    0 <= i < row_index as int ==> (#[trigger] grid@[i])@.len()
                        == columns_amount as int,
                forall|i: int, j: int|
                    0 <= i < row_index as int && 0 <= j < columns_amount as int
                        ==> (#[trigger] grid@[i]@[j]) == Cell::fresh((i as u8, j as u8)),
            decreases rows_amount - row_index,
        {
            let mut row: Vec<Cell> = Vec::new();
            let mut column_index: u8 = 0;
            while column_index < columns_amount
                invariant
                    column_index <= columns_amount,
                    row@.len() == column_index as int,
                    forall|j: int|
                        0 <= j < column_index as int ==> (#[trigger] row@[j]) == Cell::fresh(
                            (row_index as u8, j as u8),
                        ),
                decreases columns_amount - column_index,
            {
                row.push(Cell::new((row_index, column_index)));
                column_index += 1;
            }
            grid.push(row);
            row_index += 1;
        }
        let f = Field { grid, mines_amount };
        proof {
            assert(f.rows() * f.cols() == (rows_amount as int) * (columns_amount as int));
        }
        Ok(f)
    }

    /// Returns the field's height, width, and total number of cells.
    pub fn get_size(&self) -> (r: (u8, u8, u16))
        requires
            self.wf(),
        ensures
            r.0 as int == self.rows(),
            r.1 as int == self.cols(),
            r.2 as int == self.total(),
    {
        let rows_amount = self.grid.len() as u8;
        let columns_amount = self.grid[0].len() as u8;
        proof {
            assert((rows_amount as int) * (columns_amount as int) == self.total());
            assert(self.total() <= 255 * 255) by (nonlinear_arith)
                requires
                    self.rows() <= 255,
                    self.cols() <= 255,
                    self.total() == self.rows() * self.cols(),
            ;
        }
        (rows_amount, columns_amount, rows_amount as u16 * columns_amount as u16)
    }

    /// Returns the configured total number of mines.
    pub fn get_mines_amount(&self) -> (r: u16)
        ensures
            r == self.mines_amount,
    {
        self.mines_amount
    }

    /// Returns the cell at the given position, or `None` if the position lies
    /// outside the field.
    pub fn get_cell(&self, position: (u8, u8)) -> (r: Option<&Cell>)
        requires
            self.wf(),
        ensures
            match r {
                Some(cell) => self.pos_in_bounds(position) && *cell == self.cell_p(position),
                None => !self.pos_in_bounds(position),
            },
    {
        let (row_index, column_index) = position;
        let rr = row_index as usize;
        if rr < self.grid.len() {
            let row = &self.grid[rr];
            let cc = column_index as usize;
            if cc < row.len() {
                Some(&row[cc])
            } else {
                None
            }
        } else {
            None
        }
    }

    /// Returns a mutable reference to the cell at the given position, or
    /// `None` if the position lies outside the field.
    pub fn get_cell_mut(&mut self, position: (u8, u8)) -> (r: Option<&mut Cell>)
        requires
            old(self).wf(),
        ensures
            match r {
                Some(cell) => {
                    &&& old(self).pos_in_bounds(position)
                    &&& *cell == old(self).cell_p(position)
                    &&& final(self).rows() == old(self).rows()
                    &&& final(self).cols() == old(self).cols()
                    &&& final(self).mines_amount == old(self).mines_amount
                    &&& final(self).cell_p(position) == *final(cell)
                    &&& forall|i: int, j: int|
                        old(self).in_bounds(i, j) && !(i == position.0 as int && j
                            == position.1 as int) ==> #[trigger] final(self).cell(i, j) == old(self).cell(i, j)
                    &&& forall|i: int|
                        0 <= i < old(self).rows() ==> (#[trigger] final(self).grid@[i])@.len()
                            == old(self).grid@[i]@.len()
                },
                None => !old(self).pos_in_bounds(position) && *final(self) == *old(self),
            },
    {
        let (row_index, column_index) = position;
        let rr = row_index as usize;
        let cc = column_index as usize;
        if rr < self.grid.len() && cc < self.grid[rr].len() {
            let row: &mut Vec<Cell> = &mut self.grid[rr];
            Some(&mut row[cc])
        } else {
            None
        }
    }

    /// Toggles the flag of the cell at the given position; silently does
    /// nothing when the position lies outside the field.
    pub fn toggle_cell_flag(&mut self, position: (u8, u8))
        requires
            old(self).wf(),
        ensures
            final(self).wf(),
            toggle_flag_post(*old(self), *final(self), position),
    {
        if let Some(cell) = self.get_cell_mut(position) {
            cell.toggle_flag();
        }
    }

    /// Returns the number of currently flagged cells.
    pub fn get_flagged_cells_amount(&self) -> (r: u16)
        requires
            self.wf(),
        ensures
            r == self.flagged_count(),
    {
        let (_, columns_amount, cells_amount) = self.get_size();
        let mut count: u16 = 0;
        let mut i: u16 = 0;
        while i < cells_amount
            invariant
                self.wf(),
                columns_amount as int == self.cols(),
                cells_amount as int == self.total(),
                i <= cells_amount,
                count == self.count_flat(|c: Cell| c.flagged(), i as int),
            decreases cells_amount - i,
        {
            proof {
                lemma_flat_bounds(i as int, self.rows(), self.cols());
                lemma_count_flat_le(*self, |c: Cell| c.flagged(), i as int);
            }
            let r = (i / columns_amount as u16) as u8;
            let c = (i % columns_amount as u16) as u8;
            let cell = &self.grid[r as usize][c as usize];
            if cell.is_flagged() {
                count += 1;
            }
            i += 1;
        }
        count
    }

    /// Checks whether at least one mined cell is open: the loss condition.
    pub fn check_open_mines_exist(&self) -> (r: bool)
        requires
            self.wf(),
        ensures
            r == self.loss(),
    {
        let (_, columns_amount, cells_amount) = self.get_size();
        let mut i: u16 = 0;
        while i < cells_amount
            invariant
                self.wf(),
                columns_amount as int == self.cols(),
                cells_amount as int == self.total(),
                i <= cells_amount,
                forall|k: int|
                    0 <= k < i as int ==> !((#[trigger] self.cell_flat(k)).mined()
                        && self.cell_flat(k).opened()),
            decreases cells_amount - i,
        {
            proof {
                lemma_flat_bounds(i as int, self.rows(), self.cols());
            }
            let r = (i / columns_amount as u16) as u8;
            let c = (i % columns_amount as u16) as u8;
            let cell = &self.grid[r as usize][c as usize];
            if cell.is_open() && cell.is_mined() {
                proof {
                    assert(self.in_bounds(r as int, c as int) && self.cell(r as int, c as int).mined()
                        && self.cell(r as int, c as int).opened());
                }
                return true;
            }
            i += 1;
        }
        proof {
            assert forall|r: int, c: int|
                self.in_bounds(r, c) implies !((#[trigger] self.cell(r, c)).mined() && self.cell(
                r,
                c,
            ).opened()) by {
                lemma_flat_of_pos(r, c, self.rows(), self.cols());
                assert(self.cell_flat(r * self.cols() + c) == self.cell(r, c));
            }
        }
        false
    }

    /// Checks whether every non-mined cell is open: the win condition.
    pub fn check_all_non_mines_open(&self) -> (r: bool)
        requires
            self.wf(),
        ensures
            r == self.win(),
    {
        let (_, columns_amount, cells_amount) = self.get_size();
        let mut i: u16 = 0;
        while i < cells_amount
            invariant
                self.wf(),
                columns_amount as int == self.cols(),
                cells_amount as int == self.total(),
                i <= cells_amount,
                forall|k: int|
                    0 <= k < i as int ==> (!(#[trigger] self.cell_flat(k)).mined()
                        ==> self.cell_flat(k).opened()),
            decreases cells_amount - i,
        {
            proof {
                lemma_flat_bounds(i as int, self.rows(), self.cols());
            }
            let r = (i / columns_amount as u16) as u8;
            let c = (i % columns_amount as u16) as u8;
            let cell = &self.grid[r as usize][c as usize];
            if !cell.is_mined() && !cell.is_open() {
                proof {
                    assert(self.in_bounds(r as int, c as int) && !self.cell(
                        r as int,
                        c as int,
                    ).mined() && !self.cell(r as int, c as int).opened());
                }
                return false;
            }
            i += 1;
        }
        proof {
            assert forall|r: int, c: int|
                self.in_bounds(r, c) && !(#[trigger] self.cell(r, c)).mined() implies self.cell(
                r,
                c,
            ).opened() by {
                lemma_flat_of_pos(r, c, self.rows(), self.cols());
                assert(self.cell_flat(r * self.cols() + c) == self.cell(r, c));
            }
        }
        true
    }

    /// Opens every mined cell that is not flagged; meant to reveal the missed
    /// mines once the game is lost.
    pub fn open_missed_mines(&mut self)
        requires
            old(self).wf(),
        ensures
            final(self).wf(),
            omm_post(*old(self), *final(self)),
    {
        let ghost f0 = *self;
        let (_, columns_amount, cells_amount) = self.get_size();
        let mut i: u16 = 0;
        while i < cells_amount
            invariant
                self.wf(),
                f0.wf(),
                self.same_shape(f0),
                columns_amount as int == self.cols(),
                cells_amount as int == self.total(),
                i <= cells_amount,
                forall|k: int|
                    0 <= k < self.total() ==> {
                        let before = f0.cell_flat(k);
                        let after = #[trigger] self.cell_flat(k);
                        if k < i as int && before.mined() && !before.flagged() {
                            after == (Cell {
                                state: CellState::Open,
                                position: before.position,
                                variant: before.variant,
                            })
                        } else {
                            after == before
                        }
                    },
            decreases cells_amount - i,
        {
            proof {
                lemma_flat_bounds(i as int, self.rows(), self.cols());
            }
            let r = (i / columns_amount as u16) as u8;
            let c = (i % columns_amount as u16) as u8;
            let cell = self.grid[r as usize][c as usize];
            if cell.is_mined() && !cell.is_flagged() {
                let mut updated = cell;
                updated.open();
                self.set_cell(r, c, updated);
            }
            proof {
                assert forall|k: int| 0 <= k < self.total() implies {
                    let before = f0.cell_flat(k);
                    let after = #[trigger] self.cell_flat(k);
                    if k < i as int + 1 && before.mined() && !before.flagged() {
                        after == (Cell {
                            state: CellState::Open,
                            position: before.position,
                            variant: before.variant,
                        })
                    } else {
                        after == before
                    }
                } by {
                    lemma_flat_bounds(k, self.rows(), self.cols());
                }
            }
            i += 1;
        }
        proof {
            assert forall|r: int, c: int| f0.in_bounds(r, c) implies {
                let before = f0.cell(r, c);
                let after = #[trigger] self.cell(r, c);
                if before.mined() && !before.flagged() {
                    after == (Cell {
                        state: CellState::Open,
                        position: before.position,
                        variant: before.variant,
                    })
                } else {
                    after == before
                }
            } by {
                lemma_flat_of_pos(r, c, f0.rows(), f0.cols());
                assert(self.cell_flat(r * f0.cols() + c) == self.cell(r, c));
                assert(f0.cell_flat(r * f0.cols() + c) == f0.cell(r, c));
            }
        }
    }
}


/// Two fields of the same dimensions that agree on which cells are mined hold
/// the same number of mines.
pub proof fn lemma_mined_count_agree(f1: Field, f2: Field)
    requires
        f1.wf(),
        f1.rows() == f2.rows(),
        f1.cols() == f2.cols(),
        forall|q: (u8, u8)|
            f1.pos_in_bounds(q) ==> ((#[trigger] f1.cell_p(q)).mined() == f2.cell_p(q).mined()),
    ensures
        f1.mined_count() == f2.mined_count(),
{
    assert forall|i: int|
        0 <= i < f1.total() implies ((|c: Cell| c.mined())(#[trigger] f1.cell_flat(i)) == (|c: Cell|
        c.mined())(f2.cell_flat(i))) by {
        lemma_flat_bounds(i, f1.rows(), f1.cols());
        let q = ((i / f1.cols()) as u8, (i % f1.cols()) as u8);
        assert(f1.cell_p(q) == f1.cell_flat(i));
        assert(f2.cell_p(q) == f2.cell_flat(i));
        assert(f1.pos_in_bounds(q));
    }
    lemma_count_flat_agree_pred(f1, f2, |c: Cell| c.mined(), f1.total());
}

/// Two fields of the same dimensions that agree cell by cell on being mined
/// and on being open agree on the loss and win conditions.
pub proof fn lemma_loss_win_agree(f1: Field, f2: Field)
    requires
        f1.rows() == f2.rows(),
        f1.cols() == f2.cols(),
        forall|i: int, j: int|
            f1.in_bounds(i, j) ==> ((#[trigger] f1.cell(i, j)).mined() == f2.cell(i, j).mined()
                && f1.cell(i, j).opened() == f2.cell(i, j).opened()),
    ensures
        f1.loss() == f2.loss(),
        f1.win() == f2.win(),
{
    if f1.loss() {
        let (r, c) = choose|r: int, c: int|
            f1.in_bounds(r, c) && (#[trigger] f1.cell(r, c)).mined() && f1.cell(r, c).opened();
        assert(f2.cell(r, c).mined() && f2.cell(r, c).opened());
    }
    if f2.loss() {
        let (r, c) = choose|r: int, c: int|
            f2.in_bounds(r, c) && (#[trigger] f2.cell(r, c)).mined() && f2.cell(r, c).opened();
        assert(f1.cell(r, c).mined() && f1.cell(r, c).opened());
    }
    if f1.win() {
        assert forall|r: int, c: int|
            f2.in_bounds(r, c) && !(#[trigger] f2.cell(r, c)).mined() implies f2.cell(
            r,
            c,
        ).opened() by {
            assert(!f1.cell(r, c).mined());
            assert(f1.cell(r, c).opened());
        }
    }
    if f2.win() {
        assert forall|r: int, c: int|
            f1.in_bounds(r, c) && !(#[trigger] f1.cell(r, c)).mined() implies f1.cell(
            r,
            c,
        ).opened() by {
            assert(!f2.cell(r, c).mined());
            assert(f2.cell(r, c).opened());
        }
    }
}


/// A well-formed field that still looks freshly constructed has no open mine,
/// is not yet won, and holds no mine at all.
pub proof fn lemma_pristine_board(f: Field)
    requires
        f.wf(),
        f.pristine(),
    ensures
        !f.loss(),
        !f.win(),
        !f.has_mines(),
{
    assert forall|r: int, c: int| f.in_bounds(r, c) implies !(#[trigger] f.cell(r, c)).mined()
        && !f.cell(r, c).opened() by {
        let q = ((r as u8), (c as u8));
        assert(f.pos_in_bounds(q));
        assert(f.cell_p(q) == f.cell(r, c));
    }
    assert(f.in_bounds(0, 0) && !f.cell(0, 0).mined() && !f.cell(0, 0).opened());
}

/// Revealing the missed mines never takes the board out of the lost state.
pub proof fn lemma_omm_keeps_loss(f1: Field, f2: Field)
    requires
        omm_post(f1, f2),
        f1.loss(),
    ensures
        f2.loss(),
{
    let (r, c) = choose|r: int, c: int|
        f1.in_bounds(r, c) && (#[trigger] f1.cell(r, c)).mined() && f1.cell(r, c).opened();
    assert(f2.cell(r, c).mined() && f2.cell(r, c).opened());
}

/// LAW: toggling a cell's flag twice gives the field back exactly as it was,
/// cell for cell; and a toggle never changes an open cell at all.
pub proof fn lemma_toggle_flag_twice(f0: Field, f1: Field, f2: Field, p: (u8, u8))
    requires
        f0.wf(),
        toggle_flag_post(f0, f1, p),
        toggle_flag_post(f1, f2, p),
    ensures
        f2.rows() == f0.rows(),
        f2.cols() == f0.cols(),
        f2.mines_amount == f0.mines_amount,
        forall|i: int, j: int| f0.in_bounds(i, j) ==> #[trigger] f2.cell(i, j) == f0.cell(i, j),
{
    if f0.pos_in_bounds(p) {
        assert(f2.cell_p(p) == f0.cell_p(p));
        assert(f2.cell(p.0 as int, p.1 as int) == f0.cell(p.0 as int, p.1 as int));
    }
}

} // verus!
