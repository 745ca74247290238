//! A single grid cell: its mine/empty content and its closed/flagged/open state.

use vstd::prelude::*;

verus! {

/// What a cell contains.
///
/// A cell either holds a mine or is empty; an empty cell carries the number of
/// mined cells among its grid neighbours (meaningful only once the field has
/// been populated).
#[derive(Clone, Copy, Debug, PartialEq, Eq)]
pub enum CellVariant {
    /// An empty cell; the payload is the number of mines around it.
    Empty(u8),
    /// A mined cell.
    Mine,
}

/// Whether a cell has been opened.
///
/// A closed cell may additionally carry a flag; an open cell never does.
#[derive(Clone, Copy, Debug, PartialEq, Eq)]
pub enum CellState {
    /// A closed cell; the payload tells whether it is flagged.
    Closed(bool),
    /// An open cell.
    Open,
}

/// One cell of the field: its own position, its content and its state.
#[derive(Clone, Copy, Debug, PartialEq, Eq)]
pub struct Cell {
    /// The cell's own coordinates, `(row_index, column_index)`, kept so the
    /// cell can compute its adjacent positions without knowing the field.
    pub position: (u8, u8),
    /// Mine or empty-with-count.
    pub variant: CellVariant,
    /// Closed (possibly flagged) or open.
    pub state: CellState,
}

impl Cell {
    /// Whether the cell holds a mine.
    pub open spec fn mined(self) -> bool {
        self.variant == CellVariant::Mine
    }

    /// Whether the cell has been opened.
    pub open spec fn opened(self) -> bool {
        self.state == CellState::Open
    }

    /// Whether the cell is closed and flagged.
    pub open spec fn flagged(self) -> bool {
        self.state == CellState::Closed(true)
    }

    /// The number of mines around the cell, or `None` for a mined cell.
    pub open spec fn mines_around(self) -> Option<u8> {
        match self.variant {
            CellVariant::Empty(n) => Some(n),
            CellVariant::Mine => None,
        }
    }

    /// A closed, unflagged, empty cell with count 0 at the given position.
    pub open spec fn fresh(position: (u8, u8)) -> Cell {
        Cell { position, variant: CellVariant::Empty(0), state: CellState::Closed(false) }
    }

    /// Creates a new closed, not flagged, empty cell at the position provided.
    pub fn new(position: (u8, u8)) -> (cell: Cell)
        ensures
            cell == Cell::fresh(position),
    {
        Cell { position, variant: CellVariant::Empty(0), state: CellState::Closed(false) }
    }

    /// Checks whether the cell is mined.
    pub fn is_mined(&self) -> (r: bool)
        ensures
            r == self.mined(),
    {
        matches!(self.variant, CellVariant::Mine)
    }

    /// Mines the cell in place, discarding any accumulated count.
    pub fn mine(&mut self)
        ensures
            *final(self) == (Cell {
                variant: CellVariant::Mine,
                position: old(self).position,
                state: old(self).state,
            }),
    {
        self.variant = CellVariant::Mine;
    }

    /// Returns the number of mines around the cell, or `None` if the cell
    /// itself is mined.
    pub fn get_mines_around_amount(&self) -> (r: Option<u8>)
        ensures
            r == self.mines_around(),
    {
        match self.variant {
            CellVariant::Empty(n) => Some(n),
            CellVariant::Mine => None,
        }
    }

    /// Increments the count of mines around the cell; no effect on a mined cell.
    pub fn increment_mines_around_amount(&mut self)
        requires
            old(self).variant matches CellVariant::Empty(n) ==> n < 255,
        ensures
            final(self).position == old(self).position,
            final(self).state == old(self).state,
            old(self).mined() ==> final(self).variant == old(self).variant,
            old(self).variant matches CellVariant::Empty(n) ==> final(self).variant
                == CellVariant::Empty((n + 1) as u8),
    {
        if let CellVariant::Empty(n) = self.variant {
            self.variant = CellVariant::Empty(n + 1);
        }
    }

    /// Checks whether the cell is open.
    pub fn is_open(&self) -> (r: bool)
        ensures
            r == self.opened(),
    {
        matches!(self.state, CellState::Open)
    }

    /// Opens the cell in place, whatever its previous state.
    pub fn open(&mut self)
        ensures
            *final(self) == (Cell {
                state: CellState::Open,
                position: old(self).position,
                variant: old(self).variant,
            }),
    {
        self.state = CellState::Open;
    }

    /// Checks whether the cell is flagged.
    pub fn is_flagged(&self) -> (r: bool)
        ensures
            r == self.flagged(),
    {
        matches!(self.state, CellState::Closed(true))
    }

    /// Toggles the cell's flag; no effect on an open cell.
    pub fn toggle_flag(&mut self)
        ensures
            final(self).position == old(self).position,
            final(self).variant == old(self).variant,
            old(self).opened() ==> final(self).state == old(self).state,
            old(self).state matches CellState::Closed(f) ==> final(self).state
                == CellState::Closed(!f),
    {
        if let CellState::Closed(f) = self.state {
            self.state = CellState::Closed(!f);
        }
    }
}

/// Whether two positions are distinct and touch each other, diagonally or
/// not, when read as mathematical coordinates.
pub open spec fn adjacent(p: (u8, u8), q: (u8, u8)) -> bool {
    let dr = p.0 as int - q.0 as int;
    let dc = p.1 as int - q.1 as int;
    -1 <= dr <= 1 && -1 <= dc <= 1 && !(dr == 0 && dc == 0)
}

/// The positions around `p` on an unbounded grid, in the order the cell hands
/// them out: left column top-to-bottom, middle column, right column, with the
/// positions that would need a negative index dropped.
pub open spec fn adjacent_seq(p: (u8, u8)) -> Seq<(u8, u8)> {
    let r = p.0;
    let c = p.1;
    if r > 0 && c > 0 {
        seq![
            ((r - 1) as u8, (c - 1) as u8),
            (r, (c - 1) as u8),
            ((r + 1) as u8, (c - 1) as u8),
            ((r - 1) as u8, c),
            ((r + 1) as u8, c),
            ((r - 1) as u8, (c + 1) as u8),
            (r, (c + 1) as u8),
            ((r + 1) as u8, (c + 1) as u8),
        ]
    } else if r == 0 && c > 0 {
        seq![
            (r, (c - 1) as u8),
            ((r + 1) as u8, (c - 1) as u8),
            ((r + 1) as u8, c),
            (r, (c + 1) as u8),
            ((r + 1) as u8, (c + 1) as u8),
        ]
    } else if r > 0 && c == 0 {
        seq![
            ((r - 1) as u8, c),
            ((r + 1) as u8, c),
            ((r - 1) as u8, (c + 1) as u8),
            (r, (c + 1) as u8),
            ((r + 1) as u8, (c + 1) as u8),
        ]
    } else {
        seq![((r + 1) as u8, c), (r, (c + 1) as u8), ((r + 1) as u8, (c + 1) as u8)]
    }
}

/// For a position whose neighbours all fit in `u8`, the adjacency list holds
/// exactly the adjacent positions, each once.
pub proof fn lemma_adjacent_seq_correct(p: (u8, u8))
    requires
        p.0 < 255,
        p.1 < 255,
    ensures
        forall|q: (u8, u8)| #[trigger] adjacent_seq(p).contains(q) <==> adjacent(p, q),
        adjacent_seq(p).no_duplicates(),
        adjacent_seq(p).len() <= 8,
{
    let s = adjacent_seq(p);
    assert forall|q: (u8, u8)| #[trigger] s.contains(q) implies adjacent(p, q) by {
        let i = choose|i: int| 0 <= i < s.len() && s[i] == q;
        assert(adjacent(p, s[i]));
    }
    assert forall|q: (u8, u8)| adjacent(p, q) implies #[trigger] s.contains(q) by {
        let r = p.0;
        let c = p.1;
        if q.0 as int == r - 1 {
            if q.1 as int == c - 1 {
                assert(s[0] == q);
            } else if q.1 == c {
                assert(s[if c > 0 { 3int } else { 0int }] == q);
            } else {
                assert(s[if c > 0 { 5int } else { 2int }] == q);
            }
        } else if q.0 == r {
            if q.1 as int == c - 1 {
                assert(s[if r > 0 { 1int } else { 0int }] == q);
            } else {
                let i = if r > 0 && c > 0 {
                    6int
                } else if r == 0 && c > 0 {
                    3int
                } else if r > 0 && c == 0 {
                    3int
                } else {
                    1int
                };
                assert(s[i] == q);
            }
        } else {
            if q.1 as int == c - 1 {
                assert(s[if r > 0 { 2int } else { 1int }] == q);
            } else if q.1 == c {
                let i = if r > 0 && c > 0 {
                    4int
                } else if r == 0 && c > 0 {
                    2int
                } else if r > 0 && c == 0 {
                    1int
                } else {
                    0int
                };
                assert(s[i] == q);
            } else {
                let i = if r > 0 && c > 0 {
                    7int
                } else if r == 0 && c > 0 {
                    4int
                } else if r > 0 && c == 0 {
                    4int
                } else {
                    2int
                };
                assert(s[i] == q);
            }
        }
    }
}

impl Cell {
    /// Returns the positions adjacent to this cell on an unbounded grid;
    /// positions with a negative index are dropped, while positions beyond a
    /// field's upper bound are left for the caller to filter.
    pub fn get_adjacent_cells_positions(&self) -> (r: Vec<(u8, u8)>)
        requires
            self.position.0 < 255,
            self.position.1 < 255,
        ensures
            r@ == adjacent_seq(self.position),
    {
        let (row, col) = self.position;
        let mut r: Vec<(u8, u8)> = Vec::new();
        if row > 0 && col > 0 {
            r.push((row - 1, col - 1));
        }
        if col > 0 {
            r.push((row, col - 1));
            r.push((row + 1, col - 1));
        }
        if row > 0 {
            r.push((row - 1, col));
        }
        r.push((row + 1, col));
        if row > 0 {
            r.push((row - 1, col + 1));
        }
        r.push((row, col + 1));
        r.push((row + 1, col + 1));
        proof {
            assert(r@ =~= adjacent_seq(self.position));
        }
        r
    }
}

} // verus!
