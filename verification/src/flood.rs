//! Opening cells: the flood fill of empty regions and the chord action.

use vstd::prelude::*;

use crate::cell::{adjacent, adjacent_seq, lemma_adjacent_seq_correct, Cell, CellState};
use crate::field::{lemma_count_flat_change_one, lemma_flat_bounds, lemma_flat_of_pos, Field};

verus! {

impl Field {
    /// Whether the cell at `p` would open on request: inside the field,
    /// closed, and not flagged.
    pub open spec fn openable(self, p: (u8, u8)) -> bool {
        &&& self.pos_in_bounds(p)
        &&& !self.cell_p(p).opened()
        &&& !self.cell_p(p).flagged()
    }

    /// Whether the cell at `p` propagates the flood: openable and showing a
    /// zero count of mines around.
    pub open spec fn spreads(self, p: (u8, u8)) -> bool {
        self.openable(p) && self.cell_p(p).mines_around() == Some(0u8)
    }
}

/// How any single cell may change under an opening operation: its position
/// and content stay, and its state either stays or goes from closed and
/// unflagged to open.
pub open spec fn cell_evolves(b: Cell, a: Cell) -> bool {
    &&& a.position == b.position
    &&& a.variant == b.variant
    &&& (a.state == b.state || (b.state == CellState::Closed(false) && a.state == CellState::Open))
}

/// How a field may change under an opening operation: same dimensions and
/// mine configuration, and every cell evolving as `cell_evolves` allows.
pub open spec fn evolves(f0: Field, f1: Field) -> bool {
    &&& f1.rows() == f0.rows()
    &&& f1.cols() == f0.cols()
    &&& f1.mines_amount == f0.mines_amount
    &&& forall|q: (u8, u8)|
        f0.pos_in_bounds(q) ==> cell_evolves(f0.cell_p(q), #[trigger] f1.cell_p(q))
}

/// Whether the cell at `q` is open in `f1` but was closed in `f0`.
pub open spec fn newly_opened(f0: Field, f1: Field, q: (u8, u8)) -> bool {
    f0.pos_in_bounds(q) && !f0.cell_p(q).opened() && f1.cell_p(q).opened()
}

/// Whether `q` can be reached from `s` within `n` steps, walking through
/// cells of `f` that are closed, unflagged and show a zero count, and ending
/// on any in-bounds cell.
pub open spec fn reaches(f: Field, s: (u8, u8), q: (u8, u8), n: nat) -> bool
    decreases n,
{
    if q == s {
        true
    } else if n == 0 {
        false
    } else {
        exists|p: (u8, u8)|
            #[trigger] adjacent(p, q) && reaches(f, s, p, (n - 1) as nat) && f.spreads(p)
                && f.pos_in_bounds(q)
    }
}

/// Whether `q` can be reached from `s` in any number of steps.
pub open spec fn reachable(f: Field, s: (u8, u8), q: (u8, u8)) -> bool {
    exists|n: nat| reaches(f, s, q, n)
}

/// What opening the cell at `pos` does to a field: cells only evolve, the
/// target opens when it may, every cell that a newly opened zero-count cell
/// touches opens unless flagged, and nothing beyond the reachable region
/// opens.
pub open spec fn open_cell_post(f0: Field, f1: Field, pos: (u8, u8)) -> bool {
    &&& evolves(f0, f1)
    &&& (f0.openable(pos) ==> f1.cell_p(pos).opened())
    &&& forall|q: (u8, u8)| #[trigger] newly_opened(f0, f1, q) ==> reachable(f0, pos, q)
    &&& forall|p: (u8, u8), q: (u8, u8)|
        newly_opened(f0, f1, p) && f0.cell_p(p).mines_around() == Some(0u8) && #[trigger] adjacent(
            p,
            q,
        ) && f0.pos_in_bounds(q) && !f0.cell_p(q).flagged() ==> f1.cell_p(q).opened()
}

/// Cell evolution composes.
pub proof fn lemma_evolves_trans(f0: Field, f1: Field, f2: Field)
    requires
        evolves(f0, f1),
        evolves(f1, f2),
    ensures
        evolves(f0, f2),
{
    assert forall|q: (u8, u8)| f0.pos_in_bounds(q) implies cell_evolves(
        f0.cell_p(q),
        #[trigger] f2.cell_p(q),
    ) by {
        assert(cell_evolves(f0.cell_p(q), f1.cell_p(q)));
        assert(cell_evolves(f1.cell_p(q), f2.cell_p(q)));
    }
}

/// A chain through closed zero-count cells of an evolved field was already a
/// chain in the field it evolved from: opening cells never creates new paths.
pub proof fn lemma_reaches_in_earlier(f0: Field, f1: Field, s: (u8, u8), q: (u8, u8), n: nat)
    requires
        evolves(f0, f1),
        reaches(f1, s, q, n),
    ensures
        reaches(f0, s, q, n),
    decreases n,
{
    if q != s && n > 0 {
        let p = choose|p: (u8, u8)|
            #[trigger] adjacent(p, q) && reaches(f1, s, p, (n - 1) as nat) && f1.spreads(p)
                && f1.pos_in_bounds(q);
        lemma_reaches_in_earlier(f0, f1, s, p, (n - 1) as nat);
        assert(cell_evolves(f0.cell_p(p), f1.cell_p(p)));
        assert(f0.spreads(p));
        assert(reaches(f0, s, q, n));
    }
}

impl Field {
    /// Opens the cell at the given position; when the opened cell shows a
    /// zero count of mines around, the opening spreads to all its neighbours,
    /// and on through every zero-count cell so uncovered. A position outside
    /// the field, an open cell or a flagged cell is left alone.
    pub fn open_cell(&mut self, position: (u8, u8))
        requires
            old(self).wf(),
        ensures
            final(self).wf(),
            open_cell_post(*old(self), *final(self), position),
    {
        let ghost f0 = *self;
        let mut stack: Vec<(u8, u8)> = Vec::new();
        stack.push(position);
        proof {
            assert(reaches(f0, position, position, 0));
            assert(stack@[0] == position);
            assert(stack@.contains(position));
        }
        while stack.len() > 0
            invariant
                self.wf(),
                f0.wf(),
                evolves(f0, *self),
                forall|q: (u8, u8)| #[trigger] newly_opened(f0, *self, q) ==> reachable(
                    f0,
                    position,
                    q,
                ),
                forall|k: int|
                    0 <= k < stack@.len() && f0.pos_in_bounds(#[trigger] stack@[k]) ==> reachable(
                        f0,
                        position,
                        stack@[k],
                    ),
                forall|p: (u8, u8), q: (u8, u8)|
                    newly_opened(f0, *self, p) && f0.cell_p(p).mines_around() == Some(0u8)
                        && #[trigger] adjacent(p, q) && f0.pos_in_bounds(q) && !f0.cell_p(
                        q,
                    ).flagged() ==> (self.cell_p(q).opened() || stack@.contains(q)),
                f0.openable(position) ==> (self.cell_p(position).opened() || stack@.contains(
                    position,
                )),
            decreases 9 * self.closed_count() + stack@.len(),
        {
            let ghost stack_before = stack@;
            let ghost field_before = *self;
            let p = match stack.pop() {
                Some(p) => p,
                None => {
                    proof {
                        assert(false);
                    }
                    (0, 0)
                },
            };
            proof {
                assert(stack@ =~= stack_before.drop_last());
                assert(stack_before[stack_before.len() - 1] == p);
                assert forall|q: (u8, u8)| #[trigger] stack_before.contains(q) implies q == p
                    || stack@.contains(q) by {
                    let i = choose|i: int| 0 <= i < stack_before.len() && stack_before[i] == q;
                    if i < stack_before.len() - 1 {
                        assert(stack@[i] == q);
                    }
                }
                if f0.pos_in_bounds(p) {
                    assert(reachable(f0, position, p));
                }
            }
            let in_field = {
                let rr = p.0 as usize;
                rr < self.grid.len() && (p.1 as usize) < self.grid[rr].len()
            };
            if in_field {
                let cell = self.grid[p.0 as usize][p.1 as usize];
                if !cell.is_open() && !cell.is_flagged() {
                    proof {
                        // the cell is closed now, so it was closed at the start
                        assert(cell_evolves(f0.cell_p(p), self.cell_p(p)));
                    }
                    let mut updated = cell;
                    updated.open();
                    self.set_cell(p.0, p.1, updated);
                    proof {
                        let j = p.0 as int * field_before.cols() + p.1 as int;
                        lemma_flat_of_pos(
                            p.0 as int,
                            p.1 as int,
                            field_before.rows(),
                            field_before.cols(),
                        );
                        assert forall|i: int|
                            0 <= i < field_before.total() && i != j implies #[trigger] field_before.cell_flat(
                            i,
                        ) == self.cell_flat(i) by {
                            lemma_flat_bounds(i, field_before.rows(), field_before.cols());
                        }
                        lemma_count_flat_change_one(
                            field_before,
                            *self,
                            |c: Cell| !c.opened(),
                            j,
                            field_before.total(),
                        );
                        assert(self.closed_count() + 1 == field_before.closed_count());
                        assert(field_before.grid@[p.0 as int]@.len() == field_before.cols());
                        assert(f0.pos_in_bounds(p));
                        assert(reachable(f0, position, p));
                        assert(newly_opened(f0, *self, p));
                        assert forall|q: (u8, u8)|
                            f0.pos_in_bounds(q) implies cell_evolves(
                            f0.cell_p(q),
                            #[trigger] self.cell_p(q),
                        ) by {
                            if q.0 == p.0 && q.1 == p.1 {
                            } else {
                                assert(self.cell_p(q) == field_before.cell_p(q));
                            }
                        }
                        assert forall|q: (u8, u8)| #[trigger] newly_opened(
                            f0,
                            *self,
                            q,
                        ) implies reachable(f0, position, q) by {
                            if q.0 == p.0 && q.1 == p.1 {
                                assert(q == p);
                            } else {
                                assert(self.cell_p(q) == field_before.cell_p(q));
                                assert(newly_opened(f0, field_before, q));
                            }
                        }
                    }
                    if cell.get_mines_around_amount() == Some(0u8) {
                        proof {
                            assert(f0.spreads(p));
                            lemma_adjacent_seq_correct(p);
                        }
                        let adj = cell.get_adjacent_cells_positions();
                        let ghost stack_mid = stack@;
                        let mut k: usize = 0;
                        while k < adj.len()
                            invariant
                                k <= adj.len(),
                                adj@ == adjacent_seq(p),
                                stack@ =~= stack_mid + adj@.subrange(0, k as int),
                            decreases adj.len() - k,
                        {
                            stack.push(adj[k]);
                            proof {
                                assert(stack@ =~= stack_mid + adj@.subrange(0, k as int + 1));
                            }
                            k += 1;
                        }
                        proof {
                            assert(adj@.subrange(0, adj@.len() as int) =~= adj@);
                            assert forall|q: (u8, u8)| #[trigger] stack_mid.contains(
                                q,
                            ) implies stack@.contains(q) by {
                                let i = choose|i: int|
                                    0 <= i < stack_mid.len() && stack_mid[i] == q;
                                assert(stack@[i] == q);
                            }
                            assert(reachable(f0, position, p));
                            let n0 = choose|n: nat| reaches(f0, position, p, n);
                            assert(reaches(f0, position, p, n0));
                            assert forall|q: (u8, u8)| #[trigger] adjacent(p, q) && f0.pos_in_bounds(
                                q,
                            ) implies reachable(f0, position, q) && stack@.contains(q) by {
                                assert(reaches(f0, position, q, n0 + 1));
                                assert(reachable(f0, position, q));
                                assert(adjacent_seq(p).contains(q));
                                let i = choose|i: int|
                                    0 <= i < adjacent_seq(p).len() && adjacent_seq(p)[i] == q;
                                assert(stack@[stack_mid.len() + i] == q);
                                assert(stack@.contains(q));
                            }
                            assert forall|k2: int|
                                0 <= k2 < stack@.len() && f0.pos_in_bounds(
                                    #[trigger] stack@[k2],
                                ) implies reachable(f0, position, stack@[k2]) by {
                                if k2 < stack_mid.len() {
                                } else {
                                    let q = stack@[k2];
                                    assert(adjacent_seq(p).contains(q));
                                    assert(adjacent(p, q));
                                }
                            }
                        }
                    }
                }
            }
        }
    }
}

/// Whether the chord action at `pos` does anything: the target cell must be
/// inside the field, open, empty with some count `n`, and have exactly `n`
/// flagged neighbours.
pub open spec fn chord_active(f: Field, pos: (u8, u8)) -> bool {
    &&& f.pos_in_bounds(pos)
    &&& f.cell_p(pos).opened()
    &&& match f.cell_p(pos).mines_around() {
        Some(n) => f.flagged_neighbours(pos) == n,
        None => false,
    }
}

/// What the chord action at `pos` does to a field: nothing at all unless it
/// is active; when active, every unflagged neighbour of `pos` ends up open,
/// cells only evolve, and nothing beyond what the neighbours' floods reach
/// opens.
pub open spec fn chord_post(f0: Field, f1: Field, pos: (u8, u8)) -> bool {
    &&& evolves(f0, f1)
    &&& (!chord_active(f0, pos) ==> f1 == f0)
    &&& (chord_active(f0, pos) ==> {
        &&& forall|q: (u8, u8)|
            #[trigger] adjacent(pos, q) && f0.pos_in_bounds(q) && !f0.cell_p(q).flagged()
                ==> f1.cell_p(q).opened()
        &&& forall|q: (u8, u8)|
            #[trigger] newly_opened(f0, f1, q) ==> exists|s: (u8, u8)|
                #[trigger] adjacent(pos, s) && reachable(f0, s, q)
    })
}

impl Field {
    /// Opens all the cells surrounding the target one, the equivalent of the
    /// middle click: it does nothing unless the target cell is open, shows a
    /// count, and has exactly that many flagged neighbours. Flagged
    /// neighbours themselves are never opened by it.
    pub fn open_surrounding_cells(&mut self, position: (u8, u8))
        requires
            old(self).wf(),
        ensures
            final(self).wf(),
            chord_post(*old(self), *final(self), position),
    {
        let ghost f0 = *self;
        let target = match self.get_cell(position) {
            Some(cell) => *cell,
            None => {
                return ;
            },
        };
        proof {
            assert(target.position == position);
            lemma_adjacent_seq_correct(position);
        }
        let adj = target.get_adjacent_cells_positions();
        let mut flagged_amount: u8 = 0;
        let mut k: usize = 0;
        while k < adj.len()
            invariant
                self.wf(),
                *self == f0,
                k <= adj.len(),
                adj@ == adjacent_seq(position),
                adj@.len() <= 8,
                flagged_amount as nat == f0.count_flagged_at(adj@.subrange(0, k as int)),
                flagged_amount <= k,
            decreases adj.len() - k,
        {
            let q = adj[k];
            let flagged_here = match self.get_cell(q) {
                Some(cell) => cell.is_flagged(),
                None => false,
            };
            if flagged_here {
                flagged_amount += 1;
            }
            proof {
                assert(adj@.subrange(0, k as int + 1).drop_last() =~= adj@.subrange(0, k as int));
                assert(adj@.subrange(0, k as int + 1).last() == adj@[k as int]);
            }
            k += 1;
        }
        proof {
            assert(adj@.subrange(0, adj@.len() as int) =~= adj@);
            assert(flagged_amount as nat == f0.flagged_neighbours(position));
        }
        let active = target.is_open() && match target.get_mines_around_amount() {
            Some(amount) => flagged_amount == amount,
            None => false,
        };
        if !active {
            proof {
                assert(!chord_active(f0, position));
            }
            return ;
        }
        proof {
            assert(chord_active(f0, position));
        }
        let mut k2: usize = 0;
        while k2 < adj.len()
            invariant
                self.wf(),
                f0.wf(),
                evolves(f0, *self),
                chord_active(f0, position),
                k2 <= adj.len(),
                adj@ == adjacent_seq(position),
                forall|i: int|
                    0 <= i < k2 as int && f0.pos_in_bounds(#[trigger] adj@[i]) && !f0.cell_p(
                        adj@[i],
                    ).flagged() ==> self.cell_p(adj@[i]).opened(),
                forall|q: (u8, u8)|
                    #[trigger] newly_opened(f0, *self, q) ==> exists|s: (u8, u8)|
                        #[trigger] adjacent(position, s) && reachable(f0, s, q),
            decreases adj.len() - k2,
        {
            let ghost f_mid = *self;
            let s = adj[k2];
            self.open_cell(s);
            proof {
                lemma_evolves_trans(f0, f_mid, *self);
                assert(adjacent_seq(position).contains(s));
                assert(adjacent(position, s));
                // earlier neighbours stay open, and this one opens if it may
                assert forall|i: int|
                    0 <= i < k2 as int + 1 && f0.pos_in_bounds(#[trigger] adj@[i]) && !f0.cell_p(
                        adj@[i],
                    ).flagged() implies self.cell_p(adj@[i]).opened() by {
                    let q = adj@[i];
                    assert(cell_evolves(f_mid.cell_p(q), self.cell_p(q)));
                    if i < k2 as int {
                        assert(f_mid.cell_p(q).opened());
                    } else {
                        assert(cell_evolves(f0.cell_p(q), f_mid.cell_p(q)));
                        if f_mid.cell_p(q).opened() {
                        } else {
                            assert(f_mid.openable(s));
                        }
                    }
                }
                assert forall|q: (u8, u8)| #[trigger] newly_opened(f0, *self, q) implies exists|
                    s2: (u8, u8),
                |
                    #[trigger] adjacent(position, s2) && reachable(f0, s2, q) by {
                    if newly_opened(f0, f_mid, q) {
                    } else {
                        assert(cell_evolves(f0.cell_p(q), f_mid.cell_p(q)));
                        assert(newly_opened(f_mid, *self, q));
                        assert(reachable(f_mid, s, q));
                        let n = choose|n: nat| reaches(f_mid, s, q, n);
                        lemma_reaches_in_earlier(f0, f_mid, s, q, n);
                        assert(adjacent(position, s) && reachable(f0, s, q));
                    }
                }
            }
            k2 += 1;
        }
        proof {
            assert forall|q: (u8, u8)|
                #[trigger] adjacent(position, q) && f0.pos_in_bounds(q) && !f0.cell_p(
                    q,
                ).flagged() implies self.cell_p(q).opened() by {
                assert(adjacent_seq(position).contains(q));
                let i = choose|i: int|
                    0 <= i < adjacent_seq(position).len() && adjacent_seq(position)[i] == q;
                assert(adj@[i] == q);
            }
        }
    }
}

/// LAW: the flood opens everything it says it reaches. After opening a
/// closed, unflagged cell, every in-bounds, unflagged cell connected to it
/// through closed, unflagged, zero-count cells is open.
pub proof fn lemma_flood_opens_reachable(f0: Field, f1: Field, pos: (u8, u8), q: (u8, u8), n: nat)
    requires
        open_cell_post(f0, f1, pos),
        f0.openable(pos),
        reaches(f0, pos, q, n),
        f0.pos_in_bounds(q),
        !f0.cell_p(q).flagged(),
    ensures
        f1.cell_p(q).opened(),
    decreases n,
{
    if q == pos {
    } else {
        assert(n > 0);
        let p = choose|p: (u8, u8)|
            #[trigger] adjacent(p, q) && reaches(f0, pos, p, (n - 1) as nat) && f0.spreads(p)
                && f0.pos_in_bounds(q);
        lemma_flood_opens_reachable(f0, f1, pos, p, (n - 1) as nat);
        assert(newly_opened(f0, f1, p));
    }
}

/// LAW: the flood opens the whole reachable region. After opening a closed,
/// unflagged cell, every in-bounds, unflagged cell connected to it through
/// closed, unflagged, zero-count cells is open, however long the chain.
pub proof fn lemma_flood_opens_region(f0: Field, f1: Field, pos: (u8, u8), q: (u8, u8))
    requires
        open_cell_post(f0, f1, pos),
        f0.openable(pos),
        reachable(f0, pos, q),
        f0.pos_in_bounds(q),
        !f0.cell_p(q).flagged(),
    ensures
        f1.cell_p(q).opened(),
{
    let n = choose|n: nat| reaches(f0, pos, q, n);
    lemma_flood_opens_reachable(f0, f1, pos, q, n);
}

impl Field {
    /// Whether every empty cell's stored count matches the number of mined
    /// cells among its in-bounds neighbours; holds from mine placement on.
    pub open spec fn counts_correct(self) -> bool {
        forall|q: (u8, u8)|
            self.pos_in_bounds(q) && !(#[trigger] self.cell_p(q)).mined() ==> self.cell_p(
                q,
            ).mines_around() == Some(self.mined_neighbours(q) as u8)
    }
}

/// A count of mined cells over a list of positions never exceeds its length.
pub proof fn lemma_count_mined_at_le(f: Field, s: Seq<(u8, u8)>)
    ensures
        f.count_mined_at(s) <= s.len(),
    decreases s.len(),
{
    if s.len() > 0 {
        lemma_count_mined_at_le(f, s.drop_last());
    }
}

/// A zero count of mined cells over a list of positions means none of its
/// in-bounds entries is mined.
pub proof fn lemma_count_mined_at_zero(f: Field, s: Seq<(u8, u8)>)
    requires
        f.count_mined_at(s) == 0,
    ensures
        forall|i: int|
            0 <= i < s.len() ==> !(f.pos_in_bounds(#[trigger] s[i]) && f.cell_p(s[i]).mined()),
    decreases s.len(),
{
    if s.len() > 0 {
        lemma_count_mined_at_zero(f, s.drop_last());
        assert(forall|i: int| 0 <= i < s.len() - 1 ==> #[trigger] s[i] == s.drop_last()[i]);
    }
}

/// LAW: the flood opens nothing beyond the boundary of numbered cells, and in
/// particular, with correct counts, the only mine an opening can ever reveal
/// is the one directly asked for.
pub proof fn lemma_flood_opens_no_mine(f0: Field, f1: Field, pos: (u8, u8))
    requires
        f0.wf(),
        f0.counts_correct(),
        open_cell_post(f0, f1, pos),
    ensures
        forall|q: (u8, u8)|
            #[trigger] newly_opened(f0, f1, q) && f1.cell_p(q).mined() ==> q == pos,
{
    assert forall|q: (u8, u8)|
        #[trigger] newly_opened(f0, f1, q) && f1.cell_p(q).mined() implies q == pos by {
        if q != pos {
            assert(reachable(f0, pos, q));
            let n = choose|n: nat| reaches(f0, pos, q, n);
            assert(reaches(f0, pos, q, n));
            assert(n > 0);
            let p = choose|p: (u8, u8)|
                #[trigger] adjacent(p, q) && reaches(f0, pos, p, (n - 1) as nat) && f0.spreads(p)
                    && f0.pos_in_bounds(q);
            assert(!f0.cell_p(p).mined());
            lemma_count_mined_at_le(f0, adjacent_seq(p));
            assert(f0.mined_neighbours(p) == 0);
            lemma_count_mined_at_zero(f0, adjacent_seq(p));
            lemma_adjacent_seq_correct(p);
            assert(adjacent_seq(p).contains(q));
            let i = choose|i: int|
                0 <= i < adjacent_seq(p).len() && adjacent_seq(p)[i] == q;
            assert(!f0.cell_p(q).mined());
            assert(cell_evolves(f0.cell_p(q), f1.cell_p(q)));
            assert(false);
        }
    }
}


/// Correct neighbour counts carry over to any field of the same dimensions
/// whose cells hold the same contents.
pub proof fn lemma_counts_correct_agree(f1: Field, f2: Field)
    requires
        f1.rows() == f2.rows(),
        f1.cols() == f2.cols(),
        f1.counts_correct(),
        forall|q: (u8, u8)|
            f1.pos_in_bounds(q) ==> (#[trigger] f1.cell_p(q)).variant == f2.cell_p(q).variant,
    ensures
        f2.counts_correct(),
{
    assert forall|q: (u8, u8)|
        f2.pos_in_bounds(q) && !(#[trigger] f2.cell_p(q)).mined() implies f2.cell_p(
        q,
    ).mines_around() == Some(f2.mined_neighbours(q) as u8) by {
        assert(!f1.cell_p(q).mined());
        crate::populate::lemma_count_mined_at_agree(f1, f2, adjacent_seq(q));
        assert(f1.mined_neighbours(q) == f2.mined_neighbours(q));
    }
}

} // verus!
