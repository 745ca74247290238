//! Mine placement: random distribution of mines and the neighbour counts.

use vstd::prelude::*;

use rand::seq::SliceRandom;

use crate::cell::{Cell, CellVariant};
use crate::field::{
    lemma_count_flat_agree_pred, lemma_count_flat_change_one, lemma_count_flat_pos,
    lemma_flat_bounds, lemma_flat_of_pos, Field, FieldError,
};
use crate::flood::lemma_count_mined_at_le;

verus! {

#[verifier::external_type_specification]
#[verifier::external_body]
pub struct ExThreadRng(rand::rngs::ThreadRng);

/// Relies on rand::thread_rng: a handle to the thread-local random number
/// generator.
#[verifier::external_body]
fn fresh_rng() -> rand::rngs::ThreadRng {
    rand::thread_rng()
}

/// Relies on rand's SliceRandom::shuffle: it rearranges the slice in place
/// into a uniformly random permutation, so the elements afterwards are the
/// same collection in some order.
#[verifier::external_body]
fn shuffle_indices(v: &mut Vec<u16>, rng: &mut rand::rngs::ThreadRng)
    ensures
        final(v)@.to_multiset() == old(v)@.to_multiset(),
{
    v.shuffle(rng);
}

/// Two fields of the same dimensions that agree on which cells are mined
/// count the same number of mined cells over any list of positions.
pub proof fn lemma_count_mined_at_agree(f1: Field, f2: Field, s: Seq<(u8, u8)>)
    requires
        f1.rows() == f2.rows(),
        f1.cols() == f2.cols(),
        forall|q: (u8, u8)|
            f1.pos_in_bounds(q) ==> ((#[trigger] f1.cell_p(q)).mined() == f2.cell_p(q).mined()),
    ensures
        f1.count_mined_at(s) == f2.count_mined_at(s),
    decreases s.len(),
{
    if s.len() > 0 {
        lemma_count_mined_at_agree(f1, f2, s.drop_last());
    }
}

/// What a successful mine placement does to a field: the shape is kept, every
/// cell keeps its state and position, exactly the configured number of cells
/// ends up mined, the excepted position (when one is given) does not, and
/// every cell left empty counts its mined neighbours on top of whatever its
/// count was before.
pub open spec fn populate_ok_post(f0: Field, f1: Field, excepted: Option<(u8, u8)>) -> bool {
    &&& f1.same_shape(f0)
    &&& f1.mined_count() == f0.mines_amount as nat
    &&& (excepted matches Some(p) ==> !f1.cell_p(p).mined())
    &&& forall|q: (u8, u8)|
        f0.pos_in_bounds(q) ==> {
            let before = f0.cell_p(q);
            let after = (#[trigger] f1.cell_p(q));
            &&& after.position == before.position
            &&& after.state == before.state
            &&& (!after.mined() ==> match before.mines_around() {
                Some(m) => after.mines_around() == Some(
                    ((m as int + f1.mined_neighbours(q)) as u8),
                ),
                None => false,
            })
        }
}

impl Field {
    /// Whether the field already holds at least one mine.
    pub open spec fn has_mines(self) -> bool {
        exists|r: int, c: int| self.in_bounds(r, c) && (#[trigger] self.cell(r, c)).mined()
    }

    /// Gives every empty cell its count of mined neighbours, by adding that
    /// count to whatever the cell held before; mined cells, every cell's
    /// state and the field's shape stay as they were.
    pub fn update_mines_around_values(&mut self)
        requires
            old(self).wf(),
            forall|q: (u8, u8)|
                old(self).pos_in_bounds(q) ==> match (#[trigger] old(self).cell_p(
                    q,
                )).mines_around() {
                    Some(m) => m as int + old(self).mined_neighbours(q) <= 255,
                    None => true,
                },
        ensures
            final(self).wf(),
            final(self).same_shape(*old(self)),
            forall|q: (u8, u8)|
                old(self).pos_in_bounds(q) ==> {
                    let before = old(self).cell_p(q);
                    let after = (#[trigger] final(self).cell_p(q));
                    &&& after.position == before.position
                    &&& after.state == before.state
                    &&& after.mined() == before.mined()
                    &&& match before.mines_around() {
                        Some(m) => after.mines_around() == Some(
                            ((m as int + old(self).mined_neighbours(q)) as u8),
                        ),
                        None => after.variant == before.variant,
                    }
                },
    {
        let ghost f0 = *self;
        let (_, columns_amount, cells_amount) = self.get_size();
        let mut i: u16 = 0;
        while i < cells_amount
            invariant
                self.wf(),
                f0.wf(),
                self.same_shape(f0),
                columns_amount as int == self.cols(),
                cells_amount as int == self.total(),
                i <= cells_amount,
                forall|q: (u8, u8)|
                    f0.pos_in_bounds(q) ==> match (#[trigger] f0.cell_p(q)).mines_around() {
                        Some(m) => m as int + f0.mined_neighbours(q) <= 255,
                        None => true,
                    },
                forall|k: int|
                    0 <= k < self.total() ==> {
                        let before = f0.cell_flat(k);
                        let after = #[trigger] self.cell_flat(k);
                        if k < i as int {
                            &&& after.position == before.position
                            &&& after.state == before.state
                            &&& match before.mines_around() {
                                Some(m) => after.variant == CellVariant::Empty(
                                    ((m as int + f0.mined_neighbours(
                                        (before.position.0, before.position.1),
                                    )) as u8),
                                ),
                                None => after.variant == before.variant,
                            }
                        } else {
                            after == before
                        }
                    },
            decreases cells_amount - i,
        {
            proof {
                lemma_flat_bounds(i as int, self.rows(), self.cols());
            }
            let r = (i / columns_amount as u16) as u8;
            let c = (i % columns_amount as u16) as u8;
            let ghost here: (u8, u8) = (r, c);
            let cell = self.grid[r as usize][c as usize];
            proof {
                assert(r as int == i as int / self.cols());
                assert(c as int == i as int % self.cols());
                assert(self.cell_flat(i as int) == cell);
                assert(f0.cell_flat(i as int) == f0.cell_p(here));
                assert(self.cell_p(here) == cell);
                assert(cell.position == here);
                assert forall|q: (u8, u8)| self.pos_in_bounds(q) implies ((
                #[trigger] self.cell_p(q)).mined() == f0.cell_p(q).mined()) by {
                    lemma_flat_of_pos(q.0 as int, q.1 as int, f0.rows(), f0.cols());
                    assert(self.cell_flat(q.0 as int * f0.cols() + q.1 as int) == self.cell_p(q));
                    assert(f0.cell_flat(q.0 as int * f0.cols() + q.1 as int) == f0.cell_p(q));
                }
            }
            if let Some(m) = cell.get_mines_around_amount() {
                let adj = cell.get_adjacent_cells_positions();
                let mut mined_amount: u8 = 0;
                let mut k: usize = 0;
                while k < adj.len()
                    invariant
                        self.wf(),
                        k <= adj.len(),
                        adj@.len() <= 8,
                        mined_amount as nat == self.count_mined_at(adj@.subrange(0, k as int)),
                        mined_amount <= k,
                    decreases adj.len() - k,
                {
                    let q = adj[k];
                    let mined_here = {
                        let rr = q.0 as usize;
                        if rr < self.grid.len() && (q.1 as usize) < self.grid[rr].len() {
                            self.grid[rr][q.1 as usize].is_mined()
                        } else {
                            false
                        }
                    };
                    if mined_here {
                        mined_amount += 1;
                    }
                    proof {
                        assert(adj@.subrange(0, k as int + 1).drop_last() =~= adj@.subrange(
                            0,
                            k as int,
                        ));
                        assert(adj@.subrange(0, k as int + 1).last() == adj@[k as int]);
                    }
                    k += 1;
                }
                proof {
                    assert(adj@.subrange(0, adj@.len() as int) =~= adj@);
                    lemma_count_mined_at_agree(*self, f0, adj@);
                    assert(mined_amount as nat == f0.mined_neighbours(here));
                    assert(f0.cell_flat(i as int) == f0.cell_p(here));
                    assert(f0.cell_p(here).mines_around() == Some(m));
                }
                let ghost field_before = *self;
                let updated = Cell {
                    position: cell.position,
                    variant: CellVariant::Empty(m + mined_amount),
                    state: cell.state,
                };
                self.set_cell(r, c, updated);
                proof {
                    assert forall|k2: int| 0 <= k2 < self.total() implies {
                        let before = f0.cell_flat(k2);
                        let after = #[trigger] self.cell_flat(k2);
                        if k2 < i as int + 1 {
                            &&& after.position == before.position
                            &&& after.state == before.state
                            &&& match before.mines_around() {
                                Some(m2) => after.variant == CellVariant::Empty(
                                    ((m2 as int + f0.mined_neighbours(
                                        (before.position.0, before.position.1),
                                    )) as u8),
                                ),
                                None => after.variant == before.variant,
                            }
                        } else {
                            after == before
                        }
                    } by {
                        lemma_flat_bounds(k2, self.rows(), self.cols());
                        if k2 != i as int {
                            assert(self.cell_flat(k2) == field_before.cell_flat(k2));
                        }
                    }
                }
            }
            i += 1;
        }
        proof {
            assert forall|q: (u8, u8)| f0.pos_in_bounds(q) implies {
                let before = f0.cell_p(q);
                let after = (#[trigger] self.cell_p(q));
                &&& after.position == before.position
                &&& after.state == before.state
                &&& after.mined() == before.mined()
                &&& match before.mines_around() {
                    Some(m) => after.mines_around() == Some(
                        ((m as int + f0.mined_neighbours(q)) as u8),
                    ),
                    None => after.variant == before.variant,
                }
            } by {
                lemma_flat_of_pos(q.0 as int, q.1 as int, f0.rows(), f0.cols());
                assert(self.cell_flat(q.0 as int * f0.cols() + q.1 as int) == self.cell_p(q));
                assert(f0.cell_flat(q.0 as int * f0.cols() + q.1 as int) == f0.cell_p(q));
                assert(f0.cell_p(q).position == q);
            }
        }
    }

    /// Populates the field with randomly distributed mines, placing exactly
    /// the configured amount, never on the excepted position when one is
    /// given, and then gives every empty cell its count of mined neighbours.
    ///
    /// Fails with `InvalidExceptedCellPosition` when the excepted position
    /// lies outside the field, and with `MinesAlreadyExist` when the field
    /// already holds a mine; in either case the field stays as it was.
    pub fn populate_with_mines(&mut self, excepted_cell_position: Option<(u8, u8)>) -> (result:
        Result<(), FieldError>)
        requires
            old(self).wf(),
            forall|q: (u8, u8)|
                old(self).pos_in_bounds(q) ==> match (#[trigger] old(self).cell_p(
                    q,
                )).mines_around() {
                    Some(m) => m <= 247,
                    None => true,
                },
        ensures
            final(self).wf(),
            excepted_cell_position matches Some(p) ==> (!old(self).pos_in_bounds(p) ==> (result
                == Err::<(), FieldError>(FieldError::InvalidExceptedCellPosition(p)) && *final(self)
                == *old(self))),
            ({
                let ex_ok = match excepted_cell_position {
                    Some(p) => old(self).pos_in_bounds(p),
                    None => true,
                };
                &&& (ex_ok && old(self).has_mines() ==> (result == Err::<(), FieldError>(
                    FieldError::MinesAlreadyExist,
                ) && *final(self) == *old(self)))
                &&& (ex_ok && !old(self).has_mines() ==> (result == Ok::<(), FieldError>(())
                    && populate_ok_post(*old(self), *final(self), excepted_cell_position)))
            }),
    {
        let ghost f0 = *self;
        let (rows_amount, columns_amount, cells_amount) = self.get_size();

        if let Some((row_index, column_index)) = excepted_cell_position {
            if row_index > rows_amount - 1 || column_index > columns_amount - 1 {
                return Err(FieldError::InvalidExceptedCellPosition((row_index, column_index)));
            }
        }

        let mut i: u16 = 0;
        while i < cells_amount
            invariant
                self.wf(),
                *self == f0,
                columns_amount as int == self.cols(),
                cells_amount as int == self.total(),
                i <= cells_amount,
                match excepted_cell_position {
                    Some(p) => f0.pos_in_bounds(p),
                    None => true,
                },
                forall|k: int| 0 <= k < i as int ==> !(#[trigger] self.cell_flat(k)).mined(),
            decreases cells_amount - i,
        {
            proof {
                lemma_flat_bounds(i as int, self.rows(), self.cols());
            }
            let r = (i / columns_amount as u16) as u8;
            let c = (i % columns_amount as u16) as u8;
            if self.grid[r as usize][c as usize].is_mined() {
                proof {
                    assert(self.in_bounds(r as int, c as int) && self.cell(
                        r as int,
                        c as int,
                    ).mined());
                }
                return Err(FieldError::MinesAlreadyExist);
            }
            i += 1;
        }
        proof {
            assert forall|r: int, c: int| f0.in_bounds(r, c) implies !(#[trigger] f0.cell(
                r,
                c,
            )).mined() by {
                lemma_flat_of_pos(r, c, f0.rows(), f0.cols());
                assert(f0.cell_flat(r * f0.cols() + c) == f0.cell(r, c));
            }
            assert(!f0.has_mines());
        }

        let excepted_flat: Option<u16> = match excepted_cell_position {
            Some((row_index, column_index)) => {
                proof {
                    lemma_flat_of_pos(
                        row_index as int,
                        column_index as int,
                        self.rows(),
                        self.cols(),
                    );
                }
                Some(row_index as u16 * columns_amount as u16 + column_index as u16)
            },
            None => None,
        };

        let mut candidates: Vec<u16> = Vec::new();
        let mut j: u16 = 0;
        while j < cells_amount
            invariant
                j <= cells_amount,
                forall|a: int, b: int|
                    0 <= a < b < candidates@.len() ==> candidates@[a] < candidates@[b],
                forall|a: int| 0 <= a < candidates@.len() ==> (#[trigger] candidates@[a]) < j,
                match excepted_flat {
                    Some(e) => forall|a: int|
                        0 <= a < candidates@.len() ==> (#[trigger] candidates@[a]) != e,
                    None => true,
                },
                candidates@.len() == j as int - (match excepted_flat {
                    Some(e) => if e < j {
                        1int
                    } else {
                        0int
                    },
                    None => 0int,
                }),
            decreases cells_amount - j,
        {
            let skip = match excepted_flat {
                Some(e) => j == e,
                None => false,
            };
            if !skip {
                candidates.push(j);
            }
            j += 1;
        }
        proof {
            assert(candidates@.no_duplicates());
            match excepted_flat {
                Some(e) => {
                    assert(e < cells_amount);
                    assert(candidates@.len() == cells_amount as int - 1);
                },
                None => {
                    assert(candidates@.len() == cells_amount as int);
                },
            }
            assert(self.mines_amount as int <= candidates@.len());
        }

        let ghost pre_shuffle = candidates@;
        let mut rng = fresh_rng();
        shuffle_indices(&mut candidates, &mut rng);
        proof {
            let cs = candidates@;
            pre_shuffle.to_multiset_ensures();
            cs.to_multiset_ensures();
            assert(cs.len() == pre_shuffle.len());
            pre_shuffle.lemma_multiset_has_no_duplicates();
            assert(forall|x: u16|
                cs.to_multiset().contains(x) ==> #[trigger] cs.to_multiset().count(x) == 1);
            cs.lemma_multiset_has_no_duplicates_conv();
            assert forall|a: int| 0 <= a < cs.len() implies (#[trigger] cs[a]) < cells_amount && (
            match excepted_flat {
                Some(e) => cs[a] != e,
                None => true,
            }) by {
                assert(cs.contains(cs[a]));
                assert(cs.to_multiset().count(cs[a]) > 0);
                assert(pre_shuffle.to_multiset().count(cs[a]) > 0);
                assert(pre_shuffle.contains(cs[a]));
                let b = choose|b: int| 0 <= b < pre_shuffle.len() && pre_shuffle[b] == cs[a];
                assert(pre_shuffle[b] == cs[a]);
            }
        }

        let m = self.mines_amount;
        let ghost cs = candidates@;
        proof {
            lemma_count_flat_pos(*self, |cl: Cell| cl.mined(), self.total());
            assert(self.count_flat(|cl: Cell| cl.mined(), self.total()) == 0);
        }
        let mut k: u16 = 0;
        while k < m
            invariant
                self.wf(),
                f0.wf(),
                forall|jj: int| 0 <= jj < f0.total() ==> !(#[trigger] f0.cell_flat(jj)).mined(),
                self.same_shape(f0),
                columns_amount as int == self.cols(),
                cells_amount as int == self.total(),
                m == f0.mines_amount,
                k <= m,
                cs == candidates@,
                m as int <= cs.len(),
                cs.no_duplicates(),
                forall|a: int| 0 <= a < cs.len() ==> (#[trigger] cs[a]) < cells_amount,
                match excepted_flat {
                    Some(e) => forall|a: int| 0 <= a < cs.len() ==> (#[trigger] cs[a]) != e,
                    None => true,
                },
                forall|jj: int|
                    0 <= jj < self.total() ==> {
                        let before = f0.cell_flat(jj);
                        let after = #[trigger] self.cell_flat(jj);
                        if exists|a: int| 0 <= a < k as int && (#[trigger] cs[a]) as int == jj {
                            after == (Cell {
                                position: before.position,
                                variant: CellVariant::Mine,
                                state: before.state,
                            })
                        } else {
                            after == before
                        }
                    },
                self.count_flat(|cl: Cell| cl.mined(), self.total()) == k as nat,
            decreases m - k,
        {
            let fi = candidates[k as usize];
            proof {
                assert(cs[k as int] == fi);
                assert(fi < cells_amount);
                lemma_flat_bounds(fi as int, self.rows(), self.cols());
            }
            let r = (fi / columns_amount as u16) as u8;
            let c = (fi % columns_amount as u16) as u8;
            let ghost field_before = *self;
            let cell_now = self.grid[r as usize][c as usize];
            let mut updated = cell_now;
            updated.mine();
            self.set_cell(r, c, updated);
            proof {
                assert(r as int == fi as int / self.cols());
                assert(c as int == fi as int % self.cols());
                assert(!(exists|a: int| 0 <= a < k as int && (#[trigger] cs[a]) as int
                    == fi as int));
                assert(field_before.cell_flat(fi as int) == f0.cell_flat(fi as int));
                assert forall|jj: int| 0 <= jj < self.total() implies {
                    let before = f0.cell_flat(jj);
                    let after = #[trigger] self.cell_flat(jj);
                    if exists|a: int| 0 <= a < k as int + 1 && (#[trigger] cs[a]) as int == jj {
                        after == (Cell {
                            position: before.position,
                            variant: CellVariant::Mine,
                            state: before.state,
                        })
                    } else {
                        after == before
                    }
                } by {
                    lemma_flat_bounds(jj, self.rows(), self.cols());
                    if jj == fi as int {
                        assert(cs[k as int] as int == jj);
                    } else {
                        assert(self.cell_flat(jj) == field_before.cell_flat(jj));
                        assert((exists|a: int| 0 <= a < k as int + 1 && (#[trigger] cs[a]) as int
                            == jj) <==> (exists|a: int| 0 <= a < k as int && (#[trigger] cs[a]) as int
                            == jj));
                    }
                }
                lemma_count_flat_change_one(
                    field_before,
                    *self,
                    |cl: Cell| cl.mined(),
                    fi as int,
                    field_before.total(),
                );
            }
            k += 1;
        }

        let ghost f_mined = *self;
        proof {
            assert forall|q: (u8, u8)| self.pos_in_bounds(q) implies match (
            #[trigger] self.cell_p(q)).mines_around() {
                Some(m2) => m2 as int + self.mined_neighbours(q) <= 255,
                None => true,
            } by {
                lemma_flat_of_pos(q.0 as int, q.1 as int, f0.rows(), f0.cols());
                let jj = q.0 as int * f0.cols() + q.1 as int;
                assert(self.cell_flat(jj) == self.cell_p(q));
                assert(f0.cell_flat(jj) == f0.cell_p(q));
                lemma_count_mined_at_le(*self, crate::cell::adjacent_seq(q));
                crate::cell::lemma_adjacent_seq_correct(q);
            }
        }
        self.update_mines_around_values();
        proof {
            // which cells are mined has not changed in the final step
            assert forall|q: (u8, u8)| f0.pos_in_bounds(q) implies ((#[trigger] self.cell_p(
                q,
            )).mined() == f_mined.cell_p(q).mined()) by {}
            assert forall|i2: int|
                0 <= i2 < f_mined.total() implies ((|cl: Cell| cl.mined())(
                #[trigger] f_mined.cell_flat(i2)) == (|cl: Cell| cl.mined())(
                self.cell_flat(i2),
            )) by {
                lemma_flat_bounds(i2, f_mined.rows(), f_mined.cols());
                let q = ((i2 / f_mined.cols()) as u8, (i2 % f_mined.cols()) as u8);
                assert(f_mined.cell_p(q) == f_mined.cell_flat(i2));
                assert(self.cell_p(q) == self.cell_flat(i2));
                assert(f_mined.pos_in_bounds(q));
            }
            lemma_count_flat_agree_pred(f_mined, *self, |cl: Cell| cl.mined(), f_mined.total());
            assert(self.mined_count() == m as nat);
            match excepted_cell_position {
                Some(p) => {
                    lemma_flat_of_pos(p.0 as int, p.1 as int, f0.rows(), f0.cols());
                    let e = p.0 as int * f0.cols() + p.1 as int;
                    assert(f_mined.cell_flat(e) == f0.cell_flat(e));
                    assert(f_mined.cell_flat(e) == f_mined.cell_p(p));
                    assert(!self.cell_p(p).mined());
                },
                None => {},
            }
            assert forall|q: (u8, u8)| f0.pos_in_bounds(q) implies {
                let before = f0.cell_p(q);
                let after = (#[trigger] self.cell_p(q));
                &&& after.position == before.position
                &&& after.state == before.state
                &&& (!after.mined() ==> match before.mines_around() {
                    Some(m2) => after.mines_around() == Some(
                        ((m2 as int + self.mined_neighbours(q)) as u8),
                    ),
                    None => false,
                })
            } by {
                lemma_flat_of_pos(q.0 as int, q.1 as int, f0.rows(), f0.cols());
                let jj = q.0 as int * f0.cols() + q.1 as int;
                assert(f_mined.cell_flat(jj) == f_mined.cell_p(q));
                assert(f0.cell_flat(jj) == f0.cell_p(q));
                lemma_count_mined_at_agree(f_mined, *self, crate::cell::adjacent_seq(q));
            }
        }
        Ok(())
    }
}


/// LAW: mines are placed at most once. A field that carries its configured
/// number of mines holds at least one, so a further placement request meets
/// the mines-already-exist refusal.
pub proof fn lemma_repopulation_forbidden(f: Field)
    requires
        f.wf(),
        f.mined_count() == f.mines_amount as nat,
    ensures
        f.has_mines(),
{
    lemma_count_flat_pos(f, |c: Cell| c.mined(), f.total());
    let i = choose|i: int| 0 <= i < f.total() && (|c: Cell| c.mined())(#[trigger] f.cell_flat(i));
    lemma_flat_bounds(i, f.rows(), f.cols());
    assert(f.in_bounds(i / f.cols(), i % f.cols()) && f.cell(i / f.cols(), i % f.cols()).mined());
}

} // verus!
