//! The two-dimensional lattice: a rectangular grid whose cells are present or
//! absent, stored as the smaller of the present and absent coordinate sets.
//!
//! The representation is a flag `dense` plus a sorted vector of excluded
//! linear indices. When `dense` is false the vector lists the present cells;
//! when `dense` is true it lists the absent ones. Every edit rebalances so
//! that the stored set never exceeds half the grid.

use vstd::prelude::*;

use crate::counting::contains_val;
use crate::counting::count_members;
use crate::counting::lemma_count_members_sorted;
use crate::counting::strictly_sorted;
use crate::indexing::col_of_index;
use crate::indexing::lemma_coords_of_lin_index;
use crate::indexing::lemma_lin_index_bounds;
use crate::indexing::lemma_lin_index_of_coords;
use crate::indexing::lin_index;
use crate::indexing::row_of_index;
use crate::bits::BitVector;
use crate::bits::bits_of;
use crate::bits::vector_edit_count;

verus! {

/// A rectangular lattice graph over `columns * rows` cells, 4-connected by
/// default and 8-connected when the diagonal mode is on.
#[derive(Debug, Clone)]
pub struct Lattice2D {
    /// Columns of the grid.
    columns: usize,
    /// Rows of the grid.
    rows: usize,
    /// Rectilinear (false) vs octilinear (true) connectivity.
    diagonal_mode: bool,
    /// Whether `exclusions` lists the absent cells (true) or the present
    /// cells (false).
    dense: bool,
    /// The stored cell set, as sorted row-major linear indices.
    exclusions: Vec<usize>,
}

impl Lattice2D {
    /// Columns of the grid.
    pub closed spec fn columns_spec(&self) -> usize {
        self.columns
    }

    /// Rows of the grid.
    pub closed spec fn rows_spec(&self) -> usize {
        self.rows
    }

    /// The number of cells in the grid.
    pub open spec fn size_spec(&self) -> int {
        self.columns_spec() * self.rows_spec()
    }

    /// How many linear indices the structure currently stores.
    pub closed spec fn excl_count(&self) -> int {
        self.exclusions@.len() as int
    }

    /// Whether the grid is in the dense representation (exclusions list the
    /// absent cells).
    pub closed spec fn dense_spec(&self) -> bool {
        self.dense
    }

    /// Whether diagonal neighbours count as adjacent.
    pub closed spec fn diag_spec(&self) -> bool {
        self.diagonal_mode
    }

    /// The stored index vector is sorted, in range, and the grid size fits
    /// the machine word.
    pub closed spec fn basic_inv(&self) -> bool {
        &&& strictly_sorted(self.exclusions@)
        &&& forall|j: int|
            0 <= j < self.exclusions@.len() ==> (self.exclusions@[j] as int) < self.size_spec()
        &&& self.size_spec() <= usize::MAX
    }

    /// Well-formed: the basic invariant, and the stored set does not exceed
    /// half the grid. Every constructor establishes this and every mutating
    /// operation preserves it.
    pub closed spec fn wf(&self) -> bool {
        &&& self.basic_inv()
        &&& 2 * self.excl_count() <= self.size_spec()
    }

    /// Whether the cell `(c, r)` is present: inside the bounds, and stored
    /// membership differs from the dense flag.
    pub closed spec fn present(&self, c: int, r: int) -> bool {
        &&& 0 <= c < self.columns
        &&& 0 <= r < self.rows
        &&& (contains_val(self.exclusions@, lin_index(self.columns as int, c, r)) != self.dense)
    }

    /// Presence read through a linear index.
    pub open spec fn present_at_index(&self, idx: int) -> bool {
        self.present(
            col_of_index(self.columns_spec() as int, idx),
            row_of_index(self.columns_spec() as int, idx),
        )
    }

    /// How many cells with linear index below `n` are present.
    pub open spec fn present_count_upto(&self, n: int) -> int
        decreases n,
    {
        if n <= 0 {
            0
        } else {
            self.present_count_upto(n - 1) + if self.present_at_index(n - 1) {
                1int
            } else {
                0int
            }
        }
    }

    /// How many cells of the grid are present.
    pub open spec fn present_count(&self) -> int {
        self.present_count_upto(self.size_spec())
    }

    /// Bounds check only.
    pub open spec fn is_inside_spec(&self, vertex: (usize, usize)) -> bool {
        vertex.0 < self.columns_spec() && vertex.1 < self.rows_spec()
    }

    /// Whether two cells are grid-adjacent under the active connectivity
    /// mode: 4-neighbours always, diagonal neighbours when enabled.
    pub open spec fn adjacent_spec(&self, v1: (usize, usize), v2: (usize, usize)) -> bool {
        let dx = abs_diff_int(v1.0 as int, v2.0 as int);
        let dy = abs_diff_int(v1.1 as int, v2.1 as int);
        dx + dy == 1 || (dx == 1 && dy == 1 && self.diag_spec())
    }

    /// Whether the lattice has an edge between two cells: both present and
    /// grid-adjacent.
    pub open spec fn has_edge_spec(&self, v1: (usize, usize), v2: (usize, usize)) -> bool {
        &&& self.present(v1.0 as int, v1.1 as int)
        &&& self.present(v2.0 as int, v2.1 as int)
        &&& self.adjacent_spec(v1, v2)
    }
}

/// The absolute difference of two integers.
pub open spec fn abs_diff_int(a: int, b: int) -> int {
    if a >= b {
        a - b
    } else {
        b - a
    }
}

/// Whether `(c, r)` lies in the inclusive rectangle spanned by `from` and
/// `to`.
pub open spec fn in_area(from: (usize, usize), to: (usize, usize), c: int, r: int) -> bool {
    from.0 <= c <= to.0 && from.1 <= r <= to.1
}

/// Whether `(c, r)` lies in the edited region: the whole rectangle, or only
/// its boundary cells when `perim` is set.
pub open spec fn in_region(
    from: (usize, usize),
    to: (usize, usize),
    perim: bool,
    c: int,
    r: int,
) -> bool {
    in_area(from, to, c, r) && (!perim || c == from.0 || c == to.0 || r == from.1 || r == to.1)
}

/// How many cells with linear index below `n` lie in the region and differ
/// from the target presence `mp`: the number of stored entries a region edit
/// changes.
pub open spec fn edit_count(
    l: Lattice2D,
    from: (usize, usize),
    to: (usize, usize),
    perim: bool,
    mp: bool,
    n: int,
) -> int
    decreases n,
{
    if n <= 0 {
        0
    } else {
        edit_count(l, from, to, perim, mp, n - 1) + {
            let c = col_of_index(l.columns_spec() as int, n - 1);
            let r = row_of_index(l.columns_spec() as int, n - 1);
            if in_region(from, to, perim, c, r) && l.present(c, r) != mp {
                1int
            } else {
                0int
            }
        }
    }
}

/// Linear membership scan over the sorted index vector.
fn contains_idx(v: &Vec<usize>, x: usize) -> (r: bool)
    ensures
        r == contains_val(v@, x as int),
{
    let mut i: usize = 0;
    while i < v.len()
        invariant
            i <= v.len(),
            forall|j: int| 0 <= j < i ==> v@[j] != x,
        decreases v.len() - i,
    {
        if v[i] == x {
            assert(contains_val(v@, x as int)) by {
                assert(v@[i as int] == x);
            }
            return true;
        }
        i += 1;
    }
    false
}

impl Lattice2D {
    /// A lattice with the given extent and no present cells.
    pub fn new(columns: usize, rows: usize) -> (r: Self)
        requires
            columns * rows <= usize::MAX,
        ensures
            r.wf(),
            r.columns_spec() == columns,
            r.rows_spec() == rows,
            !r.diag_spec(),
            forall|c: int, row: int| !r.present(c, row),
    {
        Self { columns, rows, diagonal_mode: false, dense: false, exclusions: Vec::new() }
    }

    /// Builder that switches on octilinear connectivity.
    pub fn with_diagonal(self) -> (r: Self)
        ensures
            r.diag_spec(),
            r.columns_spec() == self.columns_spec(),
            r.rows_spec() == self.rows_spec(),
            r.wf() == self.wf(),
            forall|c: int, row: int| r.present(c, row) == self.present(c, row),
            r.present_count() == self.present_count(),
            r.excl_count() == self.excl_count(),
    {
        let r = Self { diagonal_mode: true, ..self };
        proof {
            lemma_present_count_agree(r, self, r.size_spec());
        }
        r
    }

    /// Flip the representation: every cell inside the bounds changes
    /// presence.
    pub fn invert(&mut self)
        ensures
            final (self).wf() == old(self).wf(),
            final (self).columns_spec() == old(self).columns_spec(),
            final (self).rows_spec() == old(self).rows_spec(),
            final (self).diag_spec() == old(self).diag_spec(),
            final (self).excl_count() == old(self).excl_count(),
            forall|c: int, r: int|
                final (self).present(c, r) == (0 <= c < old(self).columns_spec() && 0 <= r < old(
                    self,
                ).rows_spec() && !old(self).present(c, r)),
    {
        self.dense = !self.dense;
    }

    /// Switch on octilinear connectivity.
    pub fn enable_diagonal(&mut self)
        ensures
            final (self).diag_spec(),
            final (self).columns_spec() == old(self).columns_spec(),
            final (self).rows_spec() == old(self).rows_spec(),
            final (self).wf() == old(self).wf(),
            final (self).excl_count() == old(self).excl_count(),
            forall|c: int, r: int| final (self).present(c, r) == old(self).present(c, r),
    {
        self.diagonal_mode = true;
    }

    /// Switch back to rectilinear connectivity.
    pub fn disable_diagonal(&mut self)
        ensures
            !final (self).diag_spec(),
            final (self).columns_spec() == old(self).columns_spec(),
            final (self).rows_spec() == old(self).rows_spec(),
            final (self).wf() == old(self).wf(),
            final (self).excl_count() == old(self).excl_count(),
            forall|c: int, r: int| final (self).present(c, r) == old(self).present(c, r),
    {
        self.diagonal_mode = false;
    }

    /// The number of cells in the grid.
    #[must_use]
    pub fn size(&self) -> (r: usize)
        requires
            self.wf(),
        ensures
            r as int == self.size_spec(),
    {
        self.columns * self.rows
    }

    /// How many indices the structure currently stores; never more than half
    /// the grid for a well-formed lattice.
    pub fn stored_exclusions(&self) -> (r: usize)
        ensures
            r as int == self.excl_count(),
    {
        self.exclusions.len()
    }

    /// Columns of the grid.
    pub fn columns(&self) -> (r: usize)
        ensures
            r == self.columns_spec(),
    {
        self.columns
    }

    /// Rows of the grid.
    pub fn rows(&self) -> (r: usize)
        ensures
            r == self.rows_spec(),
    {
        self.rows
    }

    /// Bounds check only.
    #[must_use]
    pub fn is_inside(&self, vertex: (usize, usize)) -> (r: bool)
        ensures
            r == self.is_inside_spec(vertex),
    {
        vertex.0 < self.columns && vertex.1 < self.rows
    }

    /// Whether the cell is present: inside the bounds, with stored
    /// membership differing from the dense flag.
    #[must_use]
    pub fn has_vertex(&self, vertex: (usize, usize)) -> (r: bool)
        requires
            self.wf(),
        ensures
            r == self.present(vertex.0 as int, vertex.1 as int),
    {
        if !self.is_inside(vertex) {
            return false;
        }
        proof {
            lemma_lin_index_bounds(
                self.columns as int,
                self.rows as int,
                vertex.0 as int,
                vertex.1 as int,
            );
        }
        let idx = vertex.0 + vertex.1 * self.columns;
        let stored = contains_idx(&self.exclusions, idx);
        if self.dense {
            !stored
        } else {
            stored
        }
    }

    /// Whether both cells are present and grid-adjacent under the active
    /// connectivity mode.
    #[must_use]
    pub fn has_edge(&self, v1: (usize, usize), v2: (usize, usize)) -> (r: bool)
        requires
            self.wf(),
        ensures
            r == self.has_edge_spec(v1, v2),
    {
        if !self.has_vertex(v1) || !self.has_vertex(v2) {
            return false;
        }
        let x = if v1.0 >= v2.0 {
            v1.0 - v2.0
        } else {
            v2.0 - v1.0
        };
        let y = if v1.1 >= v2.1 {
            v1.1 - v2.1
        } else {
            v2.1 - v1.1
        };
        (x == 1 && y == 0) || (x == 0 && y == 1) || (x == 1 && y == 1 && self.diagonal_mode)
    }

    /// The row-major linear index of an in-bounds cell.
    #[must_use]
    pub fn to_vertex_index(&self, column: usize, row: usize) -> (r: usize)
        requires
            self.wf(),
            column < self.columns_spec(),
            row < self.rows_spec(),
        ensures
            r as int == lin_index(self.columns_spec() as int, column as int, row as int),
            (r as int) < self.size_spec(),
    {
        proof {
            lemma_lin_index_bounds(
                self.columns as int,
                self.rows as int,
                column as int,
                row as int,
            );
        }
        column + row * self.columns
    }

    /// The cell encoded by a row-major linear index.
    #[must_use]
    pub fn to_vertex_coords(&self, index: usize) -> (r: (usize, usize))
        requires
            self.columns_spec() > 0,
        ensures
            r.0 as int == col_of_index(self.columns_spec() as int, index as int),
            r.1 as int == row_of_index(self.columns_spec() as int, index as int),
            (index as int) < self.size_spec() ==> r.0 < self.columns_spec() && r.1
                < self.rows_spec() && lin_index(
                self.columns_spec() as int,
                r.0 as int,
                r.1 as int,
            ) == index as int,
    {
        proof {
            if (index as int) < self.size_spec() {
                lemma_lin_index_of_coords(self.columns as int, self.rows as int, index as int);
            }
        }
        let col = index % self.columns;
        let row = index / self.columns;
        (col, row)
    }
}

impl Lattice2D {
    /// The stored index sequence.
    spec fn excl_seq(&self) -> Seq<usize> {
        self.exclusions@
    }
}

/// The membership the stored vector must have after editing a region: cells
/// in the region get the membership encoding presence `mp`, the rest keep
/// their old membership.
spec fn region_mem(
    l: Lattice2D,
    from: (usize, usize),
    to: (usize, usize),
    perim: bool,
    mp: bool,
    i: int,
) -> bool {
    let c = col_of_index(l.columns_spec() as int, i);
    let r = row_of_index(l.columns_spec() as int, i);
    if in_region(from, to, perim, c, r) {
        mp != l.dense_spec()
    } else {
        contains_val(l.excl_seq(), i)
    }
}

impl Lattice2D {
    /// Restore the representation bound: if the stored set exceeds half the
    /// grid, replace it by its complement and flip the dense flag. Presence
    /// of every cell is unchanged.
    fn rebalance_excl(&mut self)
        requires
            old(self).basic_inv(),
        ensures
            final (self).wf(),
            final (self).columns_spec() == old(self).columns_spec(),
            final (self).rows_spec() == old(self).rows_spec(),
            final (self).diag_spec() == old(self).diag_spec(),
            forall|c: int, r: int| final (self).present(c, r) == old(self).present(c, r),
    {
        let size = self.columns * self.rows;
        let len = self.exclusions.len();
        if len > size / 2 {
            let mut comp: Vec<usize> = Vec::new();
            let mut j: usize = 0;
            let mut idx: usize = 0;
            while idx < size
                invariant
                    *self == *old(self),
                    old(self).basic_inv(),
                    size as int == self.size_spec(),
                    len == self.exclusions@.len(),
                    j <= len,
                    idx <= size,
                    j + comp@.len() == idx,
                    forall|t: int| 0 <= t < j ==> (self.exclusions@[t] as int) < idx,
                    j < len ==> (self.exclusions@[j as int] as int) >= idx,
                    strictly_sorted(comp@),
                    forall|t: int| 0 <= t < comp@.len() ==> (comp@[t] as int) < idx,
                    forall|i: int|
                        0 <= i < idx ==> contains_val(comp@, i) == !contains_val(
                            self.exclusions@,
                            i,
                        ),
                decreases size - idx,
            {
                let ghost comp0 = comp@;
                let matched = j < len && self.exclusions[j] == idx;
                if matched {
                    j += 1;
                } else {
                    comp.push(idx);
                }
                proof {
                    assert(contains_val(self.exclusions@, idx as int) == matched) by {
                        if matched {
                            assert(self.exclusions@[j - 1] == idx);
                        } else if contains_val(self.exclusions@, idx as int) {
                            let t = choose|t: int|
                                0 <= t < len && self.exclusions@[t] == idx as usize;
                            if t < j {
                                assert((self.exclusions@[t] as int) < idx);
                            } else {
                                if j < len && t > j {
                                    assert(self.exclusions@[j as int] < self.exclusions@[t]);
                                }
                            }
                        }
                    }
                    if j < len {
                        assert((self.exclusions@[j as int] as int) >= idx + 1) by {
                            if matched {
                                assert(self.exclusions@[j - 1] < self.exclusions@[j as int]);
                            }
                        }
                    }
                    assert forall|i: int| 0 <= i < idx + 1 implies contains_val(comp@, i)
                        == !contains_val(self.exclusions@, i) by {
                        if matched {
                            assert(comp@ == comp0);
                        } else {
                            assert(comp@ == comp0.push(idx));
                            assert(comp@[comp0.len() as int] == idx);
                            if i < idx {
                                assert(contains_val(comp@, i) == contains_val(comp0, i)) by {
                                    if contains_val(comp0, i) {
                                        let t = choose|t: int|
                                            0 <= t < comp0.len() && comp0[t] == i;
                                        assert(comp@[t] == i);
                                    }
                                    if contains_val(comp@, i) {
                                        let t = choose|t: int|
                                            0 <= t < comp@.len() && comp@[t] == i;
                                        assert(t < comp0.len() && comp0[t] == i) by {
                                            if t == comp0.len() {
                                                assert(comp@[t] == idx);
                                            }
                                        }
                                    }
                                }
                            }
                        }
                    }
                }
                idx += 1;
            }
            proof {
                assert(j == len) by {
                    if j < len {
                        assert((self.exclusions@[j as int] as int) < self.size_spec());
                    }
                }
                assert(2 * (comp@.len() as int) <= size as int);
            }
            let ghost prev = *self;
            self.exclusions = comp;
            self.dense = !self.dense;
            proof {
                assert forall|c: int, r: int| final (self).present(c, r) == old(self).present(
                    c,
                    r,
                ) by {
                    if 0 <= c < self.columns_spec() && 0 <= r < self.rows_spec() {
                        lemma_lin_index_bounds(
                            self.columns_spec() as int,
                            self.rows_spec() as int,
                            c,
                            r,
                        );
                    }
                }
            }
        } else {
            assert(2 * (self.exclusions@.len() as int) <= size as int);
        }
    }

    /// Set every cell of the region to presence `mp`, rebalancing at the
    /// end; returns how many stored entries changed.
    fn apply_region(&mut self, from: (usize, usize), to: (usize, usize), perim: bool, mp: bool)
        -> (count: usize)
        requires
            old(self).wf(),
        ensures
            final (self).wf(),
            final (self).columns_spec() == old(self).columns_spec(),
            final (self).rows_spec() == old(self).rows_spec(),
            final (self).diag_spec() == old(self).diag_spec(),
            count as int == edit_count(*old(self), from, to, perim, mp, old(self).size_spec()),
            forall|c: int, r: int|
                final (self).present(c, r) == (if in_region(from, to, perim, c, r) && 0 <= c
                    < old(self).columns_spec() && 0 <= r < old(self).rows_spec() {
                    mp
                } else {
                    old(self).present(c, r)
                }),
    {
        let size = self.columns * self.rows;
        let target_mem = mp != self.dense;
        let mut new_excl: Vec<usize> = Vec::new();
        let mut count: usize = 0;
        let mut idx: usize = 0;
        while idx < size
            invariant
                *self == *old(self),
                old(self).wf(),
                size as int == self.size_spec(),
                target_mem == (mp != self.dense_spec()),
                idx <= size,
                count <= idx,
                count as int == edit_count(*old(self), from, to, perim, mp, idx as int),
                strictly_sorted(new_excl@),
                forall|t: int| 0 <= t < new_excl@.len() ==> (new_excl@[t] as int) < idx,
                forall|i: int|
                    0 <= i < idx ==> contains_val(new_excl@, i) == region_mem(
                        *old(self),
                        from,
                        to,
                        perim,
                        mp,
                        i,
                    ),
            decreases size - idx,
        {
            let ghost prev_excl = new_excl@;
            proof {
                assert(self.columns > 0) by (nonlinear_arith)
                    requires (self.columns * self.rows) as int > idx as int >= 0;
            }
            let c = idx % self.columns;
            let r = idx / self.columns;
            proof {
                lemma_lin_index_of_coords(
                    self.columns_spec() as int,
                    self.rows_spec() as int,
                    idx as int,
                );
            }
            let inreg = from.0 <= c && c <= to.0 && from.1 <= r && r <= to.1 && (!perim || c
                == from.0 || c == to.0 || r == from.1 || r == to.1);
            let old_m = contains_idx(&self.exclusions, idx);
            let new_m = if inreg {
                target_mem
            } else {
                old_m
            };
            if inreg && old_m != target_mem {
                count += 1;
            }
            if new_m {
                new_excl.push(idx);
            }
            proof {
                assert(inreg == in_region(
                    from,
                    to,
                    perim,
                    col_of_index(self.columns_spec() as int, idx as int),
                    row_of_index(self.columns_spec() as int, idx as int),
                ));
                if new_m {
                    assert(new_excl@ == prev_excl.push(idx));
                    assert(new_excl@[prev_excl.len() as int] == idx);
                } else {
                    assert(!contains_val(new_excl@, idx as int));
                }
                assert forall|i: int| 0 <= i < idx + 1 implies contains_val(new_excl@, i)
                    == region_mem(*old(self), from, to, perim, mp, i) by {
                    if i == idx {
                    } else {
                        assert(contains_val(new_excl@, i) == contains_val(prev_excl, i)) by {
                            if contains_val(prev_excl, i) {
                                let t = choose|t: int|
                                    0 <= t < prev_excl.len() && prev_excl[t] == i;
                                assert(new_excl@[t] == i);
                            }
                            if contains_val(new_excl@, i) {
                                let t = choose|t: int|
                                    0 <= t < new_excl@.len() && new_excl@[t] == i;
                                assert(t < prev_excl.len() && prev_excl[t] == i) by {
                                    if t == prev_excl.len() {
                                        assert(new_excl@[t] == idx);
                                    }
                                }
                            }
                        }
                    }
                }
            }
            idx += 1;
        }
        let ghost mid_old = *old(self);
        self.exclusions = new_excl;
        proof {
            assert(self.basic_inv());
            assert forall|c: int, r: int| self.present(c, r) == (if in_region(
                from,
                to,
                perim,
                c,
                r,
            ) && 0 <= c < mid_old.columns_spec() && 0 <= r < mid_old.rows_spec() {
                mp
            } else {
                mid_old.present(c, r)
            }) by {
                if 0 <= c < self.columns_spec() && 0 <= r < self.rows_spec() {
                    lemma_lin_index_bounds(
                        self.columns_spec() as int,
                        self.rows_spec() as int,
                        c,
                        r,
                    );
                    lemma_coords_of_lin_index(
                        self.columns_spec() as int,
                        self.rows_spec() as int,
                        c,
                        r,
                    );
                }
            }
        }
        self.rebalance_excl();
        count
    }
}

/// The running present-cell count agrees with the stored vector: members for
/// a sparse lattice, non-members for a dense one.
proof fn lemma_pc_upto(l: Lattice2D, n: int)
    requires
        l.basic_inv(),
        0 <= n <= l.size_spec(),
    ensures
        l.present_count_upto(n) == if l.dense_spec() {
            n - count_members(l.excl_seq(), n)
        } else {
            count_members(l.excl_seq(), n)
        },
    decreases n,
{
    if n > 0 {
        lemma_pc_upto(l, n - 1);
        assert(l.columns_spec() > 0) by (nonlinear_arith)
            requires (l.columns_spec() * l.rows_spec()) as int >= n >= 1;
        lemma_lin_index_of_coords(l.columns_spec() as int, l.rows_spec() as int, n - 1);
    }
}

/// The number of present cells, expressed through the stored vector length.
pub proof fn lemma_present_count_form(l: Lattice2D)
    requires
        l.wf(),
    ensures
        l.present_count() == if l.dense_spec() {
            l.size_spec() - l.excl_count()
        } else {
            l.excl_count()
        },
{
    lemma_pc_upto(l, l.size_spec());
    lemma_count_members_sorted(l.excl_seq(), l.size_spec());
}

/// After any sequence of edits the stored exclusion set never exceeds half
/// the grid: rebalancing keeps the representation no larger than the smaller
/// of the present and absent sets.
pub proof fn lemma_rebalance_bound(l: Lattice2D)
    requires
        l.wf(),
    ensures
        2 * l.excl_count() <= l.size_spec(),
{
}

impl Lattice2D {
    /// The present cells in canonical order: ascending row-major linear
    /// index. This is the iteration order lattice equality is defined over.
    pub fn vertices(&self) -> (r: Vec<(usize, usize)>)
        requires
            self.wf(),
        ensures
            forall|u: (usize, usize)| r@.contains(u) == self.present(u.0 as int, u.1 as int),
            forall|i: int, j: int|
                0 <= i < j < r@.len() ==> lin_index(
                    self.columns_spec() as int,
                    r@[i].0 as int,
                    r@[i].1 as int,
                ) < lin_index(self.columns_spec() as int, r@[j].0 as int, r@[j].1 as int),
            r@.len() == self.present_count(),
    {
        let size = self.columns * self.rows;
        let mut out: Vec<(usize, usize)> = Vec::new();
        let mut idx: usize = 0;
        while idx < size
            invariant
                self.wf(),
                size as int == self.size_spec(),
                idx <= size,
                out@.len() == self.present_count_upto(idx as int),
                forall|t: int|
                    0 <= t < out@.len() ==> out@[t].0 < self.columns_spec() && out@[t].1
                        < self.rows_spec(),
                forall|i: int, j: int|
                    0 <= i < j < out@.len() ==> lin_index(
                        self.columns_spec() as int,
                        out@[i].0 as int,
                        out@[i].1 as int,
                    ) < lin_index(self.columns_spec() as int, out@[j].0 as int, out@[j].1 as int),
                forall|t: int|
                    0 <= t < out@.len() ==> lin_index(
                        self.columns_spec() as int,
                        out@[t].0 as int,
                        out@[t].1 as int,
                    ) < idx,
                forall|u: (usize, usize)|
                    out@.contains(u) == (self.present(u.0 as int, u.1 as int) && lin_index(
                        self.columns_spec() as int,
                        u.0 as int,
                        u.1 as int,
                    ) < idx),
            decreases size - idx,
        {
            let ghost prev = out@;
            proof {
                assert(self.columns_spec() > 0) by (nonlinear_arith)
                    requires (self.columns_spec() * self.rows_spec()) as int > idx as int >= 0;
                lemma_lin_index_of_coords(
                    self.columns_spec() as int,
                    self.rows_spec() as int,
                    idx as int,
                );
            }
            let v = self.to_vertex_coords(idx);
            let here = self.has_vertex(v);
            if here {
                out.push(v);
            }
            proof {
                if here {
                    assert(out@ == prev.push(v));
                    assert(out@[prev.len() as int] == v);
                }
                assert forall|u: (usize, usize)| out@.contains(u) == (self.present(
                    u.0 as int,
                    u.1 as int,
                ) && lin_index(self.columns_spec() as int, u.0 as int, u.1 as int) < idx
                    + 1) by {
                    let lu = lin_index(self.columns_spec() as int, u.0 as int, u.1 as int);
                    assert(out@.contains(u) == (prev.contains(u) || (here && u == v))) by {
                        if prev.contains(u) {
                            let t = choose|t: int| 0 <= t < prev.len() && prev[t] == u;
                            assert(out@[t] == u);
                        }
                        if out@.contains(u) && !(here && u == v) {
                            let t = choose|t: int| 0 <= t < out@.len() && out@[t] == u;
                            assert(t < prev.len() && prev[t] == u) by {
                                if here && t == prev.len() {
                                    assert(out@[t] == v);
                                }
                            }
                        }
                    }
                    if u == v && self.present(u.0 as int, u.1 as int) {
                        assert(lu == idx as int);
                    }
                    if self.present(u.0 as int, u.1 as int) && lu == idx as int {
                        // the only cell with this index is the decoded one
                        lemma_lin_index_bounds(
                            self.columns_spec() as int,
                            self.rows_spec() as int,
                            u.0 as int,
                            u.1 as int,
                        );
                        lemma_coords_of_lin_index(
                            self.columns_spec() as int,
                            self.rows_spec() as int,
                            u.0 as int,
                            u.1 as int,
                        );
                        assert(u == v);
                    }
                }
            }
            idx += 1;
        }
        proof {
            assert forall|u: (usize, usize)| out@.contains(u) == self.present(
                u.0 as int,
                u.1 as int,
            ) by {
                if self.present(u.0 as int, u.1 as int) {
                    lemma_lin_index_bounds(
                        self.columns_spec() as int,
                        self.rows_spec() as int,
                        u.0 as int,
                        u.1 as int,
                    );
                }
            }
        }
        out
    }
}

/// Strict column-major order on coordinate pairs.
pub open spec fn col_major_lt(a: (usize, usize), b: (usize, usize)) -> bool {
    a.0 < b.0 || (a.0 == b.0 && a.1 < b.1)
}

impl Lattice2D {
    /// The cells of the inclusive rectangle spanned by the two corners, in
    /// column-major order; empty when a corner is inverted.
    pub fn area(&self, from_vertex: (usize, usize), to_vertex: (usize, usize)) -> (r: Vec<
        (usize, usize),
    >)
        ensures
            forall|u: (usize, usize)|
                r@.contains(u) == in_area(from_vertex, to_vertex, u.0 as int, u.1 as int),
            forall|i: int, j: int| 0 <= i < j < r@.len() ==> col_major_lt(r@[i], r@[j]),
    {
        let mut out: Vec<(usize, usize)> = Vec::new();
        if from_vertex.0 > to_vertex.0 || from_vertex.1 > to_vertex.1 {
            return out;
        }
        let mut c = from_vertex.0;
        loop
            invariant_except_break
                forall|i: int| 0 <= i < out@.len() ==> (out@[i].0 as int) < c,
                forall|u: (usize, usize)|
                    out@.contains(u) == (in_area(from_vertex, to_vertex, u.0 as int, u.1 as int)
                        && (u.0 as int) < c),
            invariant
                from_vertex.0 <= c <= to_vertex.0,
                from_vertex.1 <= to_vertex.1,
                forall|i: int, j: int| 0 <= i < j < out@.len() ==> col_major_lt(out@[i], out@[j]),
            ensures
                forall|u: (usize, usize)|
                    out@.contains(u) == in_area(from_vertex, to_vertex, u.0 as int, u.1 as int),
                forall|i: int, j: int| 0 <= i < j < out@.len() ==> col_major_lt(out@[i], out@[j]),
            decreases to_vertex.0 - c,
        {
            let mut rr = from_vertex.1;
            loop
                invariant_except_break
                    forall|i: int|
                        0 <= i < out@.len() ==> (out@[i].0 as int) < c || (out@[i].0 == c
                            && (out@[i].1 as int) < rr),
                    forall|u: (usize, usize)|
                        out@.contains(u) == (in_area(
                            from_vertex,
                            to_vertex,
                            u.0 as int,
                            u.1 as int,
                        ) && ((u.0 as int) < c || (u.0 == c && (u.1 as int) < rr))),
                invariant
                    from_vertex.0 <= c <= to_vertex.0,
                    from_vertex.1 <= rr <= to_vertex.1,
                    forall|i: int, j: int|
                        0 <= i < j < out@.len() ==> col_major_lt(out@[i], out@[j]),
                ensures
                    from_vertex.0 <= c <= to_vertex.0,
                    forall|i: int, j: int|
                        0 <= i < j < out@.len() ==> col_major_lt(out@[i], out@[j]),
                    forall|i: int|
                        0 <= i < out@.len() ==> (out@[i].0 as int) < c || out@[i].0 == c,
                    forall|u: (usize, usize)|
                        out@.contains(u) == (in_area(
                            from_vertex,
                            to_vertex,
                            u.0 as int,
                            u.1 as int,
                        ) && (u.0 as int) <= c),
                decreases to_vertex.1 - rr,
            {
                let ghost prev = out@;
                out.push((c, rr));
                proof {
                    assert(out@[prev.len() as int] == ((c, rr)));
                    assert forall|u: (usize, usize)| out@.contains(u) == (prev.contains(u) || u
                        == ((c, rr))) by {
                        if prev.contains(u) {
                            let t = choose|t: int| 0 <= t < prev.len() && prev[t] == u;
                            assert(out@[t] == u);
                        }
                        if out@.contains(u) && u != ((c, rr)) {
                            let t = choose|t: int| 0 <= t < out@.len() && out@[t] == u;
                            assert(t < prev.len() && prev[t] == u) by {
                                if t == prev.len() {
                                    assert(out@[t] == ((c, rr)));
                                }
                            }
                        }
                    }
                    assert forall|u: (usize, usize)| out@.contains(u) == (in_area(
                        from_vertex,
                        to_vertex,
                        u.0 as int,
                        u.1 as int,
                    ) && ((u.0 as int) < c || (u.0 == c && (u.1 as int) <= rr))) by {
                        assert(out@.contains(u) == (prev.contains(u) || u == ((c, rr))));
                        if u == ((c, rr)) {
                            assert(in_area(from_vertex, to_vertex, c as int, rr as int));
                        }
                    }
                }
                if rr == to_vertex.1 {
                    break ;
                }
                rr += 1;
            }
            if c == to_vertex.0 {
                break ;
            }
            c += 1;
        }
        out
    }

    /// The boundary cells of the inclusive rectangle spanned by the two
    /// corners, in column-major order: the top and bottom rows, and the left
    /// and right columns strictly between them. Empty when a corner is
    /// inverted.
    pub fn perimeter(&self, from_vertex: (usize, usize), to_vertex: (usize, usize)) -> (r: Vec<
        (usize, usize),
    >)
        ensures
            forall|u: (usize, usize)|
                r@.contains(u) == in_region(from_vertex, to_vertex, true, u.0 as int, u.1 as int),
            forall|i: int, j: int| 0 <= i < j < r@.len() ==> col_major_lt(r@[i], r@[j]),
    {
        let mut out: Vec<(usize, usize)> = Vec::new();
        if from_vertex.0 > to_vertex.0 || from_vertex.1 > to_vertex.1 {
            return out;
        }
        let mut c = from_vertex.0;
        loop
            invariant_except_break
                forall|i: int| 0 <= i < out@.len() ==> (out@[i].0 as int) < c,
                forall|u: (usize, usize)|
                    out@.contains(u) == (in_region(
                        from_vertex,
                        to_vertex,
                        true,
                        u.0 as int,
                        u.1 as int,
                    ) && (u.0 as int) < c),
            invariant
                from_vertex.0 <= c <= to_vertex.0,
                from_vertex.1 <= to_vertex.1,
                forall|i: int, j: int| 0 <= i < j < out@.len() ==> col_major_lt(out@[i], out@[j]),
            ensures
                forall|u: (usize, usize)|
                    out@.contains(u) == in_region(
                        from_vertex,
                        to_vertex,
                        true,
                        u.0 as int,
                        u.1 as int,
                    ),
                forall|i: int, j: int| 0 <= i < j < out@.len() ==> col_major_lt(out@[i], out@[j]),
            decreases to_vertex.0 - c,
        {
            let edge_column = c == from_vertex.0 || c == to_vertex.0;
            let mut rr = from_vertex.1;
            loop
                invariant_except_break
                    forall|i: int|
                        0 <= i < out@.len() ==> (out@[i].0 as int) < c || (out@[i].0 == c
                            && (out@[i].1 as int) < rr),
                    forall|u: (usize, usize)|
                        out@.contains(u) == (in_region(
                            from_vertex,
                            to_vertex,
                            true,
                            u.0 as int,
                            u.1 as int,
                        ) && ((u.0 as int) < c || (u.0 == c && (u.1 as int) < rr))),
                invariant
                    from_vertex.0 <= c <= to_vertex.0,
                    from_vertex.1 <= rr <= to_vertex.1,
                    edge_column == (c == from_vertex.0 || c == to_vertex.0),
                    forall|i: int, j: int|
                        0 <= i < j < out@.len() ==> col_major_lt(out@[i], out@[j]),
                ensures
                    from_vertex.0 <= c <= to_vertex.0,
                    forall|i: int, j: int|
                        0 <= i < j < out@.len() ==> col_major_lt(out@[i], out@[j]),
                    forall|i: int|
                        0 <= i < out@.len() ==> (out@[i].0 as int) < c || out@[i].0 == c,
                    forall|u: (usize, usize)|
                        out@.contains(u) == (in_region(
                            from_vertex,
                            to_vertex,
                            true,
                            u.0 as int,
                            u.1 as int,
                        ) && (u.0 as int) <= c),
                decreases to_vertex.1 - rr,
            {
                let on_boundary = edge_column || rr == from_vertex.1 || rr == to_vertex.1;
                let ghost prev = out@;
                if on_boundary {
                    out.push((c, rr));
                }
                proof {
                    if on_boundary {
                        assert(out@[prev.len() as int] == ((c, rr)));
                    }
                    assert forall|u: (usize, usize)| out@.contains(u) == (prev.contains(u) || (
                    on_boundary && u == ((c, rr)))) by {
                        if prev.contains(u) {
                            let t = choose|t: int| 0 <= t < prev.len() && prev[t] == u;
                            assert(out@[t] == u);
                        }
                        if out@.contains(u) && !(on_boundary && u == ((c, rr))) {
                            let t = choose|t: int| 0 <= t < out@.len() && out@[t] == u;
                            assert(t < prev.len() && prev[t] == u) by {
                                if on_boundary && t == prev.len() {
                                    assert(out@[t] == ((c, rr)));
                                }
                            }
                        }
                    }
                    assert(on_boundary == in_region(
                        from_vertex,
                        to_vertex,
                        true,
                        c as int,
                        rr as int,
                    ));
                    assert forall|u: (usize, usize)| out@.contains(u) == (in_region(
                        from_vertex,
                        to_vertex,
                        true,
                        u.0 as int,
                        u.1 as int,
                    ) && ((u.0 as int) < c || (u.0 == c && (u.1 as int) <= rr))) by {
                        assert(out@.contains(u) == (prev.contains(u) || (on_boundary && u == ((
                        c,
                        rr,
                        )))));
                    }
                }
                if rr == to_vertex.1 {
                    break ;
                }
                rr += 1;
            }
            if c == to_vertex.0 {
                break ;
            }
            c += 1;
        }
        out
    }
}

/// The row-major index and coordinate mappings are exact inverses over the
/// valid domain: an in-bounds cell's index decodes back to the cell, and a
/// valid index re-encodes from its decoded cell.
pub proof fn lemma_vertex_index_bijection(l: Lattice2D, col: usize, row: usize, index: usize)
    requires
        l.wf(),
    ensures
        col < l.columns_spec() && row < l.rows_spec() ==> {
            let i = lin_index(l.columns_spec() as int, col as int, row as int);
            &&& 0 <= i < l.size_spec()
            &&& col_of_index(l.columns_spec() as int, i) == col
            &&& row_of_index(l.columns_spec() as int, i) == row
        },
        l.columns_spec() >= 1 && (index as int) < l.size_spec() ==> {
            let c = col_of_index(l.columns_spec() as int, index as int);
            let r = row_of_index(l.columns_spec() as int, index as int);
            &&& 0 <= c < l.columns_spec()
            &&& 0 <= r < l.rows_spec()
            &&& lin_index(l.columns_spec() as int, c, r) == index as int
        },
{
    if col < l.columns_spec() && row < l.rows_spec() {
        lemma_lin_index_bounds(l.columns_spec() as int, l.rows_spec() as int, col as int, row as int);
        lemma_coords_of_lin_index(
            l.columns_spec() as int,
            l.rows_spec() as int,
            col as int,
            row as int,
        );
    }
    if l.columns_spec() >= 1 && (index as int) < l.size_spec() {
        lemma_lin_index_of_coords(l.columns_spec() as int, l.rows_spec() as int, index as int);
    }
}

/// A present cell always lies inside the bounds: out-of-bounds cells are
/// absent, whatever the representation holds.
pub proof fn lemma_present_in_bounds(l: Lattice2D, c: int, r: int)
    ensures
        l.present(c, r) ==> 0 <= c < l.columns_spec() && 0 <= r < l.rows_spec(),
{
}

/// A well-formed lattice's cell count fits the machine word.
pub proof fn lemma_size_fits(l: Lattice2D)
    requires
        l.wf(),
    ensures
        l.size_spec() <= usize::MAX,
{
}

/// Grid adjacency is symmetric, so `has_edge` is symmetric in its two
/// arguments.
pub proof fn lemma_has_edge_symmetric(l: Lattice2D, v1: (usize, usize), v2: (usize, usize))
    ensures
        l.has_edge_spec(v1, v2) == l.has_edge_spec(v2, v1),
{
}

impl Lattice2D {
    /// How many cells are present.
    #[must_use]
    pub fn vertices_len(&self) -> (r: usize)
        requires
            self.wf(),
        ensures
            r as int == self.present_count(),
    {
        proof {
            lemma_present_count_form(*self);
        }
        let size = self.columns * self.rows;
        if self.dense {
            size - self.exclusions.len()
        } else {
            self.exclusions.len()
        }
    }

    /// Whether no cell is present.
    #[must_use]
    pub fn is_empty(&self) -> (r: bool)
        requires
            self.wf(),
        ensures
            r == (self.present_count() == 0),
    {
        proof {
            lemma_present_count_form(*self);
        }
        let size = self.columns * self.rows;
        if self.dense {
            self.exclusions.len() == size
        } else {
            self.exclusions.len() == 0
        }
    }

    /// Whether every cell is present.
    #[must_use]
    pub fn is_full(&self) -> (r: bool)
        requires
            self.wf(),
        ensures
            r == (self.present_count() == self.size_spec()),
    {
        proof {
            lemma_present_count_form(*self);
        }
        let size = self.columns * self.rows;
        if self.dense {
            self.exclusions.len() == 0
        } else {
            self.exclusions.len() == size
        }
    }

    /// Force the whole grid empty in constant time; returns whether any cell
    /// had been present.
    pub fn clear(&mut self) -> (r: bool)
        requires
            old(self).wf(),
        ensures
            final (self).wf(),
            final (self).columns_spec() == old(self).columns_spec(),
            final (self).rows_spec() == old(self).rows_spec(),
            final (self).diag_spec() == old(self).diag_spec(),
            forall|c: int, r2: int| !final (self).present(c, r2),
            r == (old(self).present_count() != 0),
    {
        let result = !self.is_empty();
        self.dense = false;
        self.exclusions = Vec::new();
        result
    }

    /// Force the whole grid full in constant time; returns whether any cell
    /// had been absent.
    pub fn fill(&mut self) -> (r: bool)
        requires
            old(self).wf(),
        ensures
            final (self).wf(),
            final (self).columns_spec() == old(self).columns_spec(),
            final (self).rows_spec() == old(self).rows_spec(),
            final (self).diag_spec() == old(self).diag_spec(),
            forall|c: int, r2: int|
                final (self).present(c, r2) == (0 <= c < old(self).columns_spec() && 0 <= r2
                    < old(self).rows_spec()),
            r == (old(self).present_count() != old(self).size_spec()),
    {
        let result = !self.is_full();
        self.dense = true;
        self.exclusions = Vec::new();
        result
    }
}

/// A single-cell region edit changes at most the one stored entry: the count
/// is one exactly when the cell's presence differed from the target.
proof fn lemma_edit_count_single(l: Lattice2D, v: (usize, usize), mp: bool, n: int)
    requires
        l.basic_inv(),
        v.0 < l.columns_spec(),
        v.1 < l.rows_spec(),
        0 <= n <= l.size_spec(),
    ensures
        edit_count(l, v, v, false, mp, n) == if lin_index(
            l.columns_spec() as int,
            v.0 as int,
            v.1 as int,
        ) < n && l.present(v.0 as int, v.1 as int) != mp {
            1int
        } else {
            0int
        },
    decreases n,
{
    lemma_lin_index_bounds(l.columns_spec() as int, l.rows_spec() as int, v.0 as int, v.1 as int);
    lemma_coords_of_lin_index(l.columns_spec() as int, l.rows_spec() as int, v.0 as int, v.1 as int);
    if n > 0 {
        lemma_edit_count_single(l, v, mp, n - 1);
        assert(l.columns_spec() > 0);
        lemma_lin_index_of_coords(l.columns_spec() as int, l.rows_spec() as int, n - 1);
    }
}

impl Lattice2D {
    /// Make a single cell present. Returns whether the stored set changed:
    /// true exactly when the in-bounds cell had been absent; false for an
    /// out-of-bounds cell, which is left untouched.
    pub fn add_vertex(&mut self, vertex: (usize, usize)) -> (r: bool)
        requires
            old(self).wf(),
        ensures
            final (self).wf(),
            final (self).columns_spec() == old(self).columns_spec(),
            final (self).rows_spec() == old(self).rows_spec(),
            final (self).diag_spec() == old(self).diag_spec(),
            !old(self).is_inside_spec(vertex) ==> *final (self) == *old(self) && r == false,
            old(self).is_inside_spec(vertex) ==> r == !old(self).present(
                vertex.0 as int,
                vertex.1 as int,
            ),
            old(self).is_inside_spec(vertex) ==> forall|c: int, r2: int|
                final (self).present(c, r2) == (old(self).present(c, r2) || (c == vertex.0 && r2
                    == vertex.1)),
    {
        if !self.is_inside(vertex) {
            return false;
        }
        proof {
            lemma_edit_count_single(*self, vertex, true, self.size_spec());
            lemma_lin_index_bounds(
                self.columns_spec() as int,
                self.rows_spec() as int,
                vertex.0 as int,
                vertex.1 as int,
            );
        }
        let count = self.apply_region(vertex, vertex, false, true);
        count == 1
    }

    /// Make a single cell absent. Returns whether the stored set changed:
    /// true exactly when the in-bounds cell had been present; false for an
    /// out-of-bounds cell, which is left untouched.
    pub fn remove_vertex(&mut self, vertex: (usize, usize)) -> (r: bool)
        requires
            old(self).wf(),
        ensures
            final (self).wf(),
            final (self).columns_spec() == old(self).columns_spec(),
            final (self).rows_spec() == old(self).rows_spec(),
            final (self).diag_spec() == old(self).diag_spec(),
            !old(self).is_inside_spec(vertex) ==> *final (self) == *old(self) && r == false,
            old(self).is_inside_spec(vertex) ==> r == old(self).present(
                vertex.0 as int,
                vertex.1 as int,
            ),
            old(self).is_inside_spec(vertex) ==> forall|c: int, r2: int|
                final (self).present(c, r2) == (old(self).present(c, r2) && !(c == vertex.0 && r2
                    == vertex.1)),
    {
        if !self.is_inside(vertex) {
            return false;
        }
        proof {
            lemma_edit_count_single(*self, vertex, false, self.size_spec());
            lemma_lin_index_bounds(
                self.columns_spec() as int,
                self.rows_spec() as int,
                vertex.0 as int,
                vertex.1 as int,
            );
        }
        let count = self.apply_region(vertex, vertex, false, false);
        count == 1
    }

    /// Make every cell of the inclusive rectangle present; returns how many
    /// stored entries changed. A rectangle with an out-of-bounds corner is
    /// rejected without effect.
    pub fn add_vertex_area(&mut self, from_vertex: (usize, usize), to_vertex: (usize, usize))
        -> (r: usize)
        requires
            old(self).wf(),
        ensures
            final (self).wf(),
            final (self).columns_spec() == old(self).columns_spec(),
            final (self).rows_spec() == old(self).rows_spec(),
            final (self).diag_spec() == old(self).diag_spec(),
            !(old(self).is_inside_spec(from_vertex) && old(self).is_inside_spec(to_vertex))
                ==> *final (self) == *old(self) && r == 0,
            old(self).is_inside_spec(from_vertex) && old(self).is_inside_spec(to_vertex) ==> r
                as int == edit_count(
                *old(self),
                from_vertex,
                to_vertex,
                false,
                true,
                old(self).size_spec(),
            ),
            old(self).is_inside_spec(from_vertex) && old(self).is_inside_spec(to_vertex)
                ==> forall|c: int, r2: int|
                final (self).present(c, r2) == (old(self).present(c, r2) || (in_area(
                    from_vertex,
                    to_vertex,
                    c,
                    r2,
                ) && 0 <= c < old(self).columns_spec() && 0 <= r2 < old(self).rows_spec())),
    {
        if !self.is_inside(from_vertex) || !self.is_inside(to_vertex) {
            return 0;
        }
        self.apply_region(from_vertex, to_vertex, false, true)
    }

    /// Make every cell of the inclusive rectangle absent; returns how many
    /// stored entries changed. A rectangle with an out-of-bounds corner is
    /// rejected without effect.
    pub fn remove_vertex_area(&mut self, from_vertex: (usize, usize), to_vertex: (usize, usize))
        -> (r: usize)
        requires
            old(self).wf(),
        ensures
            final (self).wf(),
            final (self).columns_spec() == old(self).columns_spec(),
            final (self).rows_spec() == old(self).rows_spec(),
            final (self).diag_spec() == old(self).diag_spec(),
            !(old(self).is_inside_spec(from_vertex) && old(self).is_inside_spec(to_vertex))
                ==> *final (self) == *old(self) && r == 0,
            old(self).is_inside_spec(from_vertex) && old(self).is_inside_spec(to_vertex) ==> r
                as int == edit_count(
                *old(self),
                from_vertex,
                to_vertex,
                false,
                false,
                old(self).size_spec(),
            ),
            old(self).is_inside_spec(from_vertex) && old(self).is_inside_spec(to_vertex)
                ==> forall|c: int, r2: int|
                final (self).present(c, r2) == (old(self).present(c, r2) && !in_area(
                    from_vertex,
                    to_vertex,
                    c,
                    r2,
                )),
    {
        if !self.is_inside(from_vertex) || !self.is_inside(to_vertex) {
            return 0;
        }
        self.apply_region(from_vertex, to_vertex, false, false)
    }

    /// Make every boundary cell of the inclusive rectangle present; returns
    /// how many stored entries changed.
    pub fn add_vertex_perimeter(&mut self, from_vertex: (usize, usize), to_vertex: (usize, usize))
        -> (r: usize)
        requires
            old(self).wf(),
        ensures
            final (self).wf(),
            final (self).columns_spec() == old(self).columns_spec(),
            final (self).rows_spec() == old(self).rows_spec(),
            final (self).diag_spec() == old(self).diag_spec(),
            !(old(self).is_inside_spec(from_vertex) && old(self).is_inside_spec(to_vertex))
                ==> *final (self) == *old(self) && r == 0,
            old(self).is_inside_spec(from_vertex) && old(self).is_inside_spec(to_vertex) ==> r
                as int == edit_count(
                *old(self),
                from_vertex,
                to_vertex,
                true,
                true,
                old(self).size_spec(),
            ),
            old(self).is_inside_spec(from_vertex) && old(self).is_inside_spec(to_vertex)
                ==> forall|c: int, r2: int|
                final (self).present(c, r2) == (old(self).present(c, r2) || (in_region(
                    from_vertex,
                    to_vertex,
                    true,
                    c,
                    r2,
                ) && 0 <= c < old(self).columns_spec() && 0 <= r2 < old(self).rows_spec())),
    {
        if !self.is_inside(from_vertex) || !self.is_inside(to_vertex) {
            return 0;
        }
        self.apply_region(from_vertex, to_vertex, true, true)
    }

    /// Make every boundary cell of the inclusive rectangle absent; returns
    /// how many stored entries changed.
    pub fn remove_vertex_perimeter(
        &mut self,
        from_vertex: (usize, usize),
        to_vertex: (usize, usize),
    ) -> (r: usize)
        requires
            old(self).wf(),
        ensures
            final (self).wf(),
            final (self).columns_spec() == old(self).columns_spec(),
            final (self).rows_spec() == old(self).rows_spec(),
            final (self).diag_spec() == old(self).diag_spec(),
            !(old(self).is_inside_spec(from_vertex) && old(self).is_inside_spec(to_vertex))
                ==> *final (self) == *old(self) && r == 0,
            old(self).is_inside_spec(from_vertex) && old(self).is_inside_spec(to_vertex) ==> r
                as int == edit_count(
                *old(self),
                from_vertex,
                to_vertex,
                true,
                false,
                old(self).size_spec(),
            ),
            old(self).is_inside_spec(from_vertex) && old(self).is_inside_spec(to_vertex)
                ==> forall|c: int, r2: int|
                final (self).present(c, r2) == (old(self).present(c, r2) && !in_region(
                    from_vertex,
                    to_vertex,
                    true,
                    c,
                    r2,
                )),
    {
        if !self.is_inside(from_vertex) || !self.is_inside(to_vertex) {
            return 0;
        }
        self.apply_region(from_vertex, to_vertex, true, false)
    }

    /// Make the outermost ring of the lattice present; a lattice without
    /// cells is left untouched.
    pub fn add_border(&mut self) -> (r: usize)
        requires
            old(self).wf(),
        ensures
            final (self).wf(),
            final (self).columns_spec() == old(self).columns_spec(),
            final (self).rows_spec() == old(self).rows_spec(),
            final (self).diag_spec() == old(self).diag_spec(),
            old(self).columns_spec() == 0 || old(self).rows_spec() == 0 ==> *final (self) == *old(
                self,
            ) && r == 0,
            old(self).columns_spec() > 0 && old(self).rows_spec() > 0 ==> r as int == edit_count(
                *old(self),
                (0, 0),
                ((old(self).columns_spec() - 1) as usize, (old(self).rows_spec() - 1) as usize),
                true,
                true,
                old(self).size_spec(),
            ),
            old(self).columns_spec() > 0 && old(self).rows_spec() > 0 ==> forall|c: int, r2: int|
                final (self).present(c, r2) == (old(self).present(c, r2) || (0 <= c < old(
                    self,
                ).columns_spec() && 0 <= r2 < old(self).rows_spec() && (c == 0 || c == old(
                    self,
                ).columns_spec() - 1 || r2 == 0 || r2 == old(self).rows_spec() - 1))),
    {
        if self.columns == 0 || self.rows == 0 {
            return 0;
        }
        self.add_vertex_perimeter((0, 0), (self.columns - 1, self.rows - 1))
    }

    /// Make the outermost ring of the lattice absent; a lattice without
    /// cells is left untouched.
    pub fn remove_border(&mut self) -> (r: usize)
        requires
            old(self).wf(),
        ensures
            final (self).wf(),
            final (self).columns_spec() == old(self).columns_spec(),
            final (self).rows_spec() == old(self).rows_spec(),
            final (self).diag_spec() == old(self).diag_spec(),
            old(self).columns_spec() == 0 || old(self).rows_spec() == 0 ==> *final (self) == *old(
                self,
            ) && r == 0,
            old(self).columns_spec() > 0 && old(self).rows_spec() > 0 ==> r as int == edit_count(
                *old(self),
                (0, 0),
                ((old(self).columns_spec() - 1) as usize, (old(self).rows_spec() - 1) as usize),
                true,
                false,
                old(self).size_spec(),
            ),
            old(self).columns_spec() > 0 && old(self).rows_spec() > 0 ==> forall|c: int, r2: int|
                final (self).present(c, r2) == (old(self).present(c, r2) && !(c == 0 || c == old(
                    self,
                ).columns_spec() - 1 || r2 == 0 || r2 == old(self).rows_spec() - 1)),
    {
        if self.columns == 0 || self.rows == 0 {
            return 0;
        }
        self.remove_vertex_perimeter((0, 0), (self.columns - 1, self.rows - 1))
    }

    /// Re-establish the memory bound by hand. A well-formed lattice is
    /// already balanced, so presence never changes.
    pub fn rebalance(&mut self)
        requires
            old(self).wf(),
        ensures
            final (self).wf(),
            final (self).columns_spec() == old(self).columns_spec(),
            final (self).rows_spec() == old(self).rows_spec(),
            final (self).diag_spec() == old(self).diag_spec(),
            forall|c: int, r: int| final (self).present(c, r) == old(self).present(c, r),
    {
        self.rebalance_excl();
    }
}

/// The membership the stored vector must have after a resize: cells of the
/// new grid that existed in the old grid keep their membership, newly grown
/// cells take the dense flag (and so stay absent).
spec fn resize_mem(l: Lattice2D, newc: usize, newr: usize, i: int) -> bool {
    let c = col_of_index(newc as int, i);
    let r = row_of_index(newc as int, i);
    if c < l.columns_spec() && r < l.rows_spec() {
        contains_val(l.excl_seq(), lin_index(l.columns_spec() as int, c, r))
    } else {
        l.dense_spec()
    }
}

impl Lattice2D {
    /// Change the extent. Present cells inside the new bounds survive; grown
    /// cells start absent. Returns whether any present cell was truncated.
    pub fn resize(&mut self, column: usize, row: usize) -> (truncated: bool)
        requires
            old(self).wf(),
            column * row <= usize::MAX,
        ensures
            final (self).wf(),
            final (self).columns_spec() == column,
            final (self).rows_spec() == row,
            final (self).diag_spec() == old(self).diag_spec(),
            forall|c: int, r2: int|
                final (self).present(c, r2) == (0 <= c < column && 0 <= r2 < row && old(
                    self,
                ).present(c, r2)),
            truncated == exists|c: int, r2: int|
                old(self).present(c, r2) && (c >= column || r2 >= row),
    {
        let old_size = self.columns * self.rows;
        let mut truncated = false;
        let mut idx: usize = 0;
        while idx < old_size
            invariant
                *self == *old(self),
                old(self).wf(),
                old_size as int == self.size_spec(),
                idx <= old_size,
                truncated == exists|i: int|
                    0 <= i < idx && self.present_at_index(i) && (col_of_index(
                        self.columns_spec() as int,
                        i,
                    ) >= column || row_of_index(self.columns_spec() as int, i) >= row),
            decreases old_size - idx,
        {
            proof {
                assert(self.columns > 0) by (nonlinear_arith)
                    requires (self.columns * self.rows) as int > idx as int >= 0;
            }
            let c = idx % self.columns;
            let r = idx / self.columns;
            proof {
                lemma_lin_index_of_coords(
                    self.columns_spec() as int,
                    self.rows_spec() as int,
                    idx as int,
                );
            }
            if c >= column || r >= row {
                let stored = contains_idx(&self.exclusions, idx);
                let here = if self.dense {
                    !stored
                } else {
                    stored
                };
                if here {
                    truncated = true;
                    assert(self.present_at_index(idx as int));
                }
            }
            idx += 1;
        }
        let ghost source = *old(self);
        proof {
            assert(truncated == exists|c: int, r2: int|
                source.present(c, r2) && (c >= column || r2 >= row)) by {
                if truncated {
                    let i = choose|i: int|
                        0 <= i < old_size && source.present_at_index(i) && (col_of_index(
                            source.columns_spec() as int,
                            i,
                        ) >= column || row_of_index(source.columns_spec() as int, i) >= row);
                } else {
                    if exists|c: int, r2: int|
                        source.present(c, r2) && (c >= column || r2 >= row) {
                        let (c, r2) = choose|c: int, r2: int|
                            source.present(c, r2) && (c >= column || r2 >= row);
                        lemma_lin_index_bounds(
                            source.columns_spec() as int,
                            source.rows_spec() as int,
                            c,
                            r2,
                        );
                        lemma_coords_of_lin_index(
                            source.columns_spec() as int,
                            source.rows_spec() as int,
                            c,
                            r2,
                        );
                        assert(source.present_at_index(
                            lin_index(source.columns_spec() as int, c, r2),
                        ));
                    }
                }
            }
        }
        let new_size = column * row;
        let mut new_excl: Vec<usize> = Vec::new();
        let mut i: usize = 0;
        while i < new_size
            invariant
                *self == *old(self),
                old(self).wf(),
                new_size as int == column * row,
                column * row <= usize::MAX,
                i <= new_size,
                strictly_sorted(new_excl@),
                forall|t: int| 0 <= t < new_excl@.len() ==> (new_excl@[t] as int) < i,
                forall|t: int|
                    0 <= t < i ==> contains_val(new_excl@, t) == resize_mem(
                        *old(self),
                        column,
                        row,
                        t,
                    ),
            decreases new_size - i,
        {
            let ghost prev = new_excl@;
            proof {
                assert(column > 0) by (nonlinear_arith)
                    requires (column * row) as int > i as int >= 0;
                lemma_lin_index_of_coords(column as int, row as int, i as int);
            }
            let c = i % column;
            let r = i / column;
            let m = if c < self.columns && r < self.rows {
                proof {
                    lemma_lin_index_bounds(
                        self.columns_spec() as int,
                        self.rows_spec() as int,
                        c as int,
                        r as int,
                    );
                }
                contains_idx(&self.exclusions, c + r * self.columns)
            } else {
                self.dense
            };
            if m {
                new_excl.push(i);
            }
            proof {
                if m {
                    assert(new_excl@ == prev.push(i));
                    assert(new_excl@[prev.len() as int] == i);
                } else {
                    assert(!contains_val(new_excl@, i as int));
                }
                assert forall|t: int| 0 <= t < i + 1 implies contains_val(new_excl@, t)
                    == resize_mem(*old(self), column, row, t) by {
                    if t == i {
                    } else {
                        assert(contains_val(new_excl@, t) == contains_val(prev, t)) by {
                            if contains_val(prev, t) {
                                let k = choose|k: int| 0 <= k < prev.len() && prev[k] == t;
                                assert(new_excl@[k] == t);
                            }
                            if contains_val(new_excl@, t) {
                                let k = choose|k: int|
                                    0 <= k < new_excl@.len() && new_excl@[k] == t;
                                assert(k < prev.len() && prev[k] == t) by {
                                    if k == prev.len() {
                                        assert(new_excl@[k] == i);
                                    }
                                }
                            }
                        }
                    }
                }
            }
            i += 1;
        }
        self.columns = column;
        self.rows = row;
        self.exclusions = new_excl;
        proof {
            assert(self.basic_inv());
            assert forall|c: int, r2: int| self.present(c, r2) == (0 <= c < column && 0 <= r2
                < row && source.present(c, r2)) by {
                if 0 <= c < column && 0 <= r2 < row {
                    lemma_lin_index_bounds(column as int, row as int, c, r2);
                    lemma_coords_of_lin_index(column as int, row as int, c, r2);
                    if c < source.columns_spec() && r2 < source.rows_spec() {
                        lemma_lin_index_bounds(
                            source.columns_spec() as int,
                            source.rows_spec() as int,
                            c,
                            r2,
                        );
                    }
                }
            }
        }
        self.rebalance_excl();
        truncated
    }

    /// Whether the two lattices have the same set of present cells; the
    /// meaning of lattice equality.
    pub fn same_vertices(&self, other: &Lattice2D) -> (r: bool)
        requires
            self.wf(),
            other.wf(),
        ensures
            r == forall|c: int, r2: int| self.present(c, r2) == other.present(c, r2),
    {
        let mine = self.columns * self.rows;
        let mut idx: usize = 0;
        while idx < mine
            invariant
                self.wf(),
                other.wf(),
                mine as int == self.size_spec(),
                idx <= mine,
                forall|i: int|
                    0 <= i < idx ==> self.present_at_index(i) == other.present(
                        col_of_index(self.columns_spec() as int, i),
                        row_of_index(self.columns_spec() as int, i),
                    ),
            decreases mine - idx,
        {
            proof {
                assert(self.columns_spec() > 0) by (nonlinear_arith)
                    requires (self.columns_spec() * self.rows_spec()) as int > idx as int >= 0;
            }
            let v = self.to_vertex_coords(idx);
            if self.has_vertex(v) != other.has_vertex(v) {
                proof {
                    lemma_lin_index_of_coords(
                        self.columns_spec() as int,
                        self.rows_spec() as int,
                        idx as int,
                    );
                }
                return false;
            }
            proof {
                lemma_lin_index_of_coords(
                    self.columns_spec() as int,
                    self.rows_spec() as int,
                    idx as int,
                );
            }
            idx += 1;
        }
        let theirs = other.columns * other.rows;
        let mut jdx: usize = 0;
        while jdx < theirs
            invariant
                self.wf(),
                other.wf(),
                mine as int == self.size_spec(),
                theirs as int == other.size_spec(),
                jdx <= theirs,
                forall|i: int|
                    0 <= i < self.size_spec() ==> self.present_at_index(i) == other.present(
                        col_of_index(self.columns_spec() as int, i),
                        row_of_index(self.columns_spec() as int, i),
                    ),
                forall|i: int|
                    0 <= i < jdx ==> other.present_at_index(i) == self.present(
                        col_of_index(other.columns_spec() as int, i),
                        row_of_index(other.columns_spec() as int, i),
                    ),
            decreases theirs - jdx,
        {
            proof {
                assert(other.columns_spec() > 0) by (nonlinear_arith)
                    requires (other.columns_spec() * other.rows_spec()) as int > jdx as int >= 0;
            }
            let v = other.to_vertex_coords(jdx);
            if self.has_vertex(v) != other.has_vertex(v) {
                proof {
                    lemma_lin_index_of_coords(
                        other.columns_spec() as int,
                        other.rows_spec() as int,
                        jdx as int,
                    );
                }
                return false;
            }
            proof {
                lemma_lin_index_of_coords(
                    other.columns_spec() as int,
                    other.rows_spec() as int,
                    jdx as int,
                );
            }
            jdx += 1;
        }
        proof {
            assert forall|c: int, r2: int| self.present(c, r2) == other.present(c, r2) by {
                if 0 <= c < self.columns_spec() && 0 <= r2 < self.rows_spec() {
                    lemma_lin_index_bounds(
                        self.columns_spec() as int,
                        self.rows_spec() as int,
                        c,
                        r2,
                    );
                    lemma_coords_of_lin_index(
                        self.columns_spec() as int,
                        self.rows_spec() as int,
                        c,
                        r2,
                    );
                    let i = lin_index(self.columns_spec() as int, c, r2);
                    assert(self.present_at_index(i) == other.present(c, r2));
                } else if 0 <= c < other.columns_spec() && 0 <= r2 < other.rows_spec() {
                    lemma_lin_index_bounds(
                        other.columns_spec() as int,
                        other.rows_spec() as int,
                        c,
                        r2,
                    );
                    lemma_coords_of_lin_index(
                        other.columns_spec() as int,
                        other.rows_spec() as int,
                        c,
                        r2,
                    );
                    let i = lin_index(other.columns_spec() as int, c, r2);
                    assert(other.present_at_index(i) == self.present(c, r2));
                }
            }
        }
        true
    }

    /// Whether any cell of the inclusive rectangle is present.
    pub fn is_area_obstructed(&self, from_vertex: (usize, usize), to_vertex: (usize, usize))
        -> (r: bool)
        requires
            self.wf(),
        ensures
            r == exists|c: int, r2: int|
                in_area(from_vertex, to_vertex, c, r2) && self.present(c, r2),
    {
        if self.columns == 0 || self.rows == 0 {
            return false;
        }
        let hi_c = if to_vertex.0 < self.columns - 1 {
            to_vertex.0
        } else {
            self.columns - 1
        };
        let hi_r = if to_vertex.1 < self.rows - 1 {
            to_vertex.1
        } else {
            self.rows - 1
        };
        let mut c = from_vertex.0;
        while c <= hi_c
            invariant
                self.wf(),
                hi_c < self.columns_spec(),
                hi_r < self.rows_spec(),
                hi_c == if to_vertex.0 < self.columns_spec() {
                    to_vertex.0 as int
                } else {
                    self.columns_spec() - 1
                },
                hi_r == if to_vertex.1 < self.rows_spec() {
                    to_vertex.1 as int
                } else {
                    self.rows_spec() - 1
                },
                c >= from_vertex.0,
                forall|cc: int, rr: int|
                    from_vertex.0 <= cc < c && in_area(from_vertex, to_vertex, cc, rr)
                        ==> !self.present(cc, rr),
            decreases hi_c + 1 - c,
        {
            let mut r = from_vertex.1;
            while r <= hi_r
                invariant
                    self.wf(),
                    c <= hi_c,
                    hi_c < self.columns_spec(),
                    hi_r < self.rows_spec(),
                    hi_r == if to_vertex.1 < self.rows_spec() {
                        to_vertex.1 as int
                    } else {
                        self.rows_spec() - 1
                    },
                    forall|cc: int, rr: int|
                        from_vertex.0 <= cc < c && in_area(from_vertex, to_vertex, cc, rr)
                            ==> !self.present(cc, rr),
                    c >= from_vertex.0,
                    r >= from_vertex.1,
                    hi_c == if to_vertex.0 < self.columns_spec() {
                        to_vertex.0 as int
                    } else {
                        self.columns_spec() - 1
                    },
                    forall|rr: int|
                        from_vertex.1 <= rr < r && in_area(from_vertex, to_vertex, c as int, rr)
                            ==> !self.present(c as int, rr),
                decreases hi_r + 1 - r,
            {
                if self.has_vertex((c, r)) {
                    assert(in_area(from_vertex, to_vertex, c as int, r as int));
                    return true;
                }
                r += 1;
            }
            proof {
                assert forall|rr: int| in_area(from_vertex, to_vertex, c as int, rr)
                    implies !self.present(c as int, rr) by {
                    if rr > hi_r {
                        assert(rr >= self.rows_spec() ==> !self.present(c as int, rr));
                    }
                }
            }
            c += 1;
        }
        proof {
            assert forall|cc: int, rr: int| in_area(from_vertex, to_vertex, cc, rr)
                implies !self.present(cc, rr) by {
                if cc > hi_c {
                    assert(cc >= self.columns_spec() ==> !self.present(cc, rr));
                }
            }
        }
        false
    }
}

impl Lattice2D {
    /// A one-cell sequence when `(c, r)` is present, else empty.
    pub open spec fn maybe_cell(&self, c: int, r: int) -> Seq<(usize, usize)> {
        if self.present(c, r) {
            seq![((c as usize), (r as usize))]
        } else {
            Seq::empty()
        }
    }

    /// The present neighbours left of `(x, y)`: left, then (diagonal mode)
    /// top-left and bottom-left.
    pub open spec fn left_group(&self, x: int, y: int) -> Seq<(usize, usize)> {
        self.maybe_cell(x - 1, y) + if self.diag_spec() {
            self.maybe_cell(x - 1, y - 1) + self.maybe_cell(x - 1, y + 1)
        } else {
            Seq::empty()
        }
    }

    /// The present neighbours right of `(x, y)`: right, then (diagonal mode)
    /// top-right and bottom-right.
    pub open spec fn right_group(&self, x: int, y: int) -> Seq<(usize, usize)> {
        self.maybe_cell(x + 1, y) + if self.diag_spec() {
            self.maybe_cell(x + 1, y - 1) + self.maybe_cell(x + 1, y + 1)
        } else {
            Seq::empty()
        }
    }

    /// The present neighbours of a cell in enumeration order: left (with its
    /// diagonals), right (with its diagonals), top, bottom. Empty when the
    /// cell itself is absent.
    pub open spec fn neighbours_spec(&self, vertex: (usize, usize)) -> Seq<(usize, usize)> {
        if !self.present(vertex.0 as int, vertex.1 as int) {
            Seq::empty()
        } else {
            let x = vertex.0 as int;
            let y = vertex.1 as int;
            self.left_group(x, y) + self.right_group(x, y) + self.maybe_cell(x, y - 1)
                + self.maybe_cell(x, y + 1)
        }
    }

    /// The present, in-bounds neighbours of a cell under the active
    /// connectivity mode, in the fixed enumeration order; empty when the
    /// cell itself is absent.
    #[must_use]
    #[verifier::rlimit(100)]
    #[verifier::spinoff_prover]
    pub fn neighbours(&self, vertex: (usize, usize)) -> (r: Vec<(usize, usize)>)
        requires
            self.wf(),
        ensures
            r@ == self.neighbours_spec(vertex),
    {
        let mut out: Vec<(usize, usize)> = Vec::new();
        if !self.has_vertex(vertex) {
            assert(out@ =~= self.neighbours_spec(vertex));
            return out;
        }
        let (x, y) = vertex;
        let ghost xi = x as int;
        let ghost yi = y as int;
        if x > 0 {
            if self.has_vertex((x - 1, y)) {
                out.push((x - 1, y));
            }
            if self.diagonal_mode {
                if y > 0 && self.has_vertex((x - 1, y - 1)) {
                    out.push((x - 1, y - 1));
                }
                if y + 1 < self.rows && self.has_vertex((x - 1, y + 1)) {
                    out.push((x - 1, y + 1));
                }
            }
        }
        assert(out@ =~= self.left_group(xi, yi));
        if x + 1 < self.columns {
            if self.has_vertex((x + 1, y)) {
                out.push((x + 1, y));
            }
            if self.diagonal_mode {
                if y > 0 && self.has_vertex((x + 1, y - 1)) {
                    out.push((x + 1, y - 1));
                }
                if y + 1 < self.rows && self.has_vertex((x + 1, y + 1)) {
                    out.push((x + 1, y + 1));
                }
            }
        }
        assert(out@ =~= self.left_group(xi, yi) + self.right_group(xi, yi));
        if y > 0 && self.has_vertex((x, y - 1)) {
            out.push((x, y - 1));
        }
        assert(out@ =~= self.left_group(xi, yi) + self.right_group(xi, yi) + self.maybe_cell(
            xi,
            yi - 1,
        ));
        if y + 1 < self.rows && self.has_vertex((x, y + 1)) {
            out.push((x, y + 1));
        }
        assert(out@ =~= self.neighbours_spec(vertex));
        out
    }
}

/// A concatenation holds a value exactly when one of its parts does.
proof fn lemma_add_contains<T>(a: Seq<T>, b: Seq<T>, x: T)
    ensures
        (a + b).contains(x) == (a.contains(x) || b.contains(x)),
{
    if a.contains(x) {
        let i = choose|i: int| 0 <= i < a.len() && a[i] == x;
        assert((a + b)[i] == x);
    }
    if b.contains(x) {
        let i = choose|i: int| 0 <= i < b.len() && b[i] == x;
        assert((a + b)[a.len() + i] == x);
    }
    if (a + b).contains(x) {
        let i = choose|i: int| 0 <= i < (a + b).len() && (a + b)[i] == x;
        if i < a.len() {
            assert(a[i] == x);
        } else {
            assert(b[i - a.len()] == x);
        }
    }
}

/// A singleton-or-empty cell sequence holds exactly the present cell.
proof fn lemma_maybe_cell_contains(l: Lattice2D, c: int, r: int, u: (usize, usize))
    ensures
        l.maybe_cell(c, r).contains(u) == (l.present(c, r) && u.0 == c && u.1 == r),
{
    if l.present(c, r) {
        let s = l.maybe_cell(c, r);
        assert(s[0] == (((c as usize), (r as usize))));
        if u.0 == c && u.1 == r {
            assert(s.contains(u)) by {
                assert(s[0] == u);
            }
        }
        if s.contains(u) {
            let i = choose|i: int| 0 <= i < s.len() && s[i] == u;
            assert(s[0] == u);
        }
    }
}

/// Neighbour consistency: a cell is listed among the neighbours of `v`
/// exactly when the lattice has an edge between the two and `v` itself is
/// present.
pub proof fn lemma_neighbour_iff(l: Lattice2D, v: (usize, usize), u: (usize, usize))
    ensures
        l.neighbours_spec(v).contains(u) == (l.has_edge_spec(v, u) && l.present(
            v.0 as int,
            v.1 as int,
        )),
{
    let x = v.0 as int;
    let y = v.1 as int;
    if !l.present(x, y) {
        assert(!l.neighbours_spec(v).contains(u));
    } else {
        let lg = l.left_group(x, y);
        let rg = l.right_group(x, y);
        let top = l.maybe_cell(x, y - 1);
        let bot = l.maybe_cell(x, y + 1);
        lemma_add_contains(lg + rg + top, bot, u);
        lemma_add_contains(lg + rg, top, u);
        lemma_add_contains(lg, rg, u);
        if l.diag_spec() {
            lemma_add_contains(l.maybe_cell(x - 1, y - 1), l.maybe_cell(x - 1, y + 1), u);
            lemma_add_contains(l.maybe_cell(x + 1, y - 1), l.maybe_cell(x + 1, y + 1), u);
        }
        lemma_add_contains(
            l.maybe_cell(x - 1, y),
            if l.diag_spec() {
                l.maybe_cell(x - 1, y - 1) + l.maybe_cell(x - 1, y + 1)
            } else {
                Seq::empty()
            },
            u,
        );
        lemma_add_contains(
            l.maybe_cell(x + 1, y),
            if l.diag_spec() {
                l.maybe_cell(x + 1, y - 1) + l.maybe_cell(x + 1, y + 1)
            } else {
                Seq::empty()
            },
            u,
        );
        lemma_maybe_cell_contains(l, x - 1, y, u);
        lemma_maybe_cell_contains(l, x - 1, y - 1, u);
        lemma_maybe_cell_contains(l, x - 1, y + 1, u);
        lemma_maybe_cell_contains(l, x + 1, y, u);
        lemma_maybe_cell_contains(l, x + 1, y - 1, u);
        lemma_maybe_cell_contains(l, x + 1, y + 1, u);
        lemma_maybe_cell_contains(l, x, y - 1, u);
        lemma_maybe_cell_contains(l, x, y + 1, u);
    }
}

/// The membership the stored vector must have after a bit-vector edit: cells
/// with a set bit get the membership encoding presence `mp`, the rest keep
/// their old membership.
spec fn vector_mem(l: Lattice2D, bits: Seq<bool>, mp: bool, i: int) -> bool {
    if bits[i] {
        mp != l.dense_spec()
    } else {
        contains_val(l.excl_seq(), i)
    }
}

impl Lattice2D {
    /// Edit every cell whose bit is set to presence `mp`, rebalancing at the
    /// end; returns how many stored entries changed.
    fn apply_bits(&mut self, vector: &BitVector, mp: bool) -> (count: usize)
        requires
            old(self).wf(),
            bits_of(*vector).len() == old(self).size_spec(),
        ensures
            final (self).wf(),
            final (self).columns_spec() == old(self).columns_spec(),
            final (self).rows_spec() == old(self).rows_spec(),
            final (self).diag_spec() == old(self).diag_spec(),
            count as int == vector_edit_count(*old(self), bits_of(*vector), mp, old(
                self,
            ).size_spec()),
            forall|c: int, r: int|
                final (self).present(c, r) == (if 0 <= c < old(self).columns_spec() && 0 <= r
                    < old(self).rows_spec() && bits_of(*vector)[lin_index(
                    old(self).columns_spec() as int,
                    c,
                    r,
                )] {
                    mp
                } else {
                    old(self).present(c, r)
                }),
    {
        let size = self.columns * self.rows;
        let target_mem = mp != self.dense;
        let mut new_excl: Vec<usize> = Vec::new();
        let mut count: usize = 0;
        let mut idx: usize = 0;
        while idx < size
            invariant
                *self == *old(self),
                old(self).wf(),
                size as int == self.size_spec(),
                bits_of(*vector).len() == self.size_spec(),
                target_mem == (mp != self.dense_spec()),
                idx <= size,
                count <= idx,
                count as int == vector_edit_count(*old(self), bits_of(*vector), mp, idx as int),
                strictly_sorted(new_excl@),
                forall|t: int| 0 <= t < new_excl@.len() ==> (new_excl@[t] as int) < idx,
                forall|i: int|
                    0 <= i < idx ==> contains_val(new_excl@, i) == vector_mem(
                        *old(self),
                        bits_of(*vector),
                        mp,
                        i,
                    ),
            decreases size - idx,
        {
            let ghost prev_excl = new_excl@;
            proof {
                assert(self.columns_spec() > 0) by (nonlinear_arith)
                    requires (self.columns_spec() * self.rows_spec()) as int > idx as int >= 0;
                lemma_lin_index_of_coords(
                    self.columns_spec() as int,
                    self.rows_spec() as int,
                    idx as int,
                );
            }
            let bit = vector.get(idx);
            let old_m = contains_idx(&self.exclusions, idx);
            let new_m = if bit {
                target_mem
            } else {
                old_m
            };
            if bit && old_m != target_mem {
                count += 1;
            }
            if new_m {
                new_excl.push(idx);
            }
            proof {
                if new_m {
                    assert(new_excl@ == prev_excl.push(idx));
                    assert(new_excl@[prev_excl.len() as int] == idx);
                } else {
                    assert(!contains_val(new_excl@, idx as int));
                }
                assert forall|i: int| 0 <= i < idx + 1 implies contains_val(new_excl@, i)
                    == vector_mem(*old(self), bits_of(*vector), mp, i) by {
                    if i == idx {
                    } else {
                        assert(contains_val(new_excl@, i) == contains_val(prev_excl, i)) by {
                            if contains_val(prev_excl, i) {
                                let t = choose|t: int|
                                    0 <= t < prev_excl.len() && prev_excl[t] == i;
                                assert(new_excl@[t] == i);
                            }
                            if contains_val(new_excl@, i) {
                                let t = choose|t: int|
                                    0 <= t < new_excl@.len() && new_excl@[t] == i;
                                assert(t < prev_excl.len() && prev_excl[t] == i) by {
                                    if t == prev_excl.len() {
                                        assert(new_excl@[t] == idx);
                                    }
                                }
                            }
                        }
                    }
                }
            }
            idx += 1;
        }
        let ghost source = *old(self);
        self.exclusions = new_excl;
        proof {
            assert(self.basic_inv());
            assert forall|c: int, r: int| self.present(c, r) == (if 0 <= c
                < source.columns_spec() && 0 <= r < source.rows_spec() && bits_of(*vector)[
                lin_index(source.columns_spec() as int, c, r)] {
                mp
            } else {
                source.present(c, r)
            }) by {
                if 0 <= c < self.columns_spec() && 0 <= r < self.rows_spec() {
                    lemma_lin_index_bounds(
                        self.columns_spec() as int,
                        self.rows_spec() as int,
                        c,
                        r,
                    );
                    lemma_coords_of_lin_index(
                        self.columns_spec() as int,
                        self.rows_spec() as int,
                        c,
                        r,
                    );
                }
            }
        }
        self.rebalance_excl();
        count
    }

    /// Union the set bits of a row-major bit-per-cell vector into the
    /// present set; a vector whose length differs from the grid size is
    /// rejected without effect. Returns how many stored entries changed.
    pub fn add_vertex_vector(&mut self, vector: BitVector) -> (r: usize)
        requires
            old(self).wf(),
        ensures
            final (self).wf(),
            final (self).columns_spec() == old(self).columns_spec(),
            final (self).rows_spec() == old(self).rows_spec(),
            final (self).diag_spec() == old(self).diag_spec(),
            bits_of(vector).len() != old(self).size_spec() ==> *final (self) == *old(self) && r
                == 0,
            bits_of(vector).len() == old(self).size_spec() ==> r as int == vector_edit_count(
                *old(self),
                bits_of(vector),
                true,
                old(self).size_spec(),
            ),
            bits_of(vector).len() == old(self).size_spec() ==> forall|c: int, r2: int|
                final (self).present(c, r2) == (old(self).present(c, r2) || (0 <= c < old(
                    self,
                ).columns_spec() && 0 <= r2 < old(self).rows_spec() && bits_of(vector)[lin_index(
                    old(self).columns_spec() as int,
                    c,
                    r2,
                )])),
    {
        let len = vector.len();
        let size = self.columns * self.rows;
        if len != size {
            return 0;
        }
        self.apply_bits(&vector, true)
    }

    /// Union the set bits of a row-major bit-per-cell vector into the absent
    /// set; a vector whose length differs from the grid size is rejected
    /// without effect. Returns how many stored entries changed.
    pub fn remove_vertex_vector(&mut self, vector: BitVector) -> (r: usize)
        requires
            old(self).wf(),
        ensures
            final (self).wf(),
            final (self).columns_spec() == old(self).columns_spec(),
            final (self).rows_spec() == old(self).rows_spec(),
            final (self).diag_spec() == old(self).diag_spec(),
            bits_of(vector).len() != old(self).size_spec() ==> *final (self) == *old(self) && r
                == 0,
            bits_of(vector).len() == old(self).size_spec() ==> r as int == vector_edit_count(
                *old(self),
                bits_of(vector),
                false,
                old(self).size_spec(),
            ),
            bits_of(vector).len() == old(self).size_spec() ==> forall|c: int, r2: int|
                final (self).present(c, r2) == (old(self).present(c, r2) && !(bits_of(vector)[
                    lin_index(old(self).columns_spec() as int, c, r2)] && 0 <= c < old(
                    self,
                ).columns_spec() && 0 <= r2 < old(self).rows_spec())),
    {
        let len = vector.len();
        let size = self.columns * self.rows;
        if len != size {
            return 0;
        }
        self.apply_bits(&vector, false)
    }

    /// The full presence bitmap, row-major, one bit per cell.
    pub fn as_bitvec(&self) -> (r: BitVector)
        requires
            self.wf(),
            self.size_spec() <= usize::MAX / 8,
        ensures
            bits_of(r).len() == self.size_spec(),
            forall|i: int| 0 <= i < self.size_spec() ==> bits_of(r)[i] == self.present_at_index(i),
    {
        let size = self.columns * self.rows;
        let mut out = BitVector::new();
        let mut idx: usize = 0;
        while idx < size
            invariant
                self.wf(),
                size as int == self.size_spec(),
                self.size_spec() <= usize::MAX / 8,
                idx <= size,
                bits_of(out).len() == idx,
                forall|i: int| 0 <= i < idx ==> bits_of(out)[i] == self.present_at_index(i),
            decreases size - idx,
        {
            proof {
                assert(self.columns_spec() > 0) by (nonlinear_arith)
                    requires (self.columns_spec() * self.rows_spec()) as int > idx as int >= 0;
                lemma_lin_index_of_coords(
                    self.columns_spec() as int,
                    self.rows_spec() as int,
                    idx as int,
                );
            }
            let v = self.to_vertex_coords(idx);
            let bit = self.has_vertex(v);
            out.push(bit);
            idx += 1;
        }
        out
    }
}


/// Two lattices with the same fields except the diagonal flag count present
/// cells identically.
proof fn lemma_present_count_agree(a: Lattice2D, b: Lattice2D, n: int)
    requires
        forall|c: int, r: int| a.present(c, r) == b.present(c, r),
        a.columns_spec() == b.columns_spec(),
    ensures
        a.present_count_upto(n) == b.present_count_upto(n),
    decreases n,
{
    if n > 0 {
        lemma_present_count_agree(a, b, n - 1);
    }
}

} // verus!
