//! Row-major linear indexing of grid cells, and the proof that the index and
//! coordinate mappings are exact inverses over the valid domain.

use vstd::prelude::*;
use vstd::arithmetic::div_mod::lemma_fundamental_div_mod_converse;
use vstd::arithmetic::div_mod::lemma_fundamental_div_mod;
use vstd::arithmetic::mul::lemma_mul_inequality;
use vstd::arithmetic::mul::lemma_mul_is_commutative;

verus! {

/// The row-major linear index of cell `(col, row)` in a grid that is
/// `columns` wide.
pub open spec fn lin_index(columns: int, col: int, row: int) -> int {
    col + row * columns
}

/// The column encoded in a row-major linear index.
pub open spec fn col_of_index(columns: int, index: int) -> int {
    index % columns
}

/// The row encoded in a row-major linear index.
pub open spec fn row_of_index(columns: int, index: int) -> int {
    index / columns
}

/// A cell inside the bounds maps to an index below `columns * rows`.
pub proof fn lemma_lin_index_bounds(columns: int, rows: int, col: int, row: int)
    requires
        0 <= col < columns,
        0 <= row < rows,
    ensures
        0 <= lin_index(columns, col, row) < columns * rows,
{
    assert(col + row * columns <= (columns - 1) + (rows - 1) * columns) by {
        lemma_mul_inequality(row, rows - 1, columns);
    }
    assert((columns - 1) + (rows - 1) * columns == columns * rows - 1) by (nonlinear_arith);
}

/// Coordinates decoded from an index are recovered exactly: the first half of
/// the bijection between valid coordinates and valid indices.
pub proof fn lemma_coords_of_lin_index(columns: int, rows: int, col: int, row: int)
    requires
        0 <= col < columns,
        0 <= row < rows,
    ensures
        col_of_index(columns, lin_index(columns, col, row)) == col,
        row_of_index(columns, lin_index(columns, col, row)) == row,
{
    lemma_mul_is_commutative(row, columns);
    lemma_fundamental_div_mod_converse(col + row * columns, columns, row, col);
}

/// A valid index decodes to in-bounds coordinates that encode back to the
/// same index: the second half of the bijection.
pub proof fn lemma_lin_index_of_coords(columns: int, rows: int, index: int)
    requires
        columns >= 1,
        0 <= index < columns * rows,
    ensures
        0 <= col_of_index(columns, index) < columns,
        0 <= row_of_index(columns, index) < rows,
        lin_index(columns, col_of_index(columns, index), row_of_index(columns, index)) == index,
{
    lemma_fundamental_div_mod(index, columns);
    assert(0 <= index % columns < columns) by (nonlinear_arith)
        requires columns >= 1 && index >= 0;
    assert(0 <= index / columns < rows) by (nonlinear_arith)
        requires
            columns >= 1 && 0 <= index < columns * rows
                && index == columns * (index / columns) + index % columns
                && 0 <= index % columns < columns;
    lemma_mul_is_commutative(row_of_index(columns, index), columns);
}

} // verus!
