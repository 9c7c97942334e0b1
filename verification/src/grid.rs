//! Places in a list that runs through six faces of a cube, and on each face
//! through a grid of rows and columns.
//!
//! Both the vertices of a cube mesh and the pixels of a cubemap are laid out
//! in this way, face after face and row after row.

use vstd::prelude::*;

verus! {

/// Number of faces of a cube.
pub const FACES: u32 = 6;

/// Place of the entry in row `i` and column `j` of a face, where every face
/// has `rows` rows of `columns` entries.
pub open spec fn grid_index(rows: int, columns: int, face: int, i: int, j: int) -> int {
    (face * rows + i) * columns + j
}

/// Number of entries on six faces.
pub open spec fn grid_size(rows: int, columns: int) -> int {
    6 * rows * columns
}

/// Every place in the list is below the number of entries.
pub proof fn lemma_grid_index_bound(rows: int, columns: int, face: int, i: int, j: int)
    requires
        0 <= face < 6,
        0 <= i < rows,
        0 <= j < columns,
    ensures
        0 <= grid_index(rows, columns, face, i, j) < grid_size(rows, columns),
        0 <= face * rows + i < 6 * rows,
{
    assert(0 <= (face * rows + i) * columns + j < 6 * rows * columns && 0 <= face * rows + i < 6
        * rows) by (nonlinear_arith)
        requires
            0 <= face < 6,
            0 <= i < rows,
            0 <= j < columns,
    ;
}

/// Going one column or one row further moves by one place or by one row's
/// length; the end of a row is the start of the next, and the end of a face is
/// the start of the next.
pub proof fn lemma_grid_index_steps(rows: int, columns: int, face: int, i: int, j: int)
    ensures
        grid_index(rows, columns, face, i, j + 1) == grid_index(rows, columns, face, i, j) + 1,
        grid_index(rows, columns, face, i + 1, j) == grid_index(rows, columns, face, i, j)
            + columns,
        grid_index(rows, columns, face, i, columns) == grid_index(rows, columns, face, i + 1, 0),
        grid_index(rows, columns, face, rows, 0) == grid_index(rows, columns, face + 1, 0, 0),
        grid_index(rows, columns, 0, 0, 0) == 0,
        grid_index(rows, columns, 6, 0, 0) == grid_size(rows, columns),
{
    assert((face * rows + (i + 1)) * columns == (face * rows + i) * columns + columns)
        by (nonlinear_arith);
    assert((face + 1) * rows + 0 == face * rows + rows) by (nonlinear_arith);
    assert((0 * rows + 0) * columns + 0 == 0) by (nonlinear_arith);
    assert((6 * rows + 0) * columns + 0 == 6 * rows * columns) by (nonlinear_arith);
}

/// Two entries with the same place are the same entry.
pub proof fn lemma_grid_index_injective(
    rows: int,
    columns: int,
    face: int,
    i: int,
    j: int,
    other_face: int,
    other_i: int,
    other_j: int,
)
    requires
        0 <= i < rows,
        0 <= j < columns,
        0 <= other_i < rows,
        0 <= other_j < columns,
        grid_index(rows, columns, face, i, j) == grid_index(
            rows,
            columns,
            other_face,
            other_i,
            other_j,
        ),
    ensures
        face == other_face,
        i == other_i,
        j == other_j,
{
    let place = grid_index(rows, columns, face, i, j);
    let row = face * rows + i;
    let other_row = other_face * rows + other_i;
    vstd::arithmetic::div_mod::lemma_fundamental_div_mod_converse(place, columns, row, j);
    vstd::arithmetic::div_mod::lemma_fundamental_div_mod_converse(
        place,
        columns,
        other_row,
        other_j,
    );
    vstd::arithmetic::div_mod::lemma_fundamental_div_mod_converse(row, rows, face, i);
    vstd::arithmetic::div_mod::lemma_fundamental_div_mod_converse(row, rows, other_face, other_i);
}

/// Every place below the number of entries is the place of an entry.
pub proof fn lemma_grid_index_onto(rows: int, columns: int, place: int) -> (entry: (int, int, int))
    requires
        rows >= 1,
        columns >= 1,
        0 <= place < grid_size(rows, columns),
    ensures
        0 <= entry.0 < 6,
        0 <= entry.1 < rows,
        0 <= entry.2 < columns,
        grid_index(rows, columns, entry.0, entry.1, entry.2) == place,
{
    let row = place / columns;
    let j = place % columns;
    let face = row / rows;
    let i = row % rows;
    vstd::arithmetic::div_mod::lemma_fundamental_div_mod(place, columns);
    vstd::arithmetic::div_mod::lemma_fundamental_div_mod(row, rows);
    vstd::arithmetic::div_mod::lemma_mod_bound(place, columns);
    vstd::arithmetic::div_mod::lemma_mod_bound(row, rows);
    assert(0 <= row && 0 <= face < 6 && (face * rows + i) * columns + j == place)
        by (nonlinear_arith)
        requires
            rows >= 1,
            columns >= 1,
            0 <= place < 6 * rows * columns,
            place == columns * row + j,
            row == rows * face + i,
            0 <= j < columns,
            0 <= i < rows,
    ;
    (face, i, j)
}

} // verus!
