//! Index arithmetic on a rectangle whose edges wrap around.
//!
//! Cells are numbered row by row: the cell in row `r` and column `c` of a grid
//! `width` cells wide has the flat index `r * width + c`.

use vstd::arithmetic::div_mod::lemma_fundamental_div_mod;
use vstd::arithmetic::div_mod::lemma_fundamental_div_mod_converse;
use vstd::arithmetic::div_mod::lemma_mod_pos_bound;
use vstd::prelude::*;

verus! {

/// `i` is the flat index of a cell of a `width` by `height` grid.
pub open spec fn in_grid(width: int, height: int, i: int) -> bool {
    width > 0 && height > 0 && 0 <= i < width * height
}

/// The flat index of the cell in row `row` and column `col`.
pub open spec fn cell_at(width: int, row: int, col: int) -> int {
    row * width + col
}

/// The row that cell `i` lies in.
pub open spec fn row_of(width: int, i: int) -> int {
    i / width
}

/// The column that cell `i` lies in.
pub open spec fn col_of(width: int, i: int) -> int {
    i % width
}

/// The cell one column to the left in the same row; column 0 wraps to the last column.
pub open spec fn left_of(width: int, i: int) -> int {
    cell_at(width, row_of(width, i), (col_of(width, i) + width - 1) % width)
}

/// The cell one column to the right in the same row; the last column wraps to column 0.
pub open spec fn right_of(width: int, i: int) -> int {
    cell_at(width, row_of(width, i), (col_of(width, i) + 1) % width)
}

/// The cell one row up in the same column; row 0 wraps to the last row.
pub open spec fn up_of(width: int, height: int, i: int) -> int {
    cell_at(width, (row_of(width, i) + height - 1) % height, col_of(width, i))
}

/// The cell one row down in the same column; the last row wraps to row 0.
pub open spec fn down_of(width: int, height: int, i: int) -> int {
    cell_at(width, (row_of(width, i) + 1) % height, col_of(width, i))
}

/// Stepping back by one modulo `m`.
pub proof fn lemma_wrap_back(c: int, m: int)
    requires
        0 <= c < m,
    ensures
        (c + m - 1) % m == if c == 0 { m - 1 } else { c - 1 },
{
    if c == 0 {
        lemma_fundamental_div_mod_converse(c + m - 1, m, 0, m - 1);
    } else {
        lemma_fundamental_div_mod_converse(c + m - 1, m, 1, c - 1);
    }
}

/// Stepping forward by one modulo `m`.
pub proof fn lemma_wrap_forward(c: int, m: int)
    requires
        0 <= c < m,
    ensures
        (c + 1) % m == if c == m - 1 { 0 } else { c + 1 },
{
    if c == m - 1 {
        lemma_fundamental_div_mod_converse(c + 1, m, 1, 0);
    } else {
        lemma_fundamental_div_mod_converse(c + 1, m, 0, c + 1);
    }
}

/// Every cell of the grid has a row below `height` and a column below `width`,
/// and is the cell at that row and column.
pub proof fn lemma_row_col(width: int, height: int, i: int)
    requires
        in_grid(width, height, i),
    ensures
        0 <= row_of(width, i) < height,
        0 <= col_of(width, i) < width,
        cell_at(width, row_of(width, i), col_of(width, i)) == i,
{
    lemma_fundamental_div_mod(i, width);
    lemma_mod_pos_bound(i, width);
    let q: int = i / width;
    let r: int = i % width;
    assert(width * q == q * width) by (nonlinear_arith);
    assert(0 <= q < height) by (nonlinear_arith)
        requires
            width > 0,
            0 <= i < width * height,
            i == q * width + r,
            0 <= r < width,
    ;
}

/// A row and a column inside the grid name a cell of the grid, and that cell
/// lies in exactly that row and column.
pub proof fn lemma_cell_at(width: int, height: int, row: int, col: int)
    requires
        0 <= row < height,
        0 <= col < width,
    ensures
        in_grid(width, height, cell_at(width, row, col)),
        row_of(width, cell_at(width, row, col)) == row,
        col_of(width, cell_at(width, row, col)) == col,
{
    lemma_fundamental_div_mod_converse(row * width + col, width, row, col);
    assert(0 <= row * width + col < width * height) by (nonlinear_arith)
        requires
            0 <= row < height,
            0 <= col < width,
    ;
}

/// The four neighbours of a cell of the grid are cells of the grid.
pub proof fn lemma_neighbors_in_grid(width: int, height: int, i: int)
    requires
        in_grid(width, height, i),
    ensures
        in_grid(width, height, left_of(width, i)),
        in_grid(width, height, right_of(width, i)),
        in_grid(width, height, up_of(width, height, i)),
        in_grid(width, height, down_of(width, height, i)),
{
    lemma_row_col(width, height, i);
    let row: int = row_of(width, i);
    let col: int = col_of(width, i);
    lemma_wrap_back(col, width);
    lemma_wrap_forward(col, width);
    lemma_wrap_back(row, height);
    lemma_wrap_forward(row, height);
    lemma_cell_at(width, height, row, (col + width - 1) % width);
    lemma_cell_at(width, height, row, (col + 1) % width);
    lemma_cell_at(width, height, (row + height - 1) % height, col);
    lemma_cell_at(width, height, (row + 1) % height, col);
}

/// A horizontal step stays in the row and moves one column, with wrap-around;
/// a vertical step stays in the column and moves one row, with wrap-around.
pub proof fn lemma_neighbor_row_col(width: int, height: int, i: int)
    requires
        in_grid(width, height, i),
    ensures
        row_of(width, left_of(width, i)) == row_of(width, i),
        col_of(width, left_of(width, i)) == (col_of(width, i) + width - 1) % width,
        row_of(width, right_of(width, i)) == row_of(width, i),
        col_of(width, right_of(width, i)) == (col_of(width, i) + 1) % width,
        row_of(width, up_of(width, height, i)) == (row_of(width, i) + height - 1) % height,
        col_of(width, up_of(width, height, i)) == col_of(width, i),
        row_of(width, down_of(width, height, i)) == (row_of(width, i) + 1) % height,
        col_of(width, down_of(width, height, i)) == col_of(width, i),
{
    lemma_row_col(width, height, i);
    let row: int = row_of(width, i);
    let col: int = col_of(width, i);
    lemma_wrap_back(col, width);
    lemma_wrap_forward(col, width);
    lemma_wrap_back(row, height);
    lemma_wrap_forward(row, height);
    lemma_cell_at(width, height, row, (col + width - 1) % width);
    lemma_cell_at(width, height, row, (col + 1) % width);
    lemma_cell_at(width, height, (row + height - 1) % height, col);
    lemma_cell_at(width, height, (row + 1) % height, col);
}

/// The neighbours by plain offsets of the flat index: a step inside the grid
/// adds or subtracts 1 or `width`, a step over an edge jumps to the far end of
/// the same row or column.
pub proof fn lemma_neighbor_offsets(width: int, height: int, i: int)
    requires
        in_grid(width, height, i),
    ensures
        left_of(width, i) == if i % width == 0 { i + width - 1 } else { i - 1 },
        right_of(width, i) == if i % width == width - 1 { i + 1 - width } else { i + 1 },
        up_of(width, height, i) == if i < width { i + width * (height - 1) } else { i - width },
        down_of(width, height, i) == if i >= width * (height - 1) { i % width } else { i + width },
{
    lemma_row_col(width, height, i);
    let row: int = row_of(width, i);
    let col: int = col_of(width, i);
    lemma_wrap_back(col, width);
    lemma_wrap_forward(col, width);
    lemma_wrap_back(row, height);
    lemma_wrap_forward(row, height);
    assert((row - 1) * width == row * width - width) by (nonlinear_arith);
    assert((row + 1) * width == row * width + width) by (nonlinear_arith);
    assert((height - 1) * width == width * (height - 1)) by (nonlinear_arith);
    assert(0 * width == 0);
    assert(i < width <==> row == 0) by (nonlinear_arith)
        requires
            i == row * width + col,
            0 <= col < width,
            0 <= row,
    ;
    assert(i >= width * (height - 1) <==> row == height - 1) by (nonlinear_arith)
        requires
            i == row * width + col,
            0 <= col < width,
            0 <= row < height,
    ;
}

/// Left and right undo each other, and so do up and down.
pub proof fn lemma_opposite_steps_cancel(width: int, height: int, i: int)
    requires
        in_grid(width, height, i),
    ensures
        left_of(width, right_of(width, i)) == i,
        right_of(width, left_of(width, i)) == i,
        up_of(width, height, down_of(width, height, i)) == i,
        down_of(width, height, up_of(width, height, i)) == i,
{
    lemma_row_col(width, height, i);
    lemma_neighbor_row_col(width, height, i);
    let row: int = row_of(width, i);
    let col: int = col_of(width, i);
    lemma_wrap_back(col, width);
    lemma_wrap_forward(col, width);
    lemma_wrap_back(row, height);
    lemma_wrap_forward(row, height);
    lemma_wrap_back((col + 1) % width, width);
    lemma_wrap_forward((col + width - 1) % width, width);
    lemma_wrap_back((row + 1) % height, height);
    lemma_wrap_forward((row + height - 1) % height, height);
}

/// How far apart the neighbours of a cell lie. In a grid at least two rows
/// high the upper and the lower neighbour differ from the cell and from its
/// left and right neighbours, and in one at least three rows high from each
/// other; likewise the left and the right neighbour for the columns.
pub proof fn lemma_neighbors_apart(width: int, height: int, i: int)
    requires
        in_grid(width, height, i),
    ensures
        width >= 2 ==> left_of(width, i) != i && right_of(width, i) != i,
        width >= 3 ==> left_of(width, i) != right_of(width, i),
        height >= 2 ==> up_of(width, height, i) != i && down_of(width, height, i) != i,
        height >= 3 ==> up_of(width, height, i) != down_of(width, height, i),
        height >= 2 ==> up_of(width, height, i) != left_of(width, i) && up_of(width, height, i)
            != right_of(width, i),
        height >= 2 ==> down_of(width, height, i) != left_of(width, i) && down_of(
            width,
            height,
            i,
        ) != right_of(width, i),
{
    lemma_row_col(width, height, i);
    lemma_neighbor_row_col(width, height, i);
    let row: int = row_of(width, i);
    let col: int = col_of(width, i);
    lemma_wrap_back(col, width);
    lemma_wrap_forward(col, width);
    lemma_wrap_back(row, height);
    lemma_wrap_forward(row, height);
}

/// Steps over an edge: the first cell of a row has the last cell of that row
/// to its left, the last has the first to its right; the top cell of a column
/// has the bottom cell of that column above it, the bottom has the top below.
pub proof fn lemma_edges_wrap(width: int, height: int, row: int, col: int)
    requires
        0 <= row < height,
        0 <= col < width,
    ensures
        left_of(width, cell_at(width, row, 0)) == cell_at(width, row, width - 1),
        right_of(width, cell_at(width, row, width - 1)) == cell_at(width, row, 0),
        up_of(width, height, cell_at(width, 0, col)) == cell_at(width, height - 1, col),
        down_of(width, height, cell_at(width, height - 1, col)) == cell_at(width, 0, col),
{
    lemma_cell_at(width, height, row, 0);
    lemma_cell_at(width, height, row, width - 1);
    lemma_cell_at(width, height, 0, col);
    lemma_cell_at(width, height, height - 1, col);
    lemma_wrap_back(0, width);
    lemma_wrap_forward(width - 1, width);
    lemma_wrap_back(0, height);
    lemma_wrap_forward(height - 1, height);
}

} // verus!
