//! Moving a selection on a grid without leaving it.

use vstd::prelude::*;

verus! {

/// The position `delta` steps from `pos`, held within `0..=top`.
pub open spec fn stepped(pos: int, delta: int, top: int) -> int {
    if pos + delta < 0 {
        0
    } else if pos + delta > top {
        top
    } else {
        pos + delta
    }
}

/// The cell of a three by three grid reached from `cell` by `row_delta` rows
/// and `col_delta` columns, held within the grid.
pub open spec fn stepped_cell(cell: int, row_delta: int, col_delta: int) -> int {
    stepped(cell / 3, row_delta, 2) * 3 + stepped(cell % 3, col_delta, 2)
}

/// Moves a position by `delta` steps and holds it within `0..=top`.
pub fn step_within(pos: usize, delta: isize, top: usize) -> (moved: usize)
    ensures
        moved == stepped(pos as int, delta as int, top as int),
{
    let target: i128 = pos as i128 + delta as i128;
    if target < 0 {
        0
    } else if target > top as i128 {
        top
    } else {
        target as usize
    }
}

/// Moves a cell of a three by three grid and holds it within the grid.
pub fn step_cell(cell: usize, row_delta: isize, col_delta: isize) -> (moved: usize)
    ensures
        moved == stepped_cell(cell as int, row_delta as int, col_delta as int),
        moved < 9,
{
    let new_row = step_within(cell / 3, row_delta, 2);
    let new_col = step_within(cell % 3, col_delta, 2);
    new_row * 3 + new_col
}

} // verus!
