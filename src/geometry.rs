//! Cutting an axis into cells, and the block of cells round a cell.
use vstd::prelude::*;

verus! {

/// How many whole cells of size `cell` fit between `min` and `max`.
pub open spec fn axis_cells(min: int, max: int, cell: int) -> int {
    (max - min) / cell
}

/// The position along an axis, counted in cells from `min`, of coordinate `v`.
pub open spec fn axis_slot(v: int, min: int, cell: int) -> int {
    (v - min) / cell
}

/// The nine cells of a plane round the cell with flat index `c`, in query
/// order, for rows `w` cells long: the cell itself, its left and right
/// neighbours, then the row below and the row above, each as middle, left,
/// right. Nothing here keeps a neighbour in the same row: the flat index of
/// the right neighbour of a row's last cell is the first cell of the next row.
pub open spec fn plane_stencil(c: int, w: int) -> Seq<int> {
    seq![c, c - 1, c + 1, c - w, c - w - 1, c - w + 1, c + w, c + w - 1, c + w + 1]
}

/// Whether a cell of size `cell` fits between `min` and `max`.
pub fn fits(min: i64, max: i64, cell: i64) -> (r: bool)
    ensures
        r == (cell <= max - min),
{
    (cell as i128) <= (max as i128) - (min as i128)
}

/// The cell count of an axis, for a cell that fits in it.
pub fn axis_count(min: i64, max: i64, cell: i64) -> (r: usize)
    requires
        0 < cell <= max - min,
        axis_cells(min as int, max as int, cell as int) <= usize::MAX,
    ensures
        r == axis_cells(min as int, max as int, cell as int),
        r >= 1,
{
    let extent = (max as i128 - min as i128) as u128;
    let r = extent / (cell as u128);
    assert(r >= 1) by (nonlinear_arith)
        requires
            r == extent / (cell as u128),
            0 < cell <= extent,
    ;
    r as usize
}

/// The position of `v` along an axis, in whole cells from `min`.
pub fn slot(v: i64, min: i64, cell: i64) -> (r: u128)
    requires
        min <= v,
        0 < cell,
    ensures
        r == axis_slot(v as int, min as int, cell as int),
{
    let offset = (v as i128 - min as i128) as u128;
    offset / (cell as u128)
}

/// Positions along an axis grow with the coordinate.
pub proof fn lemma_slot_le_count(v: int, min: int, max: int, cell: int)
    requires
        min <= v <= max,
        0 < cell,
    ensures
        0 <= axis_slot(v, min, cell) <= axis_cells(min, max, cell),
{
    vstd::arithmetic::div_mod::lemma_div_is_ordered(v - min, max - min, cell);
    vstd::arithmetic::div_mod::lemma_div_pos_is_pos(v - min, cell);
}

/// A cell that fits an axis leaves at least one cell on it.
pub proof fn lemma_count_positive(min: int, max: int, cell: int)
    requires
        0 < cell <= max - min,
    ensures
        axis_cells(min, max, cell) >= 1,
{
    vstd::arithmetic::div_mod::lemma_div_is_ordered(cell, max - min, cell);
    vstd::arithmetic::div_mod::lemma_div_basics(cell);
}

/// Strictly below `max`, on an axis that a whole number of cells fills, a
/// coordinate lies in one of the axis's cells.
pub proof fn lemma_slot_below_count(v: int, min: int, max: int, cell: int)
    requires
        min <= v < max,
        0 < cell,
        (max - min) % cell == 0,
    ensures
        axis_slot(v, min, cell) < axis_cells(min, max, cell),
{
    let n = axis_cells(min, max, cell);
    vstd::arithmetic::div_mod::lemma_fundamental_div_mod(max - min, cell);
    vstd::arithmetic::div_mod::lemma_fundamental_div_mod(v - min, cell);
    let s = axis_slot(v, min, cell);
    vstd::arithmetic::div_mod::lemma_mod_pos_bound(v - min, cell);
    assert(s < n) by (nonlinear_arith)
        requires
            max - min == cell * n,
            v - min == cell * s + (v - min) % cell,
            0 <= (v - min) % cell,
            v - min < max - min,
            0 < cell,
    ;
}

} // verus!
