//! A rectangular grid of `width` columns and `height` rows, stored row by
//! row: the cell in column `x` of row `y` has the index `x + y * width`.

use vstd::prelude::*;

verus! {

/// The index of the cell in column `x` of row `y`.
pub open spec fn index_of(x: nat, y: nat, width: nat) -> nat {
    x + y * width
}

/// The column of the cell with the given index.
pub open spec fn x_of(index: nat, width: nat) -> nat
    recommends
        width >= 1,
{
    index % width
}

/// The row of the cell with the given index.
pub open spec fn y_of(index: nat, width: nat) -> nat
    recommends
        width >= 1,
{
    index / width
}

/// Whether the cell at `(x, y)` lies in the first or last column, or in
/// the first or last row.
pub open spec fn on_edge(x: nat, y: nat, width: nat, height: nat) -> bool {
    x == 0 || x == width - 1 || y == 0 || y == height - 1
}

/// Whether the cell with the given index lies on the border of the grid.
pub open spec fn index_on_edge(index: nat, width: nat, height: nat) -> bool
    recommends
        width >= 1,
{
    on_edge(x_of(index, width), y_of(index, width), width, height)
}

/// Maps 2d coordinates to a 1d index based on the width of the grid.
pub fn coords_to_index(x: usize, y: usize, width: usize) -> (index: usize)
    requires
        x + y * width <= usize::MAX,
    ensures
        index == index_of(x as nat, y as nat, width as nat),
{
    assert(0 <= y * width) by (nonlinear_arith)
        requires
            0 <= y,
            0 <= width,
    ;
    x + y * width
}

/// The X-coordinate of a 1d index.
pub fn index_to_x(index: usize, width: usize) -> (x: usize)
    requires
        width >= 1,
    ensures
        x == x_of(index as nat, width as nat),
        x < width,
{
    index % width
}

/// The Y-coordinate of a 1d index.
pub fn index_to_y(index: usize, width: usize) -> (y: usize)
    requires
        width >= 1,
    ensures
        y == y_of(index as nat, width as nat),
{
    index / width
}

/// Checks if a given coordinate is along an edge.
pub fn coord_along_edge(x: usize, y: usize, width: usize, height: usize) -> (edge: bool)
    requires
        width >= 1,
        height >= 1,
    ensures
        edge == on_edge(x as nat, y as nat, width as nat, height as nat),
{
    x == 0 || x == width - 1 || y == 0 || y == height - 1
}

/// Checks if a given index is along an edge.
pub fn index_along_edge(index: usize, width: usize, height: usize) -> (edge: bool)
    requires
        width >= 1,
        height >= 1,
    ensures
        edge == index_on_edge(index as nat, width as nat, height as nat),
{
    let x: usize = index_to_x(index, width);
    let y: usize = index_to_y(index, width);
    coord_along_edge(x, y, width, height)
}

/// Taking a cell's index and splitting it again gives back the cell's
/// column and row, for every cell inside the grid.
pub proof fn lemma_index_round_trip(x: nat, y: nat, width: nat, height: nat)
    requires
        x < width,
        y < height,
    ensures
        x_of(index_of(x, y, width), width) == x,
        y_of(index_of(x, y, width), width) == y,
{
    vstd::arithmetic::div_mod::lemma_fundamental_div_mod_converse(
        (x + y * width) as int,
        width as int,
        y as int,
        x as int,
    );
}

/// A cell inside the grid is on the edge by its index exactly when it is
/// on the edge by its coordinates.
pub proof fn lemma_edge_by_index_agrees(x: nat, y: nat, width: nat, height: nat)
    requires
        x < width,
        y < height,
    ensures
        index_on_edge(index_of(x, y, width), width, height) == on_edge(x, y, width, height),
{
    lemma_index_round_trip(x, y, width, height);
}

/// Every index below `width * height` names a cell inside the grid, and
/// is the index of that cell.
pub proof fn lemma_coords_of_index(index: nat, width: nat, height: nat)
    requires
        width >= 1,
        index < width * height,
    ensures
        x_of(index, width) < width,
        y_of(index, width) < height,
        index_of(x_of(index, width), y_of(index, width), width) == index,
{
    vstd::arithmetic::div_mod::lemma_fundamental_div_mod(index as int, width as int);
    vstd::arithmetic::div_mod::lemma_mod_bound(index as int, width as int);
    let q = index as int / width as int;
    assert(q < height) by (nonlinear_arith)
        requires
            width >= 1,
            index < width * height,
            index >= width * q,
    ;
    assert(width * q == q * width) by (nonlinear_arith);
    assert(q >= 0) by (nonlinear_arith)
        requires
            q == index as int / width as int,
            width >= 1,
            index >= 0,
    ;
}

} // verus!
