//! Grid coordinates, bounds and the row-major layout of a grid.

use vstd::prelude::*;

verus! {

/// A pair of signed integers: a cell's position (`x` the column, `y` the
/// row), an offset between two cells, or a grid's extent (`x` the width,
/// `y` the height).
#[derive(Debug, Clone, Copy, PartialEq, Eq, Structural, Hash)]
pub struct Coord {
    pub x: i32,
    pub y: i32,
}

/// Whether the point `(x, y)` lies in a grid of extent `dim`.
pub open spec fn in_grid(x: int, y: int, dim: Coord) -> bool {
    0 <= x < dim.x && 0 <= y < dim.y
}

/// The number of cells of a grid of extent `dim`.
pub open spec fn area(dim: Coord) -> int {
    dim.x * dim.y
}

/// The position of the point `(x, y)` in a row-major buffer of a grid that
/// is `dim.x` cells wide.
pub open spec fn cell_index(x: int, y: int, dim: Coord) -> int {
    y * dim.x + x
}

impl Coord {
    /// Whether this coordinate lies in a grid of extent `dim`.
    pub open spec fn within(self, dim: Coord) -> bool {
        in_grid(self.x as int, self.y as int, dim)
    }

    /// The row-major index of this coordinate in a grid of extent `dim`.
    pub open spec fn index_in(self, dim: Coord) -> int {
        cell_index(self.x as int, self.y as int, dim)
    }

    /// The coordinate of column `x` and row `y`.
    pub fn new(x: i32, y: i32) -> (c: Coord)
        ensures
            c.x == x,
            c.y == y,
    {
        Coord { x, y }
    }

    /// The two components as `[x, y]`.
    pub fn to_array(&self) -> (a: [i32; 2])
        ensures
            a[0] == self.x,
            a[1] == self.y,
    {
        [self.x, self.y]
    }
}

/// Every point of a grid has its own index below the grid's area.
pub proof fn lemma_index_in_range(x: int, y: int, dim: Coord)
    requires
        in_grid(x, y, dim),
    ensures
        0 <= cell_index(x, y, dim) < area(dim),
{
    assert(0 <= y * dim.x) by (nonlinear_arith)
        requires
            0 <= y,
            0 <= dim.x,
    ;
    assert((y + 1) * dim.x <= dim.y * dim.x) by (nonlinear_arith)
        requires
            y + 1 <= dim.y,
            0 <= dim.x,
    ;
    assert((y + 1) * dim.x == y * dim.x + dim.x) by (nonlinear_arith);
    assert(dim.y * dim.x == dim.x * dim.y) by (nonlinear_arith);
}

/// Two points of a grid with the same index are the same point.
pub proof fn lemma_index_injective(x1: int, y1: int, x2: int, y2: int, dim: Coord)
    requires
        in_grid(x1, y1, dim),
        in_grid(x2, y2, dim),
        cell_index(x1, y1, dim) == cell_index(x2, y2, dim),
    ensures
        x1 == x2,
        y1 == y2,
{
    let w = dim.x as int;
    if y1 < y2 {
        assert((y1 + 1) * w <= y2 * w) by (nonlinear_arith)
            requires
                y1 + 1 <= y2,
                0 <= w,
        ;
        assert((y1 + 1) * w == y1 * w + w) by (nonlinear_arith);
    } else if y2 < y1 {
        assert((y2 + 1) * w <= y1 * w) by (nonlinear_arith)
            requires
                y2 + 1 <= y1,
                0 <= w,
        ;
        assert((y2 + 1) * w == y2 * w + w) by (nonlinear_arith);
    }
}

/// Tests whether `coord` lies in a grid of extent `dim`: both components at
/// least zero and below the extent's.
#[must_use]
pub fn bound_check(coord: Coord, dim: Coord) -> (inside: bool)
    ensures
        inside == coord.within(dim),
{
    0 <= coord.x && 0 <= coord.y && coord.x < dim.x && coord.y < dim.y
}

/// The row-major index of a coordinate that lies in the grid.
pub fn linear_index(coord: Coord, dim: Coord) -> (index: usize)
    requires
        coord.within(dim),
        area(dim) <= usize::MAX,
    ensures
        index == coord.index_in(dim),
        index < area(dim),
{
    proof {
        lemma_index_in_range(coord.x as int, coord.y as int, dim);
        assert(0 <= coord.y * dim.x <= coord.index_in(dim)) by (nonlinear_arith)
            requires
                0 <= coord.y,
                0 <= dim.x,
                0 <= coord.x,
                coord.index_in(dim) == coord.y * dim.x + coord.x,
        ;
    }
    coord.y as usize * dim.x as usize + coord.x as usize
}

/// The coordinate that stands at `index` in the row-major order of a grid
/// of extent `dim`.
pub open spec fn coord_at(index: int, dim: Coord) -> Coord {
    Coord { x: (index % (dim.x as int)) as i32, y: (index / (dim.x as int)) as i32 }
}

/// The coordinates of a grid of extent `dim` in row-major order: the rows
/// from the top and, within a row, the columns from the left.
pub open spec fn row_major(dim: Coord) -> Seq<Coord> {
    Seq::new(area(dim) as nat, |i: int| coord_at(i, dim))
}

/// `itertools::Itertools::cartesian_product` of the ranges `0..rows` and
/// `0..cols`, collected: every pair of a row and a column, the rows in
/// ascending order and, within a row, the columns in ascending order. The
/// pair at position `i` is therefore `(i / cols, i % cols)`.
#[verifier::external_body]
pub(crate) fn range_product(rows: i32, cols: i32) -> (pairs: Vec<(i32, i32)>)
    requires
        0 <= rows,
        0 <= cols,
        rows * cols <= usize::MAX,
    ensures
        pairs@.len() == rows * cols,
        forall|i: int|
            0 <= i < pairs@.len() ==> (#[trigger] pairs@[i]).0 == i / (cols as int) && pairs@[i].1
                == i % (cols as int),
{
    itertools::Itertools::cartesian_product(0..rows, 0..cols).collect()
}

/// All the coordinates of a grid of extent `dim`, row by row from the top
/// and, within a row, from left to right.
pub fn grid_coords(dim: Coord) -> (coords: Vec<Coord>)
    requires
        0 <= dim.x,
        0 <= dim.y,
        area(dim) <= usize::MAX,
    ensures
        coords@ == row_major(dim),
{
    assert(dim.y * dim.x == dim.x * dim.y) by (nonlinear_arith);
    let pairs = range_product(dim.y, dim.x);
    let mut coords: Vec<Coord> = Vec::new();
    for k in 0..pairs.len()
        invariant
            0 <= dim.x,
            0 <= dim.y,
            pairs@.len() == area(dim),
            forall|i: int|
                0 <= i < pairs@.len() ==> (#[trigger] pairs@[i]).0 == i / (dim.x as int)
                    && pairs@[i].1 == i % (dim.x as int),
            coords@.len() == k,
            forall|i: int| 0 <= i < k ==> #[trigger] coords@[i] == coord_at(i, dim),
    {
        let (y, x) = pairs[k];
        coords.push(Coord { x, y });
    }
    assert(coords@ =~= row_major(dim));
    coords
}

/// `coord_at` and `index_in` undo each other on the cells of a grid.
pub proof fn lemma_coord_at_index(index: int, dim: Coord)
    requires
        0 <= dim.x,
        0 <= dim.y,
        0 <= index < area(dim),
    ensures
        coord_at(index, dim).within(dim),
        coord_at(index, dim).index_in(dim) == index,
{
    let w = dim.x as int;
    assert(w > 0) by (nonlinear_arith)
        requires
            0 <= w,
            0 <= index < w * dim.y,
    ;
    vstd::arithmetic::div_mod::lemma_fundamental_div_mod(index, w);
    vstd::arithmetic::div_mod::lemma_mod_bound(index, w);
    vstd::arithmetic::div_mod::lemma_div_pos_is_pos(index, w);
    let q = index / w;
    let r = index % w;
    assert(w * q == q * w) by (nonlinear_arith);
    if q >= dim.y {
        assert(q * w >= dim.y * w) by (nonlinear_arith)
            requires
                q >= dim.y,
                w > 0,
        ;
        assert(dim.y * w == w * dim.y) by (nonlinear_arith);
    }
}

/// The index of a cell of a grid leads back to the cell.
pub proof fn lemma_index_coord_at(c: Coord, dim: Coord)
    requires
        c.within(dim),
    ensures
        0 <= c.index_in(dim) < area(dim),
        coord_at(c.index_in(dim), dim) == c,
{
    lemma_index_in_range(c.x as int, c.y as int, dim);
    lemma_coord_at_index(c.index_in(dim), dim);
    let back = coord_at(c.index_in(dim), dim);
    lemma_index_injective(back.x as int, back.y as int, c.x as int, c.y as int, dim);
}

/// The row-major order lists every cell of the grid once, at the cell's
/// index, and nothing else; a cell comes before another exactly when it
/// lies in a higher row, or in the same row further to the left.
pub proof fn row_major_lists_each_cell_once(dim: Coord)
    requires
        0 <= dim.x,
        0 <= dim.y,
    ensures
        row_major(dim).len() == area(dim),
        forall|i: int| 0 <= i < row_major(dim).len() ==> (#[trigger] row_major(dim)[i]).within(dim),
        forall|c: Coord|
            #![trigger c.index_in(dim)]
            c.within(dim) ==> 0 <= c.index_in(dim) < row_major(dim).len() && row_major(
                dim,
            )[c.index_in(dim)] == c,
        forall|i: int, j: int|
            0 <= i < row_major(dim).len() && 0 <= j < row_major(dim).len() ==> (i < j <==> {
                let a = #[trigger] row_major(dim)[i];
                let b = #[trigger] row_major(dim)[j];
                a.y < b.y || (a.y == b.y && a.x < b.x)
            }),
{
    assert(0 <= dim.x * dim.y) by (nonlinear_arith)
        requires
            0 <= dim.x,
            0 <= dim.y,
    ;
    assert forall|i: int| 0 <= i < row_major(dim).len() implies (#[trigger] row_major(
        dim,
    )[i]).within(dim) by {
        lemma_coord_at_index(i, dim);
    }
    assert forall|c: Coord|
        #![trigger c.index_in(dim)]
        c.within(dim) implies 0 <= c.index_in(dim) < row_major(dim).len() && row_major(
        dim,
    )[c.index_in(dim)] == c by {
        lemma_index_coord_at(c, dim);
    }
    assert forall|i: int, j: int|
        0 <= i < row_major(dim).len() && 0 <= j < row_major(dim).len() implies (i < j <==> {
            let a = #[trigger] row_major(dim)[i];
            let b = #[trigger] row_major(dim)[j];
            a.y < b.y || (a.y == b.y && a.x < b.x)
        }) by {
        lemma_coord_at_index(i, dim);
        lemma_coord_at_index(j, dim);
        let a = row_major(dim)[i];
        let b = row_major(dim)[j];
        let w = dim.x as int;
        assert(i == a.y * w + a.x);
        assert(j == b.y * w + b.x);
        if a.y < b.y {
            assert((a.y + 1) * w <= b.y * w) by (nonlinear_arith)
                requires
                    a.y + 1 <= b.y,
                    0 <= w,
            ;
            assert((a.y + 1) * w == a.y * w + w) by (nonlinear_arith);
        } else if b.y < a.y {
            assert((b.y + 1) * w <= a.y * w) by (nonlinear_arith)
                requires
                    b.y + 1 <= a.y,
                    0 <= w,
            ;
            assert((b.y + 1) * w == b.y * w + w) by (nonlinear_arith);
        }
    }
}

} // verus!
