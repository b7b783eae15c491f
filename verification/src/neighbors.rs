//! The eight neighbours of a cell.

use crate::coord::{in_grid, Coord};
use vstd::prelude::*;

verus! {

/// The offsets from a cell to its eight neighbours, in the order in which
/// the neighbours are listed: the row above from left to right, then left
/// and right, then the row below from left to right.
pub open spec fn neighbor_delta(k: int) -> Coord {
    if k == 0 {
        Coord { x: -1i32, y: -1i32 }
    } else if k == 1 {
        Coord { x: 0, y: -1i32 }
    } else if k == 2 {
        Coord { x: 1, y: -1i32 }
    } else if k == 3 {
        Coord { x: -1i32, y: 0 }
    } else if k == 4 {
        Coord { x: 1, y: 0 }
    } else if k == 5 {
        Coord { x: -1i32, y: 1 }
    } else if k == 6 {
        Coord { x: 0, y: 1 }
    } else {
        Coord { x: 1, y: 1 }
    }
}

/// The neighbours of `center` that the first `k` offsets reach inside a grid
/// of extent `dim`, in the order of the offsets.
pub open spec fn neighbors_upto(center: Coord, dim: Coord, k: nat) -> Seq<Coord>
    decreases k,
{
    if k == 0 {
        Seq::empty()
    } else {
        let before = neighbors_upto(center, dim, (k - 1) as nat);
        let delta = neighbor_delta(k - 1);
        if in_grid(center.x + delta.x, center.y + delta.y, dim) {
            before.push(Coord { x: (center.x + delta.x) as i32, y: (center.y + delta.y) as i32 })
        } else {
            before
        }
    }
}

/// The neighbours of `center` inside a grid of extent `dim`: the cells one
/// step away in each of the eight directions, without those that fall off
/// the grid.
pub open spec fn neighbor_coords(center: Coord, dim: Coord) -> Seq<Coord> {
    neighbors_upto(center, dim, 8)
}

/// The `k`-th of the eight offsets.
pub fn neighbor_offset(k: usize) -> (delta: Coord)
    requires
        k < 8,
    ensures
        delta == neighbor_delta(k as int),
{
    match k {
        0 => Coord { x: -1, y: -1 },
        1 => Coord { x: 0, y: -1 },
        2 => Coord { x: 1, y: -1 },
        3 => Coord { x: -1, y: 0 },
        4 => Coord { x: 1, y: 0 },
        5 => Coord { x: -1, y: 1 },
        6 => Coord { x: 0, y: 1 },
        _ => Coord { x: 1, y: 1 },
    }
}

/// The first `k` offsets reach at most `k` neighbours, all inside the grid.
pub proof fn lemma_neighbors_inside(center: Coord, dim: Coord, k: nat)
    ensures
        neighbors_upto(center, dim, k).len() <= k,
        forall|i: int|
            0 <= i < neighbors_upto(center, dim, k).len() ==> (#[trigger] neighbors_upto(
                center,
                dim,
                k,
            )[i]).within(dim),
    decreases k,
{
    if k > 0 {
        lemma_neighbors_inside(center, dim, (k - 1) as nat);
    }
}

/// Whether a cell lies on the left or the right edge of its grid.
pub open spec fn on_side_edge(c: Coord, dim: Coord) -> bool {
    c.x == 0 || c.x == dim.x - 1
}

/// Whether a cell lies on the top or the bottom edge of its grid.
pub open spec fn on_level_edge(c: Coord, dim: Coord) -> bool {
    c.y == 0 || c.y == dim.y - 1
}

/// A cell that touches no edge of its grid has eight neighbours. In a grid
/// of at least two columns and two rows, a corner has three neighbours and
/// any other cell on an edge has five.
pub proof fn neighbor_count_by_position(c: Coord, dim: Coord)
    requires
        c.within(dim),
    ensures
        !on_side_edge(c, dim) && !on_level_edge(c, dim) ==> neighbor_coords(c, dim).len() == 8,
        dim.x >= 2 && dim.y >= 2 && on_side_edge(c, dim) && on_level_edge(c, dim)
            ==> neighbor_coords(c, dim).len() == 3,
        dim.x >= 2 && dim.y >= 2 && (on_side_edge(c, dim) != on_level_edge(c, dim))
            ==> neighbor_coords(c, dim).len() == 5,
{
    reveal_with_fuel(neighbors_upto, 9);
}

/// The only cell of a grid of one column and one row has no neighbour.
pub proof fn single_cell_has_no_neighbor(c: Coord, dim: Coord)
    requires
        dim.x == 1,
        dim.y == 1,
        c.within(dim),
    ensures
        neighbor_coords(c, dim).len() == 0,
{
    reveal_with_fuel(neighbors_upto, 9);
}

/// The cell that the `k`-th offset leads to from `c`.
pub open spec fn shifted(c: Coord, k: int) -> Coord {
    Coord { x: (c.x + neighbor_delta(k).x) as i32, y: (c.y + neighbor_delta(k).y) as i32 }
}

/// Whether the `k`-th offset leads from `c` to a cell of the grid.
pub open spec fn reaches(c: Coord, dim: Coord, k: int) -> bool {
    in_grid(c.x + neighbor_delta(k).x, c.y + neighbor_delta(k).y, dim)
}

/// An offset that stays inside the grid gives a neighbour: the cell it
/// leads to is listed, right after the neighbours of the offsets before it.
pub proof fn lemma_offset_lands(c: Coord, dim: Coord, k: nat, m: int)
    requires
        0 <= m < k,
        reaches(c, dim, m),
    ensures
        neighbors_upto(c, dim, m as nat).len() < neighbors_upto(c, dim, k).len(),
        neighbors_upto(c, dim, k)[neighbors_upto(c, dim, m as nat).len() as int] == shifted(c, m),
    decreases k,
{
    if m < k - 1 {
        lemma_offset_lands(c, dim, (k - 1) as nat, m);
    }
}

/// Every listed neighbour comes from an offset that stays inside the grid:
/// the result is the offset behind the neighbour at position `i`.
pub proof fn lemma_neighbor_source(c: Coord, dim: Coord, k: nat, i: int) -> (m: int)
    requires
        0 <= i < neighbors_upto(c, dim, k).len(),
    ensures
        0 <= m < k,
        reaches(c, dim, m),
        neighbors_upto(c, dim, k)[i] == shifted(c, m),
        neighbors_upto(c, dim, m as nat).len() == i,
    decreases k,
{
    if i < neighbors_upto(c, dim, (k - 1) as nat).len() {
        lemma_neighbor_source(c, dim, (k - 1) as nat, i)
    } else {
        k - 1
    }
}

/// The neighbours of a cell are the cells of the grid, other than the cell
/// itself, that are at most one column and one row away from it, and each
/// is listed once.
pub proof fn neighbors_are_the_adjacent_cells(c: Coord, dim: Coord)
    requires
        c.within(dim),
    ensures
        forall|p: Coord|
            neighbor_coords(c, dim).contains(p) <==> p.within(dim) && p != c && -1 <= p.x - c.x
                <= 1 && -1 <= p.y - c.y <= 1,
        forall|i: int, j: int|
            0 <= i < j < neighbor_coords(c, dim).len() ==> neighbor_coords(c, dim)[i]
                != neighbor_coords(c, dim)[j],
{
    let all = neighbor_coords(c, dim);
    assert forall|p: Coord|
        p.within(dim) && p != c && -1 <= p.x - c.x <= 1 && -1 <= p.y - c.y
            <= 1 implies all.contains(p) by {
        let k: int = if p.y - c.y == -1 {
            p.x - c.x + 1
        } else if p.y - c.y == 0 {
            if p.x - c.x == -1 {
                3
            } else {
                4
            }
        } else {
            p.x - c.x + 6
        };
        assert(neighbor_delta(k).x == p.x - c.x && neighbor_delta(k).y == p.y - c.y);
        lemma_offset_lands(c, dim, 8, k);
        assert(all[neighbors_upto(c, dim, k as nat).len() as int] == p);
    }
    assert forall|p: Coord| all.contains(p) implies p.within(dim) && p != c && -1 <= p.x - c.x
        <= 1 && -1 <= p.y - c.y <= 1 by {
        let i = choose|i: int| 0 <= i < all.len() && all[i] == p;
        let k = lemma_neighbor_source(c, dim, 8, i);
    }
    assert forall|i: int, j: int| 0 <= i < j < all.len() implies all[i] != all[j] by {
        let ki = lemma_neighbor_source(c, dim, 8, i);
        let kj = lemma_neighbor_source(c, dim, 8, j);
        assert(neighbor_delta(ki) != neighbor_delta(kj));
    }
}

} // verus!
