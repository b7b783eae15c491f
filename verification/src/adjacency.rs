//! Counting the mines around a tile.

use crate::coord::{area, coord_at, lemma_coord_at_index, lemma_index_in_range, Coord};
use crate::neighbors::{lemma_neighbors_inside, neighbor_coords};
use crate::state::TileState;
use vstd::prelude::*;

verus! {

/// The number of mines that `cells`, the row-major states of a grid of
/// extent `dim`, holds at the coordinates `at`, each counted as often as it
/// is listed.
pub open spec fn mines_among(cells: Seq<TileState>, dim: Coord, at: Seq<Coord>) -> nat
    decreases at.len(),
{
    if at.len() == 0 {
        0
    } else {
        mines_among(cells, dim, at.drop_last()) + if cells[at.last().index_in(dim)] is Mine {
            1nat
        } else {
            0nat
        }
    }
}

/// The number of neighbours of `center` that are mines.
pub open spec fn adjacent_mines(cells: Seq<TileState>, dim: Coord, center: Coord) -> nat {
    mines_among(cells, dim, neighbor_coords(center, dim))
}

/// What a tile holds once the counts are derived from the mines: a mine
/// stays a mine, any other tile holds the number of mines around it.
pub open spec fn derived_state(cells: Seq<TileState>, dim: Coord, at: Coord) -> TileState {
    if cells[at.index_in(dim)] is Mine {
        TileState::Mine
    } else {
        TileState::Clear(adjacent_mines(cells, dim, at) as u8)
    }
}

/// The states of a whole grid once the counts are derived from the mines.
pub open spec fn derived_cells(cells: Seq<TileState>, dim: Coord) -> Seq<TileState> {
    Seq::new(cells.len(), |i: int| derived_state(cells, dim, coord_at(i, dim)))
}

/// No more mines are counted than coordinates are listed.
pub proof fn lemma_mines_among_bound(cells: Seq<TileState>, dim: Coord, at: Seq<Coord>)
    ensures
        mines_among(cells, dim, at) <= at.len(),
    decreases at.len(),
{
    if at.len() > 0 {
        lemma_mines_among_bound(cells, dim, at.drop_last());
    }
}

/// A tile has at most eight mines around it.
pub proof fn lemma_adjacent_bound(cells: Seq<TileState>, dim: Coord, center: Coord)
    ensures
        adjacent_mines(cells, dim, center) <= 8,
{
    lemma_neighbors_inside(center, dim, 8);
    lemma_mines_among_bound(cells, dim, neighbor_coords(center, dim));
}

/// The count at listed coordinates depends only on where the mines are.
pub proof fn lemma_mines_among_same(
    a: Seq<TileState>,
    b: Seq<TileState>,
    dim: Coord,
    at: Seq<Coord>,
)
    requires
        a.len() == area(dim),
        b.len() == area(dim),
        forall|i: int| 0 <= i < a.len() ==> (a[i] is Mine <==> b[i] is Mine),
        forall|j: int| 0 <= j < at.len() ==> (#[trigger] at[j]).within(dim),
    ensures
        mines_among(a, dim, at) == mines_among(b, dim, at),
    decreases at.len(),
{
    if at.len() > 0 {
        let front = at.drop_last();
        assert forall|j: int| 0 <= j < front.len() implies (#[trigger] front[j]).within(dim) by {
            assert(front[j] == at[j]);
        }
        lemma_mines_among_same(a, b, dim, front);
        let last = at.last();
        assert(last == at[at.len() - 1]);
        assert(last.within(dim));
        lemma_index_in_range(last.x as int, last.y as int, dim);
    }
}

/// The number of mines around a tile depends only on where the mines are.
pub proof fn lemma_adjacent_same(a: Seq<TileState>, b: Seq<TileState>, dim: Coord, center: Coord)
    requires
        a.len() == area(dim),
        b.len() == area(dim),
        forall|i: int| 0 <= i < a.len() ==> (a[i] is Mine <==> b[i] is Mine),
    ensures
        adjacent_mines(a, dim, center) == adjacent_mines(b, dim, center),
{
    lemma_neighbors_inside(center, dim, 8);
    lemma_mines_among_same(a, b, dim, neighbor_coords(center, dim));
}

/// Where no listed coordinate holds a mine, the count is zero.
pub proof fn lemma_mines_among_none(cells: Seq<TileState>, dim: Coord, at: Seq<Coord>)
    requires
        forall|j: int| 0 <= j < at.len() ==> !(cells[(#[trigger] at[j]).index_in(dim)] is Mine),
    ensures
        mines_among(cells, dim, at) == 0,
    decreases at.len(),
{
    if at.len() > 0 {
        let front = at.drop_last();
        assert forall|j: int| 0 <= j < front.len() implies !(cells[(#[trigger] front[j]).index_in(
            dim,
        )] is Mine) by {
            assert(front[j] == at[j]);
        }
        lemma_mines_among_none(cells, dim, front);
        assert(at.last() == at[at.len() - 1]);
    }
}

/// Deriving the counts a second time changes nothing: the derived states
/// are the ones that deriving from them gives.
pub proof fn derivation_is_idempotent(cells: Seq<TileState>, dim: Coord)
    requires
        0 <= dim.x,
        0 <= dim.y,
        cells.len() == area(dim),
    ensures
        derived_cells(derived_cells(cells, dim), dim) == derived_cells(cells, dim),
{
    let once = derived_cells(cells, dim);
    let twice = derived_cells(once, dim);
    assert forall|i: int| 0 <= i < cells.len() implies (once[i] is Mine <==> cells[i] is Mine) by {
        lemma_coord_at_index(i, dim);
    }
    assert forall|i: int| 0 <= i < once.len() implies twice[i] == once[i] by {
        let c = coord_at(i, dim);
        lemma_coord_at_index(i, dim);
        lemma_adjacent_same(once, cells, dim, c);
    }
    assert(twice =~= once);
}

} // verus!
