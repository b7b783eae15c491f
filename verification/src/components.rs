//! What a presentation layer attaches to the thing that shows a tile.

use crate::coord::Coord;
use crate::state::TileState;
use vstd::prelude::*;

verus! {

/// The place of a tile on the board.
#[derive(Debug, Clone, Copy, PartialEq, Eq, Structural, Hash)]
pub struct BoardCoordinate {
    pub inner: Coord,
}

/// Marks a tile that is a mine.
#[derive(Debug, Default, Clone, Copy, PartialEq, Eq, Structural, Hash)]
pub struct Mine;

/// Marks a tile with mines around it, and holds how many.
#[derive(Debug, Clone, Copy, PartialEq, Eq, Structural, Hash)]
pub struct MineNeighbor(pub u8);

/// Marks a tile that is to be uncovered.
#[derive(Debug, Copy, Clone, Ord, PartialOrd, Eq, PartialEq, Hash)]
pub struct Uncover;

/// What a tile is marked with.
#[derive(Debug, Clone, Copy, PartialEq, Eq, Structural)]
pub enum Marker {
    /// A mine: it is shown as one.
    Mine(Mine),
    /// Mines around the tile: their number is shown.
    Neighbor(MineNeighbor),
    /// No mine on the tile and none around it: nothing is shown.
    Blank,
}

/// The colour in which a count is written on a tile.
#[derive(Debug, Clone, Copy, PartialEq, Eq, Structural)]
pub enum CountColor {
    Blue,
    Green,
    Orange,
    Red,
}

/// The marker for a state: a mine is marked as one, a count above zero
/// with that count, a count of zero with nothing.
pub open spec fn marker_of(state: TileState) -> Marker {
    match state {
        TileState::Mine => Marker::Mine(Mine),
        TileState::Clear(n) => if n > 0 {
            Marker::Neighbor(MineNeighbor(n))
        } else {
            Marker::Blank
        },
    }
}

/// The colour for a count: blue for one, green for two, orange for three,
/// red for any other.
pub open spec fn color_of(count: u8) -> CountColor {
    if count == 1 {
        CountColor::Blue
    } else if count == 2 {
        CountColor::Green
    } else if count == 3 {
        CountColor::Orange
    } else {
        CountColor::Red
    }
}

/// The marker to attach to a tile in the given state.
pub fn marker(state: TileState) -> (m: Marker)
    ensures
        m == marker_of(state),
{
    match state {
        TileState::Mine => Marker::Mine(Mine),
        TileState::Clear(n) => {
            if n > 0 {
                Marker::Neighbor(MineNeighbor(n))
            } else {
                Marker::Blank
            }
        },
    }
}

/// The colour in which the given count is written.
pub fn count_color(count: u8) -> (color: CountColor)
    ensures
        color == color_of(count),
{
    match count {
        1 => CountColor::Blue,
        2 => CountColor::Green,
        3 => CountColor::Orange,
        _ => CountColor::Red,
    }
}

} // verus!
