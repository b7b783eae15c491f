//! What a game reports about a board while it is played.

use crate::coord::Coord;
use vstd::prelude::*;

verus! {

/// Every tile without a mine has been uncovered.
#[derive(Debug, Copy, Clone)]
pub struct BoardClearEvent;

/// A mine has been uncovered.
#[derive(Debug, Copy, Clone)]
pub struct MineTriggerEvent;

/// The tile at `coord` has been marked.
#[derive(Debug, Copy, Clone)]
pub struct TileMarkEvent {
    pub coord: Coord,
}

} // verus!
