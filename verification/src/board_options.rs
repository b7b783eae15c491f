//! How large a board is to be and how many mines it is to hold.

use vstd::prelude::*;

verus! {

/// The width (`x`) and height (`y`) of a grid, in tiles.
#[derive(Debug, Clone, Copy, PartialEq, Eq, Structural)]
pub struct GridSize {
    pub x: u32,
    pub y: u32,
}

/// The size of a board and the number of its mines.
#[derive(Debug, Clone, Copy, PartialEq, Eq, Structural)]
pub struct Difficulty {
    /// Tile map size
    pub dim: GridSize,
    /// bomb count
    pub n_mines: u32,
}

impl Difficulty {
    /// Nine by nine tiles with ten mines.
    pub fn easy() -> (d: Difficulty)
        ensures
            d == (Difficulty { dim: GridSize { x: 9, y: 9 }, n_mines: 10 }),
    {
        Difficulty { dim: GridSize { x: 9, y: 9 }, n_mines: 10 }
    }

    /// Sixteen by sixteen tiles with forty mines.
    pub fn medium() -> (d: Difficulty)
        ensures
            d == (Difficulty { dim: GridSize { x: 16, y: 16 }, n_mines: 40 }),
    {
        Difficulty { dim: GridSize { x: 16, y: 16 }, n_mines: 40 }
    }

    /// Thirty by sixteen tiles with ninety-nine mines.
    pub fn expert() -> (d: Difficulty)
        ensures
            d == (Difficulty { dim: GridSize { x: 30, y: 16 }, n_mines: 99 }),
    {
        Difficulty { dim: GridSize { x: 30, y: 16 }, n_mines: 99 }
    }

    /// Whether a board of this difficulty can be built: the mines fit the
    /// grid.
    pub open spec fn feasible(self) -> bool {
        self.n_mines <= self.dim.x * self.dim.y
    }
}

/// Board generation options.
#[derive(Debug, Clone, Copy, PartialEq, Eq, Structural)]
pub struct BoardOptions {
    pub difficulty: Difficulty,
    /// Does the board generate a safe place to start. Carried for the
    /// caller; generation does not consult it.
    pub safe_start: bool,
}

impl Default for BoardOptions {
    fn default() -> (options: BoardOptions)
        ensures
            options.difficulty == (Difficulty { dim: GridSize { x: 16, y: 16 }, n_mines: 40 }),
            options.safe_start,
    {
        BoardOptions { difficulty: Difficulty::medium(), safe_start: true }
    }
}

} // verus!
