//! The reasons for which a board cannot be built.

use vstd::prelude::*;

verus! {

/// Why a board was not built.
#[derive(Debug, Clone, Copy, PartialEq, Eq, Structural)]
pub enum BoardError {
    /// The width or the height does not fit a signed coordinate, or the
    /// number of cells does not fit an index.
    InvalidDimensions,
    /// More mines were asked for than the grid has cells.
    TooManyMines,
}

} // verus!
