use vstd::prelude::*;

verus! {

/// Why a board operation was refused. A refused operation leaves the board
/// as it found it.
#[derive(Debug, Clone, Copy, PartialEq, Eq, Structural)]
pub enum BoardError {
    /// A coordinate named no cell of the board. `x` and `y` are the
    /// coordinate as it was handed to the operation that refused it.
    OutOfBounds { x: usize, y: usize, width: usize, height: usize },
    /// More random live cells were asked for than the board has dead cells.
    TooManyCells { requested: usize, available: usize },
}

/// What reviving a cell found.
#[derive(Debug, Clone, Copy, PartialEq, Eq, Structural)]
pub enum Revival {
    /// The cell was dead and is now alive.
    Revived,
    /// The cell was alive already; nothing changed.
    AlreadyAlive,
}

} // verus!
