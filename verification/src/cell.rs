use vstd::prelude::*;

verus! {

/// The state of one cell: a population flag and nothing more.
#[derive(Debug, Clone, Copy, PartialEq, Eq, Structural)]
pub enum CellState {
    Alive,
    Dead,
}

impl CellState {
    /// Whether this is the `Alive` state.
    pub fn is_alive(self) -> (alive: bool)
        ensures
            alive == (self == CellState::Alive),
    {
        match self {
            CellState::Alive => true,
            CellState::Dead => false,
        }
    }
}

} // verus!
