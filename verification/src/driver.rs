use vstd::prelude::*;

use crate::board::Conway;

verus! {

/// The pause between two frames, in milliseconds.
pub const FRAME_DELAY_MS: u64 = 500;

/// Where a run stands once the board has been seeded.
#[derive(Debug, Clone, Copy, PartialEq, Eq, Structural)]
pub enum Phase {
    /// The last generation differed from the one before; there may be more.
    Evolving,
    /// The board has stopped changing and its last frame is on show.
    Stable,
    /// The run is over.
    Terminated,
}

/// What is to be done on the screen before the run is asked again.
#[derive(Debug, Clone, Copy, PartialEq, Eq, Structural)]
pub enum Action {
    /// Clear the screen, draw the board and pause for one frame.
    Redraw,
    /// Draw the board once more, as it came to rest, and wait to be
    /// dismissed.
    DrawLast,
    /// Restore the screen and leave.
    Leave,
}

/// The phase and the action that follow `phase`, given whether the step
/// taken in it changed the board.
pub open spec fn transition(phase: Phase, changed: bool) -> (Phase, Action) {
    match phase {
        Phase::Evolving => if changed {
            (Phase::Evolving, Action::Redraw)
        } else {
            (Phase::Stable, Action::DrawLast)
        },
        Phase::Stable | Phase::Terminated => (Phase::Terminated, Action::Leave),
    }
}

impl Conway {
    /// One turn of a run. While the run is evolving the board advances by a
    /// generation, and the run goes on for as long as that changes a cell;
    /// the first generation that changes none brings the run to rest. From
    /// then on the board is left alone.
    pub fn run_step(&mut self, phase: Phase) -> (next: (Phase, Action))
        ensures
            final(self)@ == if phase == Phase::Evolving {
                old(self)@.step()
            } else {
                old(self)@
            },
            next == transition(phase, old(self)@.step() != old(self)@),
    {
        match phase {
            Phase::Evolving => {
                if self.tick() {
                    (Phase::Evolving, Action::Redraw)
                } else {
                    (Phase::Stable, Action::DrawLast)
                }
            },
            Phase::Stable | Phase::Terminated => (Phase::Terminated, Action::Leave),
        }
    }
}

/// Whether a terminal of `columns` by `lines` has room for a board `width`
/// wide and `height` high.
pub fn fits_terminal(width: usize, height: usize, columns: usize, lines: usize) -> (fits: bool)
    ensures
        fits == (width <= columns && height <= lines),
{
    !(columns < width || lines < height)
}

/// How far from the left edge a row is drawn so that a board `width` wide
/// stands in the middle of a terminal of `columns`: the distance between
/// the two halves, and nothing for a board as wide as the terminal or wider.
pub fn center_offset(width: usize, columns: usize) -> (offset: usize)
    ensures
        offset == if width >= columns {
            0
        } else {
            columns / 2 - width / 2
        },
{
    if width >= columns {
        0
    } else {
        columns / 2 - width / 2
    }
}

} // verus!
