use vstd::prelude::*;

use crate::grid::{named_cells, Grid};

verus! {

/// The starter patterns: still lifes and period-two oscillators, each with
/// the cells that make it up and the board size it is meant for.
#[derive(Debug, Clone, Copy, PartialEq, Eq, Structural)]
pub enum Pattern {
    Block,
    Blinker,
    Beehive,
    Toad,
    Loaf,
    Beacon,
    Tub,
}

impl Pattern {
    /// The live cells of the pattern, counted from 1 inside the board that
    /// `size` recommends.
    pub open spec fn layout(self) -> Seq<(usize, usize)> {
        match self {
            Pattern::Block => seq![(2usize, 2usize), (3, 2), (2, 3), (3, 3)],
            Pattern::Blinker => seq![(2usize, 3usize), (3, 3), (4, 3)],
            Pattern::Beehive => seq![(3usize, 2usize), (4, 2), (2, 3), (4, 3), (3, 4), (4, 4)],
            Pattern::Loaf => seq![
                (3usize, 2usize),
                (4, 2),
                (2, 3),
                (4, 3),
                (3, 4),
                (4, 4),
                (4, 5),
            ],
            Pattern::Toad => seq![(4usize, 2usize), (2, 3), (5, 3), (2, 4), (5, 4), (3, 5)],
            Pattern::Beacon => seq![(2usize, 2usize), (3, 2), (2, 3), (5, 4), (4, 5), (5, 5)],
            Pattern::Tub => seq![(3usize, 2usize), (2, 3), (4, 2), (3, 4)],
        }
    }

    /// The recommended board size, width first.
    pub open spec fn spec_size(self) -> (usize, usize) {
        match self {
            Pattern::Block => (4, 4),
            Pattern::Blinker | Pattern::Tub => (5, 5),
            Pattern::Beehive => (6, 5),
            Pattern::Loaf | Pattern::Toad | Pattern::Beacon => (6, 6),
        }
    }

    /// The name the pattern goes by.
    pub open spec fn spec_name(self) -> Seq<char> {
        match self {
            Pattern::Block => "Block"@,
            Pattern::Blinker => "Blinker"@,
            Pattern::Beehive => "Beehive"@,
            Pattern::Loaf => "Loaf"@,
            Pattern::Toad => "Toad"@,
            Pattern::Beacon => "Beacon"@,
            Pattern::Tub => "Tub"@,
        }
    }

    /// The pattern on the board it is meant for: its cells alive and every
    /// other cell dead.
    pub open spec fn grid(self) -> Grid {
        Grid {
            width: self.spec_size().0 as nat,
            height: self.spec_size().1 as nat,
            alive: named_cells(self.layout()),
        }
    }

    /// The live cells of the pattern, counted from 1.
    pub fn coordinates(self) -> (cells: Vec<(usize, usize)>)
        ensures
            cells@ == self.layout(),
    {
        let cells = match self {
            Pattern::Block => vec![(2, 2), (3, 2), (2, 3), (3, 3)],
            Pattern::Blinker => vec![(2, 3), (3, 3), (4, 3)],
            Pattern::Beehive => vec![(3, 2), (4, 2), (2, 3), (4, 3), (3, 4), (4, 4)],
            Pattern::Loaf => vec![(3, 2), (4, 2), (2, 3), (4, 3), (3, 4), (4, 4), (4, 5)],
            Pattern::Toad => vec![(4, 2), (2, 3), (5, 3), (2, 4), (5, 4), (3, 5)],
            Pattern::Beacon => vec![(2, 2), (3, 2), (2, 3), (5, 4), (4, 5), (5, 5)],
            Pattern::Tub => vec![(3, 2), (2, 3), (4, 2), (3, 4)],
        };
        assert(cells@ =~= self.layout());
        cells
    }

    /// The board size the pattern is meant for, width first.
    #[verifier::when_used_as_spec(spec_size)]
    pub fn size(self) -> (size: (usize, usize))
        ensures
            size == self.spec_size(),
    {
        match self {
            Pattern::Block => (4, 4),
            Pattern::Blinker | Pattern::Tub => (5, 5),
            Pattern::Beehive => (6, 5),
            Pattern::Loaf | Pattern::Toad | Pattern::Beacon => (6, 6),
        }
    }

    /// The name the pattern goes by.
    pub fn name(self) -> (name: &'static str)
        ensures
            name@ == self.spec_name(),
    {
        match self {
            Pattern::Block => "Block",
            Pattern::Blinker => "Blinker",
            Pattern::Beehive => "Beehive",
            Pattern::Loaf => "Loaf",
            Pattern::Toad => "Toad",
            Pattern::Beacon => "Beacon",
            Pattern::Tub => "Tub",
        }
    }

    /// Every cell of a pattern lies inside the board its size recommends.
    pub proof fn lemma_layout_fits(self)
        ensures
            forall|k: int|
                0 <= k < self.layout().len() ==> 1 <= (#[trigger] self.layout()[k]).0
                    <= self.spec_size().0 && 1 <= self.layout()[k].1 <= self.spec_size().1,
    {
    }
}

} // verus!
