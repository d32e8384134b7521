use vstd::prelude::*;

use crate::board::Conway;
use crate::cell::CellState;
use crate::error::{BoardError, Revival};
use crate::grid::{lemma_named_cells_push, named_cells, Grid};
use crate::pattern::Pattern;
use rand::rngs::StdRng;

verus! {

/// How many draws one random placement may spend on cells that turn out to
/// be alive already. Past that many the placement stops drawing and takes
/// the first dead cell in reading order, so that seeding always ends.
pub const DRAW_LIMIT: u64 = 0xFFFF_FFFF_FFFF_FFFF;

/// How a fresh board gets its first generation.
#[derive(Debug)]
pub enum Seeding {
    /// A starter pattern, on the board size it recommends.
    Preset(Pattern),
    /// The listed cells, each a pair counted from 1.
    Cells(Vec<(usize, usize)>),
    /// That many live cells, placed at random.
    RandomCount(usize),
    /// A coin toss for every cell.
    RandomFill,
}

/// Picks the seeding from what was asked for: a pattern comes before a list
/// of cells, a list before a count, and with none of them every cell gets a
/// coin toss.
pub fn choose_seeding(
    pattern: Option<Pattern>,
    cells: Option<Vec<(usize, usize)>>,
    num_cells: Option<usize>,
) -> (seeding: Seeding)
    ensures
        seeding == match (pattern, cells, num_cells) {
            (Some(preset), _, _) => Seeding::Preset(preset),
            (None, Some(list), _) => Seeding::Cells(list),
            (None, None, Some(count)) => Seeding::RandomCount(count),
            (None, None, None) => Seeding::RandomFill,
        },
{
    match pattern {
        Some(preset) => Seeding::Preset(preset),
        None => match cells {
            Some(list) => Seeding::Cells(list),
            None => match num_cells {
                Some(count) => Seeding::RandomCount(count),
                None => Seeding::RandomFill,
            },
        },
    }
}

impl Conway {
    /// Brings every listed cell to life, in order; the pairs count from 1.
    /// The first pair that names no cell of the board stops the work and is
    /// reported as it was given: the pairs before it have been revived, the
    /// ones after it have not been looked at. Otherwise the answer is how
    /// many cells came to life, which falls short of the length of the list
    /// by the pairs that named a live cell.
    pub fn revive_all(&mut self, pairs: &Vec<(usize, usize)>) -> (outcome: Result<
        usize,
        BoardError,
    >)
        ensures
            final(self)@.wf(),
            match outcome {
                Ok(revived) => {
                    &&& forall|k: int|
                        0 <= k < pairs@.len() ==> old(self)@.names_cell(#[trigger] pairs@[k])
                    &&& final(self)@ == old(self)@.with_cells(named_cells(pairs@))
                    &&& revived == final(self)@.live_count() - old(self)@.live_count()
                },
                Err(error) => exists|k: int|
                    {
                        &&& #[trigger] old(self)@.first_stray(pairs@, k)
                        &&& error == old(self)@.out_of_bounds(pairs@[k].0, pairs@[k].1)
                        &&& final(self)@ == old(self)@.with_cells(named_cells(pairs@.take(k)))
                    },
            },
    {
        proof {
            self.lemma_view_wf();
        }
        let width = self.width();
        let height = self.height();
        let mut revived: usize = 0;
        let mut k: usize = 0;
        assert(self@.alive.union(named_cells(pairs@.take(0))) =~= self@.alive);
        while k < pairs.len()
            invariant
                k <= pairs@.len(),
                revived <= k,
                width == old(self)@.width,
                height == old(self)@.height,
                self@.wf(),
                old(self)@.wf(),
                forall|j: int| 0 <= j < k ==> old(self)@.names_cell(#[trigger] pairs@[j]),
                self@ == old(self)@.with_cells(named_cells(pairs@.take(k as int))),
                revived == self@.live_count() - old(self)@.live_count(),
            decreases pairs@.len() - k,
        {
            let (x, y) = pairs[k];
            if x == 0 || x > width || y == 0 || y > height {
                assert(old(self)@.first_stray(pairs@, k as int));
                return Err(BoardError::OutOfBounds { x, y, width, height });
            }
            let ghost earlier = self@;
            if let Ok(Revival::Revived) = self.revive_cell(x - 1, y - 1) {
                revived += 1;
            }
            proof {
                lemma_named_cells_push(pairs@.take(k as int), (x, y));
                assert(pairs@.take(k + 1) =~= pairs@.take(k as int).push((x, y)));
                assert(self@.alive =~= earlier.alive.insert((x - 1, y - 1)));
                assert(self@.alive =~= old(self)@.alive.union(named_cells(pairs@.take(k + 1))));
            }
            k += 1;
        }
        assert(pairs@.take(k as int) =~= pairs@);
        Ok(revived)
    }

    /// A board of the size that `pattern` recommends, with the cells of the
    /// pattern alive and every other cell dead.
    pub fn with_pattern(pattern: Pattern, rng: StdRng) -> (board: Conway)
        ensures
            board@.wf(),
            board@ == pattern.grid(),
    {
        let (width, height) = pattern.size();
        let mut board = Conway::new(width, height, rng);
        let cells = pattern.coordinates();
        proof {
            pattern.lemma_layout_fits();
        }
        let _ = board.revive_all(&cells);
        assert(board@.alive =~= named_cells(pattern.layout()));
        board
    }

    /// Makes a board and gives it its first generation. A pattern brings its
    /// own size; every other seeding fills a board `width` wide and `height`
    /// high.
    pub fn seeded(width: usize, height: usize, rng: StdRng, seeding: &Seeding) -> (outcome: Result<
        Conway,
        BoardError,
    >)
        requires
            width * height <= usize::MAX,
        ensures
            outcome is Ok ==> outcome->Ok_0@.wf(),
            match *seeding {
                Seeding::Preset(pattern) => outcome is Ok && outcome->Ok_0@ == pattern.grid(),
                Seeding::Cells(pairs) => {
                    let blank = Grid::empty(width as nat, height as nat);
                    match outcome {
                        Ok(board) => {
                            &&& forall|k: int|
                                0 <= k < pairs@.len() ==> blank.names_cell(#[trigger] pairs@[k])
                            &&& board@ == blank.with_cells(named_cells(pairs@))
                        },
                        Err(error) => exists|k: int|
                            {
                                &&& #[trigger] blank.first_stray(pairs@, k)
                                &&& error == blank.out_of_bounds(pairs@[k].0, pairs@[k].1)
                            },
                    }
                },
                Seeding::RandomCount(count) => if count <= width * height {
                    &&& outcome is Ok
                    &&& outcome->Ok_0@.width == width
                    &&& outcome->Ok_0@.height == height
                    &&& outcome->Ok_0@.live_count() == count
                } else {
                    outcome == Err::<Conway, BoardError>(
                        BoardError::TooManyCells {
                            requested: count,
                            available: (width * height) as usize,
                        },
                    )
                },
                Seeding::RandomFill => {
                    &&& outcome is Ok
                    &&& outcome->Ok_0@.width == width
                    &&& outcome->Ok_0@.height == height
                },
            },
    {
        match seeding {
            Seeding::Preset(pattern) => Ok(Conway::with_pattern(*pattern, rng)),
            Seeding::Cells(pairs) => {
                let mut board = Conway::new(width, height, rng);
                match board.revive_all(pairs) {
                    Ok(_) => Ok(board),
                    Err(error) => Err(error),
                }
            },
            Seeding::RandomCount(count) => {
                let mut board = Conway::new(width, height, rng);
                match board.generate_board(*count) {
                    Ok(()) => Ok(board),
                    Err(error) => Err(error),
                }
            },
            Seeding::RandomFill => {
                let mut board = Conway::new(width, height, rng);
                board.generate_random_board();
                Ok(board)
            },
        }
    }

    /// Brings one dead cell to life: cells are drawn at random until one of
    /// them is dead. After `DRAW_LIMIT` draws that all hit live cells, the
    /// first dead cell in reading order is taken instead.
    fn place_random_cell(&mut self)
        requires
            old(self)@.wf(),
            old(self)@.live_count() < old(self)@.capacity(),
        ensures
            final(self)@.wf(),
            final(self)@.width == old(self)@.width,
            final(self)@.height == old(self)@.height,
            old(self)@.alive.subset_of(final(self)@.alive),
            final(self)@.live_count() == old(self)@.live_count() + 1,
    {
        let mut draws: u64 = 0;
        while draws < DRAW_LIMIT
            invariant
                self@ == old(self)@,
                self@.wf(),
                self@.capacity() > 0,
            decreases DRAW_LIMIT - draws,
        {
            let (x, y) = self.draw_cell();
            if let Ok(Revival::Revived) = self.revive_cell(x, y) {
                return ;
            }
            draws += 1;
        }
        if let Some((x, y)) = self.first_dead_cell() {
            let _ = self.revive_cell(x, y);
        }
    }

    /// Brings `cells` more cells to life, each drawn at random among the
    /// dead ones. Asking for more than the board has dead cells is refused
    /// before anything is drawn, and the board stays as it was.
    pub fn generate_board(&mut self, cells: usize) -> (outcome: Result<(), BoardError>)
        ensures
            final(self)@.wf(),
            final(self)@.width == old(self)@.width,
            final(self)@.height == old(self)@.height,
            cells <= old(self)@.dead_count() ==> {
                &&& outcome is Ok
                &&& old(self)@.alive.subset_of(final(self)@.alive)
                &&& final(self)@.live_count() == old(self)@.live_count() + cells
            },
            cells > old(self)@.dead_count() ==> {
                &&& outcome == Err::<(), BoardError>(
                    BoardError::TooManyCells {
                        requested: cells,
                        available: old(self)@.dead_count() as usize,
                    },
                )
                &&& final(self)@ == old(self)@
            },
    {
        proof {
            self.lemma_view_wf();
        }
        let available = self.capacity() - self.population();
        if cells > available {
            return Err(BoardError::TooManyCells { requested: cells, available });
        }
        let mut placed: usize = 0;
        while placed < cells
            invariant
                placed <= cells,
                self@.wf(),
                self@.width == old(self)@.width,
                self@.height == old(self)@.height,
                old(self)@.alive.subset_of(self@.alive),
                self@.live_count() == old(self)@.live_count() + placed,
                old(self)@.live_count() + cells <= old(self)@.capacity(),
            decreases cells - placed,
        {
            self.place_random_cell();
            placed += 1;
        }
        Ok(())
    }

    /// Settles one cell by a coin toss: face 0 brings the cell at `(x, y)` to
    /// life, any other face leaves the board as it is.
    pub fn apply_toss(&mut self, x: usize, y: usize, face: i32)
        ensures
            final(self)@.wf(),
            final(self)@ == if face == 0 && old(self)@.in_bounds(x as int, y as int) {
                old(self)@.with_cell(x as int, y as int, CellState::Alive)
            } else {
                old(self)@
            },
    {
        proof {
            self.lemma_view_wf();
        }
        if face == 0 {
            let _ = self.set_cell(x, y, CellState::Alive);
        }
    }

    /// Visits every cell once, row by row, and brings it to life on a coin
    /// toss. No cell that was alive dies of it.
    pub fn generate_random_board(&mut self)
        ensures
            final(self)@.wf(),
            final(self)@.width == old(self)@.width,
            final(self)@.height == old(self)@.height,
            old(self)@.alive.subset_of(final(self)@.alive),
    {
        proof {
            self.lemma_view_wf();
        }
        let width = self.width();
        let height = self.height();
        let mut y: usize = 0;
        while y < height
            invariant
                self@.wf(),
                self@.width == old(self)@.width == width,
                self@.height == old(self)@.height == height,
                old(self)@.alive.subset_of(self@.alive),
            decreases height - y,
        {
            let mut x: usize = 0;
            while x < width
                invariant
                    self@.wf(),
                    self@.width == old(self)@.width == width,
                    self@.height == old(self)@.height == height,
                    old(self)@.alive.subset_of(self@.alive),
                decreases width - x,
            {
                let face = self.toss_coin();
                self.apply_toss(x, y, face);
                x += 1;
            }
            y += 1;
        }
    }
}

} // verus!
