use vstd::arithmetic::div_mod::{
    lemma_fundamental_div_mod, lemma_fundamental_div_mod_converse, lemma_mod_pos_bound,
};
use vstd::prelude::*;
use vstd::relations::injective_on;
use vstd::set_lib::{lemma_int_range, lemma_len_subset, lemma_map_size, set_int_range};

use crate::cell::CellState;
use crate::error::BoardError;

verus! {

/// Row-major numbering: the cell at `(x, y)` of a board `w` wide and `h` high
/// has the number `x + y * w`, below `w * h`, and the number gives the
/// coordinate back.
pub proof fn lemma_cell_index(w: int, h: int, x: int, y: int)
    requires
        0 <= x < w,
        0 <= y < h,
    ensures
        0 <= x + y * w < w * h,
        (x + y * w) % w == x,
        (x + y * w) / w == y,
{
    assert(0 <= x + y * w < w * h) by (nonlinear_arith)
        requires
            0 <= x < w,
            0 <= y < h,
    ;
    lemma_fundamental_div_mod_converse(x + y * w, w, y, x);
}

/// Row-major numbering the other way: every number below `w * h` is the
/// number of the cell in column `i % w` of row `i / w`.
pub proof fn lemma_index_cell(w: int, h: int, i: int)
    requires
        0 <= i < w * h,
        0 <= h,
        0 < w,
    ensures
        0 <= i % w < w,
        0 <= i / w < h,
        i == i % w + (i / w) * w,
{
    lemma_fundamental_div_mod(i, w);
    lemma_mod_pos_bound(i, w);
    let q = i / w;
    assert(i == i % w + q * w) by (nonlinear_arith)
        requires
            i == w * q + i % w,
    ;
    assert(0 <= q < h) by (nonlinear_arith)
        requires
            0 <= i < w * h,
            0 < w,
            0 <= i - q * w < w,
    ;
}

/// The coordinates, counted from 0, of the cells that a list of pairs
/// counted from 1 names.
pub open spec fn named_cells(pairs: Seq<(usize, usize)>) -> Set<(int, int)> {
    Set::new(
        |p: (int, int)|
            exists|k: int|
                0 <= k < pairs.len() && (#[trigger] pairs[k]).0 == p.0 + 1 && pairs[k].1 == p.1
                    + 1,
    )
}

/// One more pair names one more cell.
pub proof fn lemma_named_cells_push(pairs: Seq<(usize, usize)>, pair: (usize, usize))
    ensures
        named_cells(pairs.push(pair)) == named_cells(pairs).insert((pair.0 - 1, pair.1 - 1)),
{
    let longer = pairs.push(pair);
    let cell = (pair.0 - 1, pair.1 - 1);
    assert forall|p: (int, int)| named_cells(longer).contains(p) implies named_cells(pairs).insert(
        cell,
    ).contains(p) by {
        let k = choose|k: int|
            0 <= k < longer.len() && (#[trigger] longer[k]).0 == p.0 + 1 && longer[k].1 == p.1 + 1;
        if k < pairs.len() {
            assert(pairs[k] == longer[k]);
        }
    }
    assert forall|p: (int, int)| named_cells(pairs).insert(cell).contains(p) implies named_cells(
        longer,
    ).contains(p) by {
        if p == cell {
            assert(longer[pairs.len() as int] == pair);
        } else {
            let k = choose|k: int|
                0 <= k < pairs.len() && (#[trigger] pairs[k]).0 == p.0 + 1 && pairs[k].1 == p.1
                    + 1;
            assert(longer[k] == pairs[k]);
        }
    }
    assert(named_cells(longer) =~= named_cells(pairs).insert(cell));
}

/// The mathematical board: its dimensions and the set of coordinates that
/// hold a live cell. Every other cell inside the rectangle is dead.
pub struct Grid {
    pub width: nat,
    pub height: nat,
    pub alive: Set<(int, int)>,
}

impl Grid {
    /// The board of the given size on which every cell is dead.
    pub open spec fn empty(width: nat, height: nat) -> Grid {
        Grid { width, height, alive: Set::empty() }
    }

    /// `(x, y)` names a cell of the board.
    pub open spec fn in_bounds(self, x: int, y: int) -> bool {
        0 <= x < self.width && 0 <= y < self.height
    }

    /// Every coordinate of the board.
    pub open spec fn cells(self) -> Set<(int, int)> {
        Set::new(|p: (int, int)| self.in_bounds(p.0, p.1))
    }

    /// How many cells the board has.
    pub open spec fn capacity(self) -> nat {
        self.width * self.height
    }

    /// Live cells lie inside the rectangle, and there are finitely many.
    pub open spec fn wf(self) -> bool {
        &&& self.alive.finite()
        &&& forall|p: (int, int)| #[trigger] self.alive.contains(p) ==> self.in_bounds(p.0, p.1)
    }

    /// The state of the cell at `(x, y)`, or `None` outside the board.
    pub open spec fn get(self, x: int, y: int) -> Option<CellState> {
        if !self.in_bounds(x, y) {
            None
        } else if self.alive.contains((x, y)) {
            Some(CellState::Alive)
        } else {
            Some(CellState::Dead)
        }
    }

    /// The state of the cell at `(x, y)`; dead outside the board.
    pub open spec fn state_at(self, x: int, y: int) -> CellState {
        if self.alive.contains((x, y)) {
            CellState::Alive
        } else {
            CellState::Dead
        }
    }

    /// The cells of row `y`, left to right.
    pub open spec fn row(self, y: int) -> Seq<CellState> {
        Seq::new(self.width, |x: int| self.state_at(x, y))
    }

    /// `(x1, y1)` comes before `(x2, y2)` when the board is read row by row,
    /// each row left to right.
    pub open spec fn precedes(x1: int, y1: int, x2: int, y2: int) -> bool {
        y1 < y2 || (y1 == y2 && x1 < x2)
    }

    /// The live cells that come before `(x, y)` in reading order.
    pub open spec fn alive_before(self, x: int, y: int) -> Set<(int, int)> {
        Set::new(|p: (int, int)| self.alive.contains(p) && Self::precedes(p.0, p.1, x, y))
    }

    /// The board with the cell at `(x, y)` put into `state`.
    pub open spec fn with_cell(self, x: int, y: int, state: CellState) -> Grid {
        Grid {
            width: self.width,
            height: self.height,
            alive: match state {
                CellState::Alive => self.alive.insert((x, y)),
                CellState::Dead => self.alive.remove((x, y)),
            },
        }
    }

    /// 1 if `(x, y)` holds a live cell, 0 if it is dead or off the board.
    pub open spec fn occupancy(self, x: int, y: int) -> nat {
        if self.alive.contains((x, y)) {
            1
        } else {
            0
        }
    }

    /// How many of the eight cells around `(x, y)` are alive.
    pub open spec fn live_neighbors(self, x: int, y: int) -> nat {
        self.occupancy(x - 1, y - 1) + self.occupancy(x, y - 1) + self.occupancy(x + 1, y - 1)
            + self.occupancy(x - 1, y) + self.occupancy(x + 1, y) + self.occupancy(x - 1, y + 1)
            + self.occupancy(x, y + 1) + self.occupancy(x + 1, y + 1)
    }

    /// Whether `(x, y)` holds a live cell in the next generation: a live
    /// cell stays alive with two or three live neighbours, a dead cell comes
    /// alive with exactly three.
    pub open spec fn alive_next(self, x: int, y: int) -> bool {
        &&& self.in_bounds(x, y)
        &&& if self.alive.contains((x, y)) {
            self.live_neighbors(x, y) == 2 || self.live_neighbors(x, y) == 3
        } else {
            self.live_neighbors(x, y) == 3
        }
    }

    /// The next generation, every cell of it decided from `self` alone.
    pub open spec fn step(self) -> Grid {
        Grid {
            width: self.width,
            height: self.height,
            alive: Set::new(|p: (int, int)| self.alive_next(p.0, p.1)),
        }
    }

    /// The state of `(x, y)` in the next generation.
    pub open spec fn next_state(self, x: int, y: int) -> CellState {
        if self.alive_next(x, y) {
            CellState::Alive
        } else {
            CellState::Dead
        }
    }

    /// The cell at `(x, y)` is not in the next generation what it is now.
    pub open spec fn flips(self, x: int, y: int) -> bool {
        self.in_bounds(x, y) && self.alive_next(x, y) != self.alive.contains((x, y))
    }

    /// `pair`, counted from 1, names a cell of the board.
    pub open spec fn names_cell(self, pair: (usize, usize)) -> bool {
        1 <= pair.0 <= self.width && 1 <= pair.1 <= self.height
    }

    /// `pairs[k]` is the first pair of the list that names no cell of the
    /// board.
    pub open spec fn first_stray(self, pairs: Seq<(usize, usize)>, k: int) -> bool {
        &&& 0 <= k < pairs.len()
        &&& !self.names_cell(pairs[k])
        &&& forall|j: int| 0 <= j < k ==> self.names_cell(#[trigger] pairs[j])
    }

    /// The board with the cells of `more` alive as well.
    pub open spec fn with_cells(self, more: Set<(int, int)>) -> Grid {
        Grid { width: self.width, height: self.height, alive: self.alive.union(more) }
    }

    /// The error that reports `(x, y)` as lying off this board.
    pub open spec fn out_of_bounds(self, x: usize, y: usize) -> BoardError {
        BoardError::OutOfBounds {
            x,
            y,
            width: self.width as usize,
            height: self.height as usize,
        }
    }

    /// The number of live cells.
    pub open spec fn live_count(self) -> nat {
        self.alive.len()
    }

    /// The number of dead cells.
    pub open spec fn dead_count(self) -> nat {
        (self.capacity() - self.live_count()) as nat
    }

    /// A board `width` wide and `height` high has `width * height` cells.
    pub proof fn lemma_cells_len(self)
        ensures
            self.cells().finite(),
            self.cells().len() == self.capacity(),
    {
        let w = self.width as int;
        let h = self.height as int;
        if w == 0 {
            assert(self.cells() =~= Set::empty());
            assert(w * h == 0);
        } else {
            assert(0 <= w * h) by (nonlinear_arith)
                requires
                    0 <= w,
                    0 <= h,
            ;
            let numbers = set_int_range(0, w * h);
            let place = |i: int| (i % w, i / w);
            lemma_int_range(0, w * h);
            assert forall|p: (int, int)| self.cells().contains(p) implies numbers.map(
                place,
            ).contains(p) by {
                lemma_cell_index(w, h, p.0, p.1);
                let i = p.0 + p.1 * w;
                assert(numbers.contains(i) && place(i) == p);
            }
            assert forall|p: (int, int)| numbers.map(place).contains(p) implies self.cells().contains(
                p,
            ) by {
                let i = choose|i: int| numbers.contains(i) && p == place(i);
                lemma_index_cell(w, h, i);
            }
            assert(numbers.map(place) =~= self.cells());
            assert(injective_on(place, numbers)) by {
                assert forall|i: int, j: int|
                    numbers.contains(i) && numbers.contains(j) && #[trigger] place(i)
                        == #[trigger] place(j) implies i == j by {
                    lemma_index_cell(w, h, i);
                    lemma_index_cell(w, h, j);
                }
            }
            lemma_map_size(numbers, self.cells(), place);
        }
    }

    /// A board never holds more live cells than it has cells.
    pub proof fn lemma_live_count_bounded(self)
        requires
            self.wf(),
        ensures
            self.live_count() <= self.capacity(),
            self.live_count() + self.dead_count() == self.capacity(),
    {
        self.lemma_cells_len();
        lemma_len_subset(self.alive, self.cells());
    }

    /// A board with a live cell at every coordinate holds as many live cells
    /// as it has cells.
    pub proof fn lemma_full_board(self)
        requires
            self.wf(),
            forall|x: int, y: int| self.in_bounds(x, y) ==> #[trigger] self.alive.contains((x, y)),
        ensures
            self.live_count() == self.capacity(),
    {
        self.lemma_cells_len();
        assert(self.alive =~= self.cells());
    }
}

} // verus!
