use rand::rngs::StdRng;
use vstd::prelude::*;
use vstd::set_lib::lemma_set_subset_finite;

use crate::cell::CellState;
use crate::error::{BoardError, Revival};
use crate::grid::{lemma_cell_index, Grid};
use crate::random::{draw_below, toss};

verus! {

/// A Game of Life board: `width * height` cells in row-major order, and the
/// random generator that seeds it.
pub struct Conway {
    cells: Vec<CellState>,
    rng: StdRng,
    width: usize,
    height: usize,
}

/// The live coordinates that a row-major vector of cells stands for.
spec fn live_cells(cells: Seq<CellState>, w: int, h: int) -> Set<(int, int)> {
    Set::new(
        |p: (int, int)|
            0 <= p.0 < w && 0 <= p.1 < h && cells[p.0 + p.1 * w] == CellState::Alive,
    )
}

impl View for Conway {
    type V = Grid;

    closed spec fn view(&self) -> Grid {
        Grid {
            width: self.width as nat,
            height: self.height as nat,
            alive: live_cells(self.cells@, self.width as int, self.height as int),
        }
    }
}

impl Conway {
    #[verifier::type_invariant]
    spec fn inv(&self) -> bool {
        self.cells@.len() == self.width * self.height <= usize::MAX
    }

    /// Whatever has been done to a board, its live cells lie on the board and
    /// there are finitely many of them.
    pub proof fn lemma_view_wf(&self)
        ensures
            self@.wf(),
    {
        self@.lemma_cells_len();
        lemma_set_subset_finite(self@.cells(), self@.alive);
    }

    /// A board of the given size with every cell dead.
    pub fn new(width: usize, height: usize, rng: StdRng) -> (board: Conway)
        requires
            width * height <= usize::MAX,
        ensures
            board@ == Grid::empty(width as nat, height as nat),
            board@.wf(),
    {
        let cells = vec![CellState::Dead; width * height];
        let board = Conway { cells, rng, width, height };
        proof {
            assert forall|p: (int, int)| !board@.alive.contains(p) by {
                if 0 <= p.0 < width && 0 <= p.1 < height {
                    lemma_cell_index(width as int, height as int, p.0, p.1);
                }
            }
            assert(board@.alive =~= Set::empty());
        }
        board
    }

    /// The width the board was made with.
    pub fn width(&self) -> (w: usize)
        ensures
            w == self@.width,
    {
        self.width
    }

    /// The height the board was made with.
    pub fn height(&self) -> (h: usize)
        ensures
            h == self@.height,
    {
        self.height
    }

    /// How many cells the board has.
    pub fn capacity(&self) -> (cells: usize)
        ensures
            cells == self@.capacity(),
    {
        proof {
            use_type_invariant(self);
        }
        self.cells.len()
    }

    /// The state of the cell at `(x, y)`, or `None` where the board has no
    /// such cell.
    pub fn get_cell(&self, x: usize, y: usize) -> (cell: Option<CellState>)
        ensures
            cell == self@.get(x as int, y as int),
    {
        proof {
            use_type_invariant(self);
        }
        if x < self.width && y < self.height {
            proof {
                lemma_cell_index(self.width as int, self.height as int, x as int, y as int);
            }
            Some(self.cells[x + y * self.width])
        } else {
            None
        }
    }

    /// Draws a cell of the board at random, its column first and then its
    /// row. The board itself stays as it is; only the generator moves on.
    pub(crate) fn draw_cell(&mut self) -> (cell: (usize, usize))
        requires
            old(self)@.capacity() > 0,
        ensures
            final(self)@ == old(self)@,
            old(self)@.in_bounds(cell.0 as int, cell.1 as int),
    {
        proof {
            use_type_invariant(&*self);
            assert(self.width > 0 && self.height > 0) by (nonlinear_arith)
                requires
                    self.width * self.height > 0,
            ;
        }
        let x = draw_below(&mut self.rng, self.width);
        let y = draw_below(&mut self.rng, self.height);
        (x, y)
    }

    /// Tosses the board's coin: 0 or 1. The board itself stays as it is.
    pub(crate) fn toss_coin(&mut self) -> (face: i32)
        ensures
            final(self)@ == old(self)@,
            face == 0 || face == 1,
    {
        proof {
            use_type_invariant(&*self);
        }
        toss(&mut self.rng)
    }

    /// How many cells are alive.
    pub fn population(&self) -> (count: usize)
        ensures
            count == self@.live_count(),
            count <= self@.capacity(),
    {
        proof {
            use_type_invariant(self);
            self.lemma_view_wf();
        }
        let ghost grid = self@;
        let mut count: usize = 0;
        let mut y: usize = 0;
        assert(grid.alive_before(0, 0) =~= Set::empty());
        while y < self.height
            invariant
                grid == self@,
                grid.wf(),
                y <= self.height,
                self.width * self.height <= usize::MAX,
                grid.alive_before(0, y as int).finite(),
                count == grid.alive_before(0, y as int).len(),
                count <= y * self.width,
            decreases self.height - y,
        {
            let mut x: usize = 0;
            while x < self.width
                invariant
                    grid == self@,
                    grid.wf(),
                    y < self.height,
                    x <= self.width,
                    self.width * self.height <= usize::MAX,
                    grid.alive_before(x as int, y as int).finite(),
                    count == grid.alive_before(x as int, y as int).len(),
                    count <= x + y * self.width,
                decreases self.width - x,
            {
                proof {
                    lemma_cell_index(self.width as int, self.height as int, x as int, y as int);
                }
                if let Some(CellState::Alive) = self.get_cell(x, y) {
                    assert(grid.alive_before(x + 1, y as int) =~= grid.alive_before(
                        x as int,
                        y as int,
                    ).insert((x as int, y as int)));
                    count += 1;
                } else {
                    assert(grid.alive_before(x + 1, y as int) =~= grid.alive_before(
                        x as int,
                        y as int,
                    ));
                }
                x += 1;
            }
            assert(grid.alive_before(0, y + 1) =~= grid.alive_before(x as int, y as int));
            assert((y + 1) * self.width == self.width + y * self.width) by (nonlinear_arith);
            y += 1;
        }
        assert(grid.alive_before(0, y as int) =~= grid.alive);
        assert(y * self.width <= self.width * self.height) by (nonlinear_arith)
            requires
                y <= self.height,
        ;
        count
    }

    /// The first dead cell in reading order, row by row and left to right in
    /// each; `None` when every cell is alive.
    pub fn first_dead_cell(&self) -> (found: Option<(usize, usize)>)
        ensures
            match found {
                Some((x, y)) => {
                    &&& self@.get(x as int, y as int) == Some(CellState::Dead)
                    &&& forall|px: int, py: int|
                        self@.in_bounds(px, py) && Grid::precedes(px, py, x as int, y as int)
                            ==> #[trigger] self@.alive.contains((px, py))
                },
                None => self@.live_count() == self@.capacity(),
            },
    {
        proof {
            use_type_invariant(self);
            self.lemma_view_wf();
        }
        let ghost grid = self@;
        let mut y: usize = 0;
        while y < self.height
            invariant
                grid == self@,
                grid.wf(),
                y <= self.height,
                forall|px: int, py: int|
                    grid.in_bounds(px, py) && py < y ==> #[trigger] grid.alive.contains((px, py)),
            decreases self.height - y,
        {
            let mut x: usize = 0;
            while x < self.width
                invariant
                    grid == self@,
                    grid.wf(),
                    y < self.height,
                    x <= self.width,
                    forall|px: int, py: int|
                        grid.in_bounds(px, py) && Grid::precedes(px, py, x as int, y as int)
                            ==> #[trigger] grid.alive.contains((px, py)),
                decreases self.width - x,
            {
                if let Some(CellState::Dead) = self.get_cell(x, y) {
                    return Some((x, y));
                }
                x += 1;
            }
            y += 1;
        }
        proof {
            grid.lemma_full_board();
        }
        None
    }

    /// The state of a cell that is known to be on the board.
    fn state_at(&self, x: usize, y: usize) -> (state: CellState)
        requires
            self@.in_bounds(x as int, y as int),
        ensures
            state == self@.state_at(x as int, y as int),
    {
        proof {
            use_type_invariant(self);
            lemma_cell_index(self.width as int, self.height as int, x as int, y as int);
        }
        self.cells[x + y * self.width]
    }

    /// The cells of row `y`, left to right.
    fn row(&self, y: usize) -> (cells: Vec<CellState>)
        requires
            y < self@.height,
        ensures
            cells@ == self@.row(y as int),
    {
        let mut cells: Vec<CellState> = Vec::new();
        let mut x: usize = 0;
        while x < self.width
            invariant
                y < self.height,
                x <= self.width,
                cells@.len() == x,
                forall|k: int| 0 <= k < x ==> cells@[k] == self@.state_at(k, y as int),
            decreases self.width - x,
        {
            cells.push(self.state_at(x, y));
            x += 1;
        }
        assert(cells@ =~= self@.row(y as int));
        cells
    }

    /// The whole board for display: its rows from the top, each row's cells
    /// left to right.
    pub fn rows(&self) -> (rows: Vec<Vec<CellState>>)
        ensures
            rows@.len() == self@.height,
            forall|y: int| 0 <= y < rows@.len() ==> (#[trigger] rows@[y])@ == self@.row(y),
    {
        let mut rows: Vec<Vec<CellState>> = Vec::new();
        let mut y: usize = 0;
        while y < self.height
            invariant
                y <= self.height,
                rows@.len() == y,
                forall|k: int| 0 <= k < y ==> (#[trigger] rows@[k])@ == self@.row(k),
            decreases self.height - y,
        {
            rows.push(self.row(y));
            y += 1;
        }
        rows
    }

    /// Puts the cell at `(x, y)` into `state`. A coordinate off the board is
    /// refused and nothing changes.
    pub fn set_cell(&mut self, x: usize, y: usize, state: CellState) -> (outcome: Result<
        (),
        BoardError,
    >)
        ensures
            final(self)@.wf(),
            old(self)@.in_bounds(x as int, y as int) ==> outcome is Ok && final(self)@ == old(
                self,
            )@.with_cell(x as int, y as int, state),
            !old(self)@.in_bounds(x as int, y as int) ==> outcome == Err::<(), BoardError>(
                old(self)@.out_of_bounds(x, y),
            ) && final(self)@ == old(self)@,
    {
        proof {
            use_type_invariant(&*self);
            self.lemma_view_wf();
        }
        if x >= self.width || y >= self.height {
            return Err(BoardError::OutOfBounds { x, y, width: self.width, height: self.height });
        }
        proof {
            lemma_cell_index(self.width as int, self.height as int, x as int, y as int);
        }
        let index = x + y * self.width;
        self.cells[index] = state;
        proof {
            let w = self.width as int;
            let h = self.height as int;
            let before = old(self)@;
            let after = self@;
            assert forall|p: (int, int)|
                after.alive.contains(p) == before.with_cell(
                    x as int,
                    y as int,
                    state,
                ).alive.contains(p) by {
                if 0 <= p.0 < w && 0 <= p.1 < h {
                    lemma_cell_index(w, h, p.0, p.1);
                }
            }
            assert(after.alive =~= before.with_cell(x as int, y as int, state).alive);
            self.lemma_view_wf();
        }
        Ok(())
    }

    /// Marks the cell at `(x, y)` alive, and says whether it was dead before.
    /// Reviving a live cell is no error: it changes nothing and says so. A
    /// coordinate off the board is refused and nothing changes.
    pub fn revive_cell(&mut self, x: usize, y: usize) -> (outcome: Result<Revival, BoardError>)
        ensures
            final(self)@.wf(),
            match old(self)@.get(x as int, y as int) {
                None => outcome == Err::<Revival, BoardError>(old(self)@.out_of_bounds(x, y))
                    && final(self)@ == old(self)@,
                Some(CellState::Alive) => outcome == Ok::<Revival, BoardError>(
                    Revival::AlreadyAlive,
                ) && final(self)@ == old(self)@,
                Some(CellState::Dead) => outcome == Ok::<Revival, BoardError>(Revival::Revived)
                    && final(self)@ == old(self)@.with_cell(x as int, y as int, CellState::Alive),
            },
    {
        proof {
            self.lemma_view_wf();
        }
        match self.get_cell(x, y) {
            None => Err(
                BoardError::OutOfBounds { x, y, width: self.width, height: self.height },
            ),
            Some(CellState::Alive) => Ok(Revival::AlreadyAlive),
            Some(CellState::Dead) => {
                let _ = self.set_cell(x, y, CellState::Alive);
                Ok(Revival::Revived)
            },
        }
    }

    /// 1 if the cell one step from `(x, y)` in the direction `(dx, dy)` is
    /// alive, 0 if it is dead or there is no such cell.
    fn occupancy_at(&self, x: usize, y: usize, dx: i8, dy: i8) -> (count: usize)
        requires
            self@.in_bounds(x as int, y as int),
            -1 <= dx <= 1,
            -1 <= dy <= 1,
        ensures
            count == self@.occupancy(x + dx, y + dy),
    {
        if (dx < 0 && x == 0) || (dy < 0 && y == 0) {
            return 0;
        }
        let nx = if dx < 0 {
            x - 1
        } else if dx > 0 {
            x + 1
        } else {
            x
        };
        let ny = if dy < 0 {
            y - 1
        } else if dy > 0 {
            y + 1
        } else {
            y
        };
        match self.get_cell(nx, ny) {
            Some(CellState::Alive) => 1,
            _ => 0,
        }
    }

    /// The live cells among the eight around `(x, y)`, offsets taken row by
    /// row from the top left.
    fn count_around(&self, x: usize, y: usize) -> (count: usize)
        requires
            self@.in_bounds(x as int, y as int),
        ensures
            count == self@.live_neighbors(x as int, y as int),
            count <= 8,
    {
        let mut neighbors: usize = 0;
        neighbors += self.occupancy_at(x, y, -1, -1);
        neighbors += self.occupancy_at(x, y, 0, -1);
        neighbors += self.occupancy_at(x, y, 1, -1);
        neighbors += self.occupancy_at(x, y, -1, 0);
        neighbors += self.occupancy_at(x, y, 1, 0);
        neighbors += self.occupancy_at(x, y, -1, 1);
        neighbors += self.occupancy_at(x, y, 0, 1);
        neighbors += self.occupancy_at(x, y, 1, 1);
        neighbors
    }

    /// How many of the up to eight cells around `(x, y)` are alive. The board
    /// does not wrap, so a cell on an edge has fewer neighbours to count. A
    /// coordinate off the board is refused.
    pub fn neighbors(&self, x: usize, y: usize) -> (outcome: Result<usize, BoardError>)
        ensures
            self@.in_bounds(x as int, y as int) ==> outcome == Ok::<usize, BoardError>(
                self@.live_neighbors(x as int, y as int) as usize,
            ) && self@.live_neighbors(x as int, y as int) <= 8,
            !self@.in_bounds(x as int, y as int) ==> outcome == Err::<usize, BoardError>(
                self@.out_of_bounds(x, y),
            ),
    {
        if self.get_cell(x, y).is_none() {
            return Err(BoardError::OutOfBounds { x, y, width: self.width, height: self.height });
        }
        Ok(self.count_around(x, y))
    }

    /// What the rule makes of the cell at `(x, y)`: `Some` of its new state
    /// if that differs from the present one, `None` if the cell stays as it is.
    fn transition(&self, x: usize, y: usize) -> (change: Option<CellState>)
        requires
            self@.in_bounds(x as int, y as int),
        ensures
            change is Some <==> self@.flips(x as int, y as int),
            change is Some ==> change->0 == self@.next_state(x as int, y as int),
    {
        let neighbors = self.count_around(x, y);
        match self.state_at(x, y) {
            CellState::Alive => {
                if neighbors < 2 || neighbors > 3 {
                    Some(CellState::Dead)
                } else {
                    None
                }
            },
            CellState::Dead => {
                if neighbors == 3 {
                    Some(CellState::Alive)
                } else {
                    None
                }
            },
        }
    }

    /// Advances the board by one generation and says whether any cell
    /// changed. Every cell is decided from the generation as it stood before
    /// the call: the changes are collected first and applied afterwards.
    pub fn tick(&mut self) -> (changed: bool)
        ensures
            final(self)@ == old(self)@.step(),
            final(self)@.wf(),
            changed == (old(self)@.step() != old(self)@),
    {
        proof {
            use_type_invariant(&*self);
            self.lemma_view_wf();
        }
        let ghost before = self@;
        let mut changes: Vec<(usize, usize, CellState)> = Vec::new();
        let mut y: usize = 0;
        while y < self.height
            invariant
                self@ == before,
                before.wf(),
                y <= self.height,
                recorded(before, changes@),
                forall|cx: int, cy: int|
                    0 <= cy < y && #[trigger] before.flips(cx, cy) ==> listed(changes@, cx, cy),
            decreases self.height - y,
        {
            let mut x: usize = 0;
            while x < self.width
                invariant
                    self@ == before,
                    before.wf(),
                    y < self.height,
                    x <= self.width,
                    recorded(before, changes@),
                    forall|cx: int, cy: int|
                        0 <= cy < y && #[trigger] before.flips(cx, cy) ==> listed(
                            changes@,
                            cx,
                            cy,
                        ),
                    forall|cx: int|
                        0 <= cx < x && #[trigger] before.flips(cx, y as int) ==> listed(
                            changes@,
                            cx,
                            y as int,
                        ),
                decreases self.width - x,
            {
                let ghost earlier = changes@;
                if let Some(state) = self.transition(x, y) {
                    changes.push((x, y, state));
                    proof {
                        lemma_listed_push(earlier, (x, y, state));
                    }
                }
                x += 1;
            }
            y += 1;
        }
        let changed = changes.len() > 0;
        let mut k: usize = 0;
        while k < changes.len()
            invariant
                k <= changes.len(),
                before.wf(),
                self@.wf(),
                self@.width == before.width,
                self@.height == before.height,
                recorded(before, changes@),
                forall|p: (int, int)|
                    #![trigger self@.alive.contains(p)]
                    self@.alive.contains(p) == before.alive.contains(p) || self@.alive.contains(p)
                        == before.alive_next(p.0, p.1),
                forall|j: int|
                    0 <= j < k ==> self@.alive.contains(
                        ((#[trigger] changes[j]).0 as int, changes[j].1 as int),
                    ) == before.alive_next(changes[j].0 as int, changes[j].1 as int),
            decreases changes.len() - k,
        {
            let (x, y, state) = changes[k];
            let _ = self.set_cell(x, y, state);
            k += 1;
        }
        proof {
            let after = self@;
            assert forall|p: (int, int)|
                after.alive.contains(p) == before.step().alive.contains(p) by {
                if before.flips(p.0, p.1) {
                    let j = choose|j: int|
                        0 <= j < changes@.len() && (#[trigger] changes@[j]).0 == p.0
                            && changes@[j].1 == p.1;
                    assert(after.alive.contains((changes[j].0 as int, changes[j].1 as int))
                        == before.alive_next(changes[j].0 as int, changes[j].1 as int));
                }
            }
            assert(after.alive =~= before.step().alive);
            if changed {
                let first = changes@[0];
                assert(before.step().alive.contains((first.0 as int, first.1 as int))
                    != before.alive.contains((first.0 as int, first.1 as int)));
            } else {
                assert forall|p: (int, int)|
                    before.step().alive.contains(p) == before.alive.contains(p) by {
                    if before.flips(p.0, p.1) {
                        assert(listed(changes@, p.0, p.1));
                    }
                }
                assert(before.step().alive =~= before.alive);
            }
        }
        changed
    }
}

/// Some entry of `changes` names the cell `(x, y)`.
spec fn listed(changes: Seq<(usize, usize, CellState)>, x: int, y: int) -> bool {
    exists|k: int|
        0 <= k < changes.len() && (#[trigger] changes[k]).0 == x && changes[k].1 == y
}

/// Every entry of `changes` names a cell of `grid` that is about to change,
/// together with the state it changes to.
spec fn recorded(grid: Grid, changes: Seq<(usize, usize, CellState)>) -> bool {
    forall|k: int|
        0 <= k < changes.len() ==> grid.flips(
            (#[trigger] changes[k]).0 as int,
            changes[k].1 as int,
        ) && changes[k].2 == grid.next_state(changes[k].0 as int, changes[k].1 as int)
}

/// Appending an entry lists its cell and keeps every cell listed so far.
proof fn lemma_listed_push(changes: Seq<(usize, usize, CellState)>, entry: (usize, usize, CellState))
    ensures
        listed(changes.push(entry), entry.0 as int, entry.1 as int),
        forall|x: int, y: int| #[trigger]
            listed(changes, x, y) ==> listed(changes.push(entry), x, y),
{
    let longer = changes.push(entry);
    assert(longer[changes.len() as int] == entry);
    assert forall|x: int, y: int| #[trigger] listed(changes, x, y) implies listed(longer, x, y) by {
        let k = choose|k: int|
            0 <= k < changes.len() && (#[trigger] changes[k]).0 == x && changes[k].1 == y;
        assert(longer[k] == changes[k]);
    }
}

} // verus!
