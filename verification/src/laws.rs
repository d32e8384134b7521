use vstd::prelude::*;

use crate::cell::CellState;
use crate::grid::{named_cells, Grid};
use crate::pattern::Pattern;

verus! {

/// A board on which every cell is dead stays as it is: advancing it changes
/// no cell.
pub proof fn lemma_dead_board_is_fixed(grid: Grid)
    requires
        grid.alive == Set::<(int, int)>::empty(),
    ensures
        grid.step() == grid,
{
    assert(grid.step().alive =~= grid.alive);
}

/// A board with every cell dead has no live cell and as many dead ones as
/// it has cells.
pub proof fn lemma_empty_board_counts(width: nat, height: nat)
    ensures
        Grid::empty(width, height).wf(),
        Grid::empty(width, height).live_count() == 0,
        Grid::empty(width, height).dead_count() == width * height,
{
}

/// The rule, cell by cell: what a cell is after a step is decided by what
/// it was before the step and by how many live neighbours it had then.
pub proof fn lemma_step_applies_rule(grid: Grid, x: int, y: int)
    requires
        grid.in_bounds(x, y),
    ensures
        grid.step().state_at(x, y) == match grid.state_at(x, y) {
            CellState::Alive => if grid.live_neighbors(x, y) == 2 || grid.live_neighbors(x, y)
                == 3 {
                CellState::Alive
            } else {
                CellState::Dead
            },
            CellState::Dead => if grid.live_neighbors(x, y) == 3 {
                CellState::Alive
            } else {
                CellState::Dead
            },
        },
        grid.step().width == grid.width,
        grid.step().height == grid.height,
{
}

/// Nothing but a cell's own state and its count of live neighbours, both
/// taken from the generation before, enters into its next state: two boards
/// that agree on these two agree on the cell after a step, whatever else
/// differs between them.
pub proof fn lemma_step_depends_on_neighbors_only(a: Grid, b: Grid, x: int, y: int)
    requires
        a.in_bounds(x, y),
        b.in_bounds(x, y),
        a.state_at(x, y) == b.state_at(x, y),
        a.live_neighbors(x, y) == b.live_neighbors(x, y),
    ensures
        a.step().state_at(x, y) == b.step().state_at(x, y),
{
}

/// A step keeps a board well formed.
pub proof fn lemma_step_wf(grid: Grid)
    requires
        grid.wf(),
    ensures
        grid.step().wf(),
{
    grid.lemma_cells_len();
    vstd::set_lib::lemma_set_subset_finite(grid.cells(), grid.step().alive);
}

/// A board that a step leaves unchanged is left unchanged by every further
/// step.
pub proof fn lemma_fixed_point_stays(grid: Grid)
    requires
        grid.step() == grid,
    ensures
        grid.step().step() == grid,
{
}

/// No cell has more than eight live neighbours.
pub proof fn lemma_at_most_eight_neighbors(grid: Grid, x: int, y: int)
    ensures
        grid.live_neighbors(x, y) <= 8,
{
}

/// The board does not wrap: the corner cell `(0, 0)` has the three cells to
/// its right, below it and diagonally below it for neighbours and no others,
/// so at most three live ones.
pub proof fn lemma_corner_has_three_neighbors(grid: Grid)
    requires
        grid.wf(),
    ensures
        grid.live_neighbors(0, 0) == grid.occupancy(1, 0) + grid.occupancy(0, 1) + grid.occupancy(
            1,
            1,
        ),
        grid.live_neighbors(0, 0) <= 3,
{
    assert(!grid.in_bounds(-1, -1) && !grid.in_bounds(0, -1) && !grid.in_bounds(1, -1)
        && !grid.in_bounds(-1, 0) && !grid.in_bounds(-1, 1));
}

/// The column just past the right edge holds no cell, in the top row or in
/// any other.
pub proof fn lemma_width_is_off_board(grid: Grid, y: int)
    ensures
        grid.get(grid.width as int, y) is None,
{
}

/// The cells of the `Block`, counted from 0.
pub open spec fn block_cells() -> Set<(int, int)> {
    set![(1, 1), (2, 1), (1, 2), (2, 2)]
}

/// The cells of the `Blinker` as it is seeded, lying flat.
pub open spec fn blinker_cells() -> Set<(int, int)> {
    set![(1, 2), (2, 2), (3, 2)]
}

/// The cells of the `Blinker` one step later, standing upright.
pub open spec fn blinker_upright_cells() -> Set<(int, int)> {
    set![(2, 1), (2, 2), (2, 3)]
}

/// The pairs of the `Block` and of the `Blinker` name the cells above.
pub proof fn lemma_preset_cells()
    ensures
        named_cells(Pattern::Block.layout()) == block_cells(),
        named_cells(Pattern::Blinker.layout()) == blinker_cells(),
{
    let block = Pattern::Block.layout();
    assert(block[0] == (2usize, 2usize) && block[1] == (3usize, 2usize) && block[2] == (
        2usize,
        3usize,
    ) && block[3] == (3usize, 3usize));
    assert(named_cells(block) =~= block_cells());
    let blinker = Pattern::Blinker.layout();
    assert(blinker[0] == (2usize, 3usize) && blinker[1] == (3usize, 3usize) && blinker[2] == (
        4usize,
        3usize,
    ));
    assert(named_cells(blinker) =~= blinker_cells());
}

/// The `Block` is a still life: on any board that holds it and nothing
/// else, a step changes no cell.
pub proof fn lemma_block_is_still(grid: Grid)
    requires
        grid.width >= 3,
        grid.height >= 3,
        grid.alive == named_cells(Pattern::Block.layout()),
    ensures
        grid.step() == grid,
{
    lemma_preset_cells();
    assert forall|p: (int, int)| grid.step().alive.contains(p) == grid.alive.contains(p) by {
        lemma_block_neighbors(grid, p.0, p.1);
    }
    assert(grid.step().alive =~= grid.alive);
}

/// Around the `Block`: each of its cells has three live neighbours, and no
/// dead cell has three.
proof fn lemma_block_neighbors(grid: Grid, x: int, y: int)
    requires
        grid.alive == block_cells(),
    ensures
        grid.alive.contains((x, y)) ==> grid.live_neighbors(x, y) == 3,
        !grid.alive.contains((x, y)) ==> grid.live_neighbors(x, y) != 3,
{
}

/// The `Blinker` has period two: on any board at least 5 by 5 that holds it
/// and nothing else, one step stands it upright and the next lays it flat
/// again, where it was.
pub proof fn lemma_blinker_period_two(grid: Grid)
    requires
        grid.width >= 5,
        grid.height >= 5,
        grid.alive == named_cells(Pattern::Blinker.layout()),
    ensures
        grid.step() != grid,
        grid.step().alive == blinker_upright_cells(),
        grid.step().step() == grid,
{
    lemma_preset_cells();
    let upright = grid.step();
    assert forall|p: (int, int)| upright.alive.contains(p) == blinker_upright_cells().contains(
        p,
    ) by {
        lemma_blinker_flat_neighbors(grid, p.0, p.1);
    }
    assert(upright.alive =~= blinker_upright_cells());
    assert(upright.alive.contains((2, 1)) && !grid.alive.contains((2, 1)));
    assert forall|p: (int, int)| upright.step().alive.contains(p) == grid.alive.contains(p) by {
        lemma_blinker_upright_neighbors(upright, p.0, p.1);
    }
    assert(upright.step().alive =~= grid.alive);
}

/// Around the flat `Blinker`: which cells have the live neighbours that the
/// rule asks for.
proof fn lemma_blinker_flat_neighbors(grid: Grid, x: int, y: int)
    requires
        grid.alive == blinker_cells(),
    ensures
        grid.alive.contains((x, y)) ==> (grid.live_neighbors(x, y) == 2 || grid.live_neighbors(
            x,
            y,
        ) == 3) == (x == 2),
        !grid.alive.contains((x, y)) ==> (grid.live_neighbors(x, y) == 3) == (x == 2 && (y == 1
            || y == 3)),
{
}

/// Around the upright `Blinker`, likewise.
proof fn lemma_blinker_upright_neighbors(grid: Grid, x: int, y: int)
    requires
        grid.alive == blinker_upright_cells(),
    ensures
        grid.alive.contains((x, y)) ==> (grid.live_neighbors(x, y) == 2 || grid.live_neighbors(
            x,
            y,
        ) == 3) == (y == 2),
        !grid.alive.contains((x, y)) ==> (grid.live_neighbors(x, y) == 3) == (y == 2 && (x == 1
            || x == 3)),
{
}

} // verus!
