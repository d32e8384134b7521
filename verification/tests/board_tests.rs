use conway::board::Conway;
use conway::cell::CellState;
use conway::error::{BoardError, Revival};
use rand::rngs::StdRng;
use rand::SeedableRng;

fn board(width: usize, height: usize) -> Conway {
    Conway::new(width, height, StdRng::seed_from_u64(7))
}

fn snapshot(b: &Conway) -> Vec<Vec<CellState>> {
    b.rows()
}

#[test]
fn new_board_is_all_dead() {
    let b = board(4, 3);
    assert_eq!(b.width(), 4);
    assert_eq!(b.height(), 3);
    assert_eq!(b.capacity(), 12);
    assert_eq!(b.population(), 0);
    for y in 0..3 {
        for x in 0..4 {
            assert_eq!(b.get_cell(x, y), Some(CellState::Dead));
        }
    }
}

#[test]
fn get_cell_outside_the_board_is_none() {
    let mut b = board(4, 3);
    b.set_cell(0, 1, CellState::Alive).unwrap();
    // One past the right edge must not read the first cell of the next row.
    assert_eq!(b.get_cell(4, 0), None);
    assert_eq!(b.get_cell(0, 3), None);
    assert_eq!(b.get_cell(4, 3), None);
    assert_eq!(b.get_cell(usize::MAX, usize::MAX), None);
}

#[test]
fn zero_sized_boards_have_no_cells() {
    let b = board(0, 5);
    assert_eq!(b.capacity(), 0);
    assert_eq!(b.get_cell(0, 0), None);
    let mut c = board(5, 0);
    assert_eq!(c.get_cell(0, 0), None);
    assert!(!c.tick());
    assert_eq!(c.rows().len(), 0);
    assert_eq!(b.rows(), vec![Vec::<CellState>::new(); 5]);
}

#[test]
fn set_cell_reaches_the_last_cell() {
    let mut b = board(4, 3);
    assert_eq!(b.set_cell(3, 2, CellState::Alive), Ok(()));
    assert_eq!(b.get_cell(3, 2), Some(CellState::Alive));
    assert_eq!(b.population(), 1);
    assert_eq!(b.set_cell(3, 2, CellState::Dead), Ok(()));
    assert_eq!(b.get_cell(3, 2), Some(CellState::Dead));
    assert_eq!(b.population(), 0);
}

#[test]
fn set_cell_one_past_the_last_cell_is_refused() {
    let mut b = board(4, 3);
    let before = snapshot(&b);
    // The linear index of (0, 3) is exactly the number of cells.
    assert_eq!(
        b.set_cell(0, 3, CellState::Alive),
        Err(BoardError::OutOfBounds { x: 0, y: 3, width: 4, height: 3 })
    );
    assert_eq!(snapshot(&b), before);
}

#[test]
fn set_cell_past_the_right_edge_is_refused() {
    let mut b = board(4, 3);
    assert_eq!(
        b.set_cell(4, 1, CellState::Alive),
        Err(BoardError::OutOfBounds { x: 4, y: 1, width: 4, height: 3 })
    );
    assert_eq!(b.population(), 0);
}

#[test]
fn set_cell_changes_one_cell_only() {
    let mut b = board(3, 3);
    b.set_cell(1, 2, CellState::Alive).unwrap();
    for y in 0..3 {
        for x in 0..3 {
            let expected = if (x, y) == (1, 2) { CellState::Alive } else { CellState::Dead };
            assert_eq!(b.get_cell(x, y), Some(expected));
        }
    }
}

#[test]
fn revive_reports_redundant_coordinate() {
    let mut b = board(3, 3);
    assert_eq!(b.revive_cell(1, 1), Ok(Revival::Revived));
    let before = snapshot(&b);
    assert_eq!(b.revive_cell(1, 1), Ok(Revival::AlreadyAlive));
    assert_eq!(snapshot(&b), before);
    assert_eq!(b.get_cell(1, 1), Some(CellState::Alive));
}

#[test]
fn revive_at_width_is_out_of_bounds() {
    for (w, h) in [(1usize, 1usize), (3, 2), (2, 5), (0, 0), (0, 4)] {
        let mut b = board(w, h);
        if w > 0 && h > 0 {
            b.revive_cell(0, 0).unwrap();
        }
        let before = snapshot(&b);
        assert_eq!(
            b.revive_cell(w, 0),
            Err(BoardError::OutOfBounds { x: w, y: 0, width: w, height: h })
        );
        assert_eq!(snapshot(&b), before);
    }
}

#[test]
fn neighbors_counts_all_eight() {
    let mut b = board(3, 3);
    for y in 0..3 {
        for x in 0..3 {
            b.revive_cell(x, y).unwrap();
        }
    }
    assert_eq!(b.neighbors(1, 1), Ok(8));
    assert_eq!(b.neighbors(0, 0), Ok(3));
    assert_eq!(b.neighbors(2, 0), Ok(3));
    assert_eq!(b.neighbors(0, 2), Ok(3));
    assert_eq!(b.neighbors(2, 2), Ok(3));
    assert_eq!(b.neighbors(1, 0), Ok(5));
    assert_eq!(b.neighbors(0, 1), Ok(5));
}

#[test]
fn neighbors_does_not_count_the_cell_itself() {
    let mut b = board(3, 3);
    b.revive_cell(1, 1).unwrap();
    assert_eq!(b.neighbors(1, 1), Ok(0));
    assert_eq!(b.neighbors(0, 0), Ok(1));
}

#[test]
fn neighbors_does_not_wrap_around_the_edges() {
    let mut b = board(4, 4);
    // The right end of row 0 and the left end of row 1 sit side by side in
    // memory, and are no neighbours of the cells at the other edge.
    b.revive_cell(3, 0).unwrap();
    b.revive_cell(0, 1).unwrap();
    assert_eq!(b.neighbors(0, 0), Ok(1));
    assert_eq!(b.neighbors(3, 1), Ok(1));
    assert_eq!(b.neighbors(0, 2), Ok(1));
    assert_eq!(b.neighbors(3, 2), Ok(0));
    // Nor do the top and bottom rows meet.
    let mut c = board(3, 3);
    c.revive_cell(1, 2).unwrap();
    assert_eq!(c.neighbors(1, 0), Ok(0));
}

#[test]
fn neighbors_off_the_board_is_refused() {
    let b = board(3, 2);
    assert_eq!(
        b.neighbors(3, 0),
        Err(BoardError::OutOfBounds { x: 3, y: 0, width: 3, height: 2 })
    );
    assert_eq!(
        b.neighbors(1, 2),
        Err(BoardError::OutOfBounds { x: 1, y: 2, width: 3, height: 2 })
    );
}

#[test]
fn population_counts_live_cells() {
    let mut b = board(5, 4);
    b.revive_cell(0, 0).unwrap();
    b.revive_cell(4, 3).unwrap();
    b.revive_cell(2, 1).unwrap();
    b.revive_cell(2, 1).unwrap();
    assert_eq!(b.population(), 3);
}

#[test]
fn first_dead_cell_reads_row_by_row() {
    let mut b = board(2, 2);
    assert_eq!(b.first_dead_cell(), Some((0, 0)));
    b.revive_cell(0, 0).unwrap();
    assert_eq!(b.first_dead_cell(), Some((1, 0)));
    b.revive_cell(1, 0).unwrap();
    b.revive_cell(1, 1).unwrap();
    assert_eq!(b.first_dead_cell(), Some((0, 1)));
    b.revive_cell(0, 1).unwrap();
    assert_eq!(b.first_dead_cell(), None);
}

#[test]
fn rows_are_top_to_bottom_and_left_to_right() {
    let mut b = board(3, 2);
    b.revive_cell(2, 0).unwrap();
    b.revive_cell(0, 1).unwrap();
    let (alive, dead) = (CellState::Alive, CellState::Dead);
    assert_eq!(b.rows(), vec![vec![dead, dead, alive], vec![alive, dead, dead]]);
}

#[test]
fn cell_state_is_alive() {
    assert!(CellState::Alive.is_alive());
    assert!(!CellState::Dead.is_alive());
}
