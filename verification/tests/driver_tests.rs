use conway::board::Conway;
use conway::driver::{center_offset, fits_terminal, Action, Phase, FRAME_DELAY_MS};
use conway::pattern::Pattern;
use rand::rngs::StdRng;
use rand::SeedableRng;

fn rng() -> StdRng {
    StdRng::seed_from_u64(3)
}

#[test]
fn run_goes_on_while_the_board_changes() {
    let mut b = Conway::with_pattern(Pattern::Blinker, rng());
    let start = b.rows();
    assert_eq!(b.run_step(Phase::Evolving), (Phase::Evolving, Action::Redraw));
    assert_ne!(b.rows(), start);
    assert_eq!(b.run_step(Phase::Evolving), (Phase::Evolving, Action::Redraw));
    assert_eq!(b.rows(), start);
}

#[test]
fn run_comes_to_rest_on_a_fixed_point() {
    let mut b = Conway::with_pattern(Pattern::Block, rng());
    let start = b.rows();
    assert_eq!(b.run_step(Phase::Evolving), (Phase::Stable, Action::DrawLast));
    assert_eq!(b.rows(), start);
    assert_eq!(b.run_step(Phase::Stable), (Phase::Terminated, Action::Leave));
    assert_eq!(b.run_step(Phase::Terminated), (Phase::Terminated, Action::Leave));
    assert_eq!(b.rows(), start);
}

#[test]
fn run_leaves_the_board_alone_once_at_rest() {
    let mut b = Conway::with_pattern(Pattern::Blinker, rng());
    let start = b.rows();
    assert_eq!(b.run_step(Phase::Stable), (Phase::Terminated, Action::Leave));
    assert_eq!(b.rows(), start);
}

#[test]
fn run_of_a_lonely_cell_takes_two_turns() {
    let mut b = Conway::new(3, 3, rng());
    b.revive_cell(1, 1).unwrap();
    let mut phase = Phase::Evolving;
    let mut actions = Vec::new();
    loop {
        let (next, action) = b.run_step(phase);
        actions.push(action);
        phase = next;
        if action == Action::Leave {
            break;
        }
    }
    assert_eq!(actions, vec![Action::Redraw, Action::DrawLast, Action::Leave]);
    assert_eq!(phase, Phase::Terminated);
}

#[test]
fn frame_delay_is_half_a_second() {
    assert_eq!(FRAME_DELAY_MS, 500);
}

#[test]
fn center_offset_is_the_distance_between_the_halves() {
    assert_eq!(center_offset(10, 80), 35);
    assert_eq!(center_offset(5, 80), 38);
    assert_eq!(center_offset(5, 81), 38);
    assert_eq!(center_offset(79, 80), 1);
    assert_eq!(center_offset(0, 0), 0);
    assert_eq!(center_offset(0, 7), 3);
    assert_eq!(center_offset(usize::MAX - 1, usize::MAX), 0);
}

#[test]
fn center_offset_is_zero_for_a_board_that_fills_the_terminal() {
    assert_eq!(center_offset(80, 80), 0);
    assert_eq!(center_offset(81, 80), 0);
    assert_eq!(center_offset(usize::MAX, 1), 0);
}

#[test]
fn fits_terminal_compares_both_sides() {
    assert!(fits_terminal(80, 24, 80, 24));
    assert!(fits_terminal(0, 0, 0, 0));
    assert!(!fits_terminal(81, 24, 80, 24));
    assert!(!fits_terminal(80, 25, 80, 24));
    assert!(fits_terminal(10, 10, 80, 24));
}
