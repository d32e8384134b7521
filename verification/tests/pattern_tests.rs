use conway::board::Conway;
use conway::cell::CellState;
use conway::pattern::Pattern;
use rand::rngs::StdRng;
use rand::SeedableRng;

const ALL: [Pattern; 7] = [
    Pattern::Block,
    Pattern::Blinker,
    Pattern::Beehive,
    Pattern::Toad,
    Pattern::Loaf,
    Pattern::Beacon,
    Pattern::Tub,
];

#[test]
fn pattern_coordinates_are_as_listed() {
    assert_eq!(Pattern::Block.coordinates(), vec![(2, 2), (3, 2), (2, 3), (3, 3)]);
    assert_eq!(Pattern::Blinker.coordinates(), vec![(2, 3), (3, 3), (4, 3)]);
    assert_eq!(
        Pattern::Beehive.coordinates(),
        vec![(3, 2), (4, 2), (2, 3), (4, 3), (3, 4), (4, 4)]
    );
    assert_eq!(
        Pattern::Loaf.coordinates(),
        vec![(3, 2), (4, 2), (2, 3), (4, 3), (3, 4), (4, 4), (4, 5)]
    );
    assert_eq!(
        Pattern::Toad.coordinates(),
        vec![(4, 2), (2, 3), (5, 3), (2, 4), (5, 4), (3, 5)]
    );
    assert_eq!(
        Pattern::Beacon.coordinates(),
        vec![(2, 2), (3, 2), (2, 3), (5, 4), (4, 5), (5, 5)]
    );
    assert_eq!(Pattern::Tub.coordinates(), vec![(3, 2), (2, 3), (4, 2), (3, 4)]);
}

#[test]
fn pattern_sizes_are_as_listed() {
    assert_eq!(Pattern::Block.size(), (4, 4));
    assert_eq!(Pattern::Blinker.size(), (5, 5));
    assert_eq!(Pattern::Beehive.size(), (6, 5));
    assert_eq!(Pattern::Loaf.size(), (6, 6));
    assert_eq!(Pattern::Toad.size(), (6, 6));
    assert_eq!(Pattern::Beacon.size(), (6, 6));
    assert_eq!(Pattern::Tub.size(), (5, 5));
}

#[test]
fn pattern_names() {
    let names: Vec<&str> = ALL.iter().map(|p| p.name()).collect();
    assert_eq!(names, vec!["Block", "Blinker", "Beehive", "Toad", "Loaf", "Beacon", "Tub"]);
}

#[test]
fn every_pattern_fits_its_recommended_board() {
    for pattern in ALL {
        let (w, h) = pattern.size();
        for (x, y) in pattern.coordinates() {
            assert!(1 <= x && x <= w && 1 <= y && y <= h, "{:?} ({}, {})", pattern, x, y);
        }
    }
}

#[test]
fn with_pattern_seeds_exactly_the_listed_cells() {
    for pattern in ALL {
        let b = Conway::with_pattern(pattern, StdRng::seed_from_u64(1));
        let (w, h) = pattern.size();
        assert_eq!((b.width(), b.height()), (w, h));
        let cells = pattern.coordinates();
        assert_eq!(b.population(), cells.len());
        for y in 0..h {
            for x in 0..w {
                let expected = if cells.contains(&(x + 1, y + 1)) {
                    CellState::Alive
                } else {
                    CellState::Dead
                };
                assert_eq!(b.get_cell(x, y), Some(expected));
            }
        }
    }
}

#[test]
fn toad_and_beacon_have_period_two() {
    for pattern in [Pattern::Toad, Pattern::Beacon] {
        let mut b = Conway::with_pattern(pattern, StdRng::seed_from_u64(1));
        let start = b.rows();
        assert!(b.tick());
        assert_ne!(b.rows(), start);
        assert!(b.tick());
        assert_eq!(b.rows(), start);
    }
}
