use life_universe::universe::{Cell, Universe, UniverseError};

fn dead_universe(width: u32, height: u32) -> Universe {
    let alive = vec![false; (width * height) as usize];
    Universe::new(width, height, &alive).unwrap()
}

fn universe_with(width: u32, height: u32, live: &[(u32, u32)]) -> Universe {
    let mut u = dead_universe(width, height);
    u.set_cells(live).unwrap();
    u
}

fn live_cells(u: &Universe) -> Vec<(u32, u32)> {
    let cells = u.get_cells();
    let mut out = Vec::new();
    for row in 0..u.height() {
        for column in 0..u.width() {
            if cells[(row * u.width() + column) as usize] == Cell::Alive {
                out.push((row, column));
            }
        }
    }
    out
}

#[test]
fn new_takes_the_given_cells() {
    let alive = vec![true, false, false, true, true, false];
    let u = Universe::new(3, 2, &alive).unwrap();
    assert_eq!(u.width(), 3);
    assert_eq!(u.height(), 2);
    let expected = vec![Cell::Alive, Cell::Dead, Cell::Dead, Cell::Alive, Cell::Alive, Cell::Dead];
    assert_eq!(u.get_cells(), expected);
}

#[test]
fn new_rejects_zero_width_or_height() {
    assert_eq!(Universe::new(0, 4, &[]).err(), Some(UniverseError::EmptyGrid));
    assert_eq!(Universe::new(4, 0, &[]).err(), Some(UniverseError::EmptyGrid));
    assert_eq!(Universe::new(0, 0, &[]).err(), Some(UniverseError::EmptyGrid));
}

#[test]
fn new_rejects_a_cell_count_over_u32() {
    assert_eq!(Universe::new(65536, 65536, &[]).err(), Some(UniverseError::TooLarge));
    assert_eq!(Universe::new(u32::MAX, 2, &[]).err(), Some(UniverseError::TooLarge));
}

#[test]
fn new_rejects_a_wrong_number_of_cells() {
    assert_eq!(Universe::new(2, 2, &[true, false, true]).err(), Some(UniverseError::CellCountMismatch));
    assert_eq!(Universe::new(1, 1, &[]).err(), Some(UniverseError::CellCountMismatch));
}

#[test]
fn single_cell_universe_counts_itself_around_the_torus() {
    let u = Universe::new(1, 1, &[true]).unwrap();
    assert_eq!(u.live_neighbor_count(0, 0), 8);
}

#[test]
fn dimensions_and_cell_count_stay_fixed() {
    let mut u = universe_with(7, 3, &[(0, 0), (1, 1), (2, 6)]);
    for _ in 0..5 {
        u.tick();
        assert_eq!(u.width(), 7);
        assert_eq!(u.height(), 3);
        assert_eq!(u.get_cells().len(), 21);
    }
    u.set_cells(&[(2, 2)]).unwrap();
    assert_eq!(u.width(), 7);
    assert_eq!(u.height(), 3);
    assert_eq!(u.get_cells().len(), 21);
}

#[test]
fn center_is_a_neighbour_of_every_edge_and_corner_cell() {
    let u = universe_with(3, 3, &[(1, 1)]);
    for (row, column) in [(0, 0), (0, 2), (2, 0), (2, 2)] {
        assert_eq!(u.live_neighbor_count(row, column), 1, "corner ({}, {})", row, column);
    }
    for (row, column) in [(0, 1), (1, 0), (1, 2), (2, 1)] {
        assert_eq!(u.live_neighbor_count(row, column), 1, "edge ({}, {})", row, column);
    }
    assert_eq!(u.live_neighbor_count(1, 1), 0);
}

#[test]
fn corner_neighbours_wrap_to_the_opposite_edges() {
    let u = universe_with(5, 4, &[(3, 4), (3, 0), (0, 4), (1, 1)]);
    assert_eq!(u.live_neighbor_count(0, 0), 4);
    assert_eq!(u.live_neighbor_count(2, 2), 1);
    assert_eq!(u.live_neighbor_count(3, 4), 2);
}

#[test]
fn block_is_a_still_life() {
    let block = [(1, 1), (1, 2), (2, 1), (2, 2)];
    let mut u = universe_with(4, 4, &block);
    for _ in 0..10 {
        u.tick();
        assert_eq!(live_cells(&u), block.to_vec());
    }
}

#[test]
fn block_across_the_corner_is_a_still_life() {
    let mut u = universe_with(6, 5, &[(4, 5), (4, 0), (0, 5), (0, 0)]);
    for _ in 0..4 {
        u.tick();
        assert_eq!(live_cells(&u), vec![(0, 0), (0, 5), (4, 0), (4, 5)]);
    }
}

#[test]
fn blinker_has_period_two() {
    let horizontal = vec![(1, 0), (1, 1), (1, 2)];
    let vertical = vec![(0, 1), (1, 1), (2, 1)];
    let mut u = universe_with(5, 5, &horizontal);
    u.tick();
    assert_eq!(live_cells(&u), vertical);
    u.tick();
    assert_eq!(live_cells(&u), horizontal);
    u.tick();
    assert_eq!(live_cells(&u), vertical);
}

#[test]
fn blinker_in_the_middle_has_period_two() {
    let horizontal = vec![(3, 2), (3, 3), (3, 4)];
    let vertical = vec![(2, 3), (3, 3), (4, 3)];
    let mut u = universe_with(7, 6, &horizontal);
    u.tick();
    assert_eq!(live_cells(&u), vertical);
    u.tick();
    assert_eq!(live_cells(&u), horizontal);
}

#[test]
fn equal_universes_evolve_alike() {
    let start = [(0, 1), (1, 2), (2, 0), (2, 1), (2, 2), (5, 5)];
    let mut a = universe_with(8, 7, &start);
    let mut b = universe_with(8, 7, &start);
    for _ in 0..20 {
        a.tick();
        b.tick();
        assert_eq!(a.get_cells(), b.get_cells());
    }
}

#[test]
fn glider_moves_one_cell_diagonally_in_four_ticks() {
    let mut u = universe_with(8, 8, &[(0, 1), (1, 2), (2, 0), (2, 1), (2, 2)]);
    for _ in 0..4 {
        u.tick();
    }
    assert_eq!(live_cells(&u), vec![(1, 2), (2, 3), (3, 1), (3, 2), (3, 3)]);
}

#[test]
fn set_cells_only_turns_cells_alive() {
    let mut u = universe_with(4, 3, &[(0, 0), (2, 3)]);
    u.set_cells(&[(1, 1), (0, 0)]).unwrap();
    assert_eq!(live_cells(&u), vec![(0, 0), (1, 1), (2, 3)]);
}

#[test]
fn set_cells_twice_is_set_cells_once() {
    let mut once = dead_universe(5, 5);
    once.set_cells(&[(1, 2), (3, 4), (1, 2)]).unwrap();
    let mut twice = dead_universe(5, 5);
    twice.set_cells(&[(1, 2), (3, 4)]).unwrap();
    twice.set_cells(&[(3, 4), (1, 2)]).unwrap();
    assert_eq!(once.get_cells(), twice.get_cells());
    assert_eq!(live_cells(&twice), vec![(1, 2), (3, 4)]);
}

#[test]
fn set_cells_with_no_coordinates_changes_nothing() {
    let mut u = universe_with(3, 3, &[(2, 2)]);
    u.set_cells(&[]).unwrap();
    assert_eq!(live_cells(&u), vec![(2, 2)]);
}

#[test]
fn set_cells_rejects_coordinates_off_the_grid() {
    let mut u = universe_with(4, 3, &[(0, 0)]);
    assert_eq!(u.set_cells(&[(1, 1), (3, 0)]), Err(UniverseError::OutOfRange));
    assert_eq!(u.set_cells(&[(0, 4), (1, 1)]), Err(UniverseError::OutOfRange));
    assert_eq!(live_cells(&u), vec![(0, 0)]);
}

const AROUND: [(u32, u32); 8] = [(1, 1), (1, 2), (1, 3), (2, 1), (2, 3), (3, 1), (3, 2), (3, 3)];

fn after_one_tick(alive: bool, neighbours: usize) -> (u8, Cell) {
    let mut u = universe_with(5, 5, &AROUND[..neighbours]);
    if alive {
        u.set_cells(&[(2, 2)]).unwrap();
    }
    let n = u.live_neighbor_count(2, 2);
    u.tick();
    (n, u.get_cells()[12])
}

#[test]
fn dead_cell_is_born_with_exactly_three_neighbours() {
    let expected = [Cell::Dead, Cell::Dead, Cell::Dead, Cell::Alive, Cell::Dead, Cell::Dead, Cell::Dead, Cell::Dead, Cell::Dead];
    for n in 0..=8 {
        assert_eq!(after_one_tick(false, n), (n as u8, expected[n]), "{} neighbours", n);
    }
}

#[test]
fn live_cell_survives_with_two_or_three_neighbours() {
    let expected = [Cell::Dead, Cell::Dead, Cell::Alive, Cell::Alive, Cell::Dead, Cell::Dead, Cell::Dead, Cell::Dead, Cell::Dead];
    for n in 0..=8 {
        assert_eq!(after_one_tick(true, n), (n as u8, expected[n]), "{} neighbours", n);
    }
}

#[test]
fn packed_cells_hold_one_bit_per_cell() {
    let mut live = vec![(0, 0), (0, 3), (1, 0)];
    live.push((4, 6));
    let u = universe_with(7, 5, &live);
    let blocks = u.cells();
    assert_eq!(blocks.len(), 2);
    assert_eq!(blocks[0], (1 << 0) | (1 << 3) | (1 << 7));
    assert_eq!(blocks[1], 1 << 2);
}

#[test]
fn empty_universe_stays_empty() {
    let mut u = dead_universe(6, 6);
    u.tick();
    assert!(u.get_cells().iter().all(|c| *c == Cell::Dead));
}

#[test]
fn cell_from_u32() {
    assert_eq!(Cell::from(1), Cell::Alive);
    assert_eq!(Cell::from(0), Cell::Dead);
    assert_eq!(Cell::from(2), Cell::Dead);
}
