use game_of_life::grid::GridError;
use game_of_life::sim::GameState;

fn alive(sim: &GameState, x: u32, y: u32) -> bool {
    match sim.current_grid().get_cell(x, y) {
        Some(cell) => cell.alive,
        None => false,
    }
}

fn assert_exactly_alive(sim: &GameState, expected: &[(u32, u32)]) {
    let grid = sim.current_grid();
    for y in 0..grid.height {
        for x in 0..grid.width {
            assert_eq!(
                alive(sim, x, y),
                expected.contains(&(x, y)),
                "cell ({}, {}) at generation {}",
                x,
                y,
                sim.generation
            );
        }
    }
}

#[test]
fn new_simulator_is_all_dead_at_generation_zero() {
    let sim = GameState::new(5, 4).unwrap();
    assert_eq!(sim.generation, 0);
    assert_eq!(sim.current_grid().width, 5);
    assert_eq!(sim.current_grid().height, 4);
    assert_exactly_alive(&sim, &[]);
}

#[test]
fn zero_dimension_simulator_is_rejected() {
    assert_eq!(GameState::new(0, 9).unwrap_err(), GridError::ZeroDimension);
    assert_eq!(GameState::new(9, 0).unwrap_err(), GridError::ZeroDimension);
}

#[test]
fn generation_counter_grows_by_one_per_advance() {
    let mut sim = GameState::new(4, 4).unwrap();
    for expected in 1..=10u64 {
        sim.advance();
        assert_eq!(sim.generation, expected);
    }
}

#[test]
fn isolated_alive_cell_dies_and_dead_cells_stay_dead() {
    let mut sim = GameState::new(5, 5).unwrap();
    sim.set_alive(2, 2);
    sim.advance();
    assert_exactly_alive(&sim, &[]);
    sim.advance();
    assert_exactly_alive(&sim, &[]);
}

#[test]
fn blinker_oscillates_with_period_two() {
    let mut sim = GameState::new(5, 5).unwrap();
    sim.set_alive(1, 2);
    sim.set_alive(2, 2);
    sim.set_alive(3, 2);
    sim.advance();
    assert_exactly_alive(&sim, &[(2, 1), (2, 2), (2, 3)]);
    sim.advance();
    assert_exactly_alive(&sim, &[(1, 2), (2, 2), (3, 2)]);
    sim.advance();
    assert_exactly_alive(&sim, &[(2, 1), (2, 2), (2, 3)]);
}

#[test]
fn block_is_a_still_life() {
    let mut sim = GameState::new(6, 6).unwrap();
    let block = [(2, 2), (3, 2), (2, 3), (3, 3)];
    for &(x, y) in block.iter() {
        sim.set_alive(x, y);
    }
    for _ in 0..8 {
        sim.advance();
        assert_exactly_alive(&sim, &block);
    }
}

#[test]
fn glider_at_the_edge_never_wraps() {
    // A glider headed for the lower-right corner of a 6x6 board. Off the
    // board its population stays five forever; against the wall it collapses
    // into a block in the corner. A wrapped topology would let it keep
    // gliding instead.
    let mut sim = GameState::new(6, 6).unwrap();
    for &(x, y) in [(3, 2), (4, 3), (2, 4), (3, 4), (4, 4)].iter() {
        sim.set_alive(x, y);
    }
    for _ in 0..20 {
        sim.advance();
    }
    assert_exactly_alive(&sim, &[(4, 4), (5, 4), (4, 5), (5, 5)]);
}

#[test]
fn set_alive_edits_the_current_generation() {
    let mut sim = GameState::new(5, 5).unwrap();
    sim.advance();
    sim.set_alive(2, 2);
    assert_exactly_alive(&sim, &[(2, 2)]);
    sim.set_alive(5, 5);
    sim.set_alive(900, 2);
    assert_exactly_alive(&sim, &[(2, 2)]);
}

#[test]
fn randomize_boundary_probabilities() {
    let mut sim = GameState::new(8, 8).unwrap();
    sim.randomize(100);
    let grid = sim.current_grid();
    for y in 0..8 {
        for x in 0..8 {
            assert!(grid.get_cell(x, y).unwrap().alive);
        }
    }
    sim.randomize(0);
    let grid = sim.current_grid();
    for y in 0..8 {
        for x in 0..8 {
            assert!(!grid.get_cell(x, y).unwrap().alive);
        }
    }
}

#[test]
fn randomize_after_advance_fills_the_current_board() {
    let mut sim = GameState::new(4, 4).unwrap();
    sim.advance();
    sim.randomize(100);
    for y in 0..4 {
        for x in 0..4 {
            assert!(alive(&sim, x, y));
        }
    }
}
