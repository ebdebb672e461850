use game_of_life::grid::get_coordinates;
use game_of_life::grid::to_cell;
use game_of_life::grid::Board;
use game_of_life::grid::Cell;
use game_of_life::grid::GridError;

fn alive(board: &Board, x: u32, y: u32) -> bool {
    match board.get_cell(x, y) {
        Some(cell) => cell.alive,
        None => false,
    }
}

#[test]
fn new_cell_is_dead() {
    let c = Cell::new();
    assert!(!c.alive);
}

#[test]
fn new_board_is_all_dead() {
    let board = Board::new(7, 3).unwrap();
    assert_eq!(board.width, 7);
    assert_eq!(board.height, 3);
    for y in 0..3 {
        for x in 0..7 {
            assert!(!alive(&board, x, y));
        }
    }
}

#[test]
fn zero_width_is_rejected() {
    assert_eq!(Board::new(0, 5).unwrap_err(), GridError::ZeroDimension);
}

#[test]
fn zero_height_is_rejected() {
    assert_eq!(Board::new(5, 0).unwrap_err(), GridError::ZeroDimension);
}

#[test]
fn get_after_set_alive_returns_alive() {
    let mut board = Board::new(5, 5).unwrap();
    for y in 0..5 {
        for x in 0..5 {
            board.set_alive(x, y);
            assert!(alive(&board, x, y));
        }
    }
}

#[test]
fn set_alive_out_of_bounds_is_a_no_op() {
    let mut board = Board::new(4, 4).unwrap();
    board.set_alive(1, 1);
    board.set_alive(4, 0);
    board.set_alive(0, 4);
    board.set_alive(1000, 1000);
    for y in 0..4 {
        for x in 0..4 {
            assert_eq!(alive(&board, x, y), x == 1 && y == 1);
        }
    }
}

#[test]
fn get_cell_out_of_bounds_is_absent() {
    let board = Board::new(3, 3).unwrap();
    assert!(board.get_cell(3, 0).is_none());
    assert!(board.get_cell(0, 3).is_none());
    assert!(board.get_cell(100, 100).is_none());
    assert!(board.get_cell(2, 2).is_some());
}

#[test]
fn get_cell_mut_writes_one_cell() {
    let mut board = Board::new(3, 3).unwrap();
    match board.get_cell_mut(1, 2) {
        Some(cell) => cell.alive = true,
        None => panic!("in-bounds cell must be present"),
    }
    assert!(board.get_cell_mut(3, 3).is_none());
    for y in 0..3 {
        for x in 0..3 {
            assert_eq!(alive(&board, x, y), x == 1 && y == 2);
        }
    }
}

#[test]
fn neighbor_count_ignores_the_cell_itself() {
    let mut board = Board::new(3, 3).unwrap();
    board.set_alive(1, 1);
    assert_eq!(board.count_alive_neighbors(1, 1), 0);
}

#[test]
fn neighbor_count_is_at_most_eight() {
    let mut board = Board::new(5, 5).unwrap();
    for y in 0..5 {
        for x in 0..5 {
            board.set_alive(x, y);
        }
    }
    for y in 0..5 {
        for x in 0..5 {
            let count = board.count_alive_neighbors(x, y);
            assert!(count <= 8);
        }
    }
    assert_eq!(board.count_alive_neighbors(2, 2), 8);
    assert_eq!(board.count_alive_neighbors(0, 0), 3);
    assert_eq!(board.count_alive_neighbors(4, 4), 3);
    assert_eq!(board.count_alive_neighbors(2, 0), 5);
    assert_eq!(board.count_alive_neighbors(0, 2), 5);
}

#[test]
fn neighbor_count_never_wraps_around_the_edges() {
    let mut board = Board::new(5, 5).unwrap();
    board.set_alive(4, 0);
    board.set_alive(0, 4);
    board.set_alive(4, 4);
    // With a toroidal topology the three far corners would all be neighbors
    // of (0, 0); with absent off-board neighbors none of them is.
    assert_eq!(board.count_alive_neighbors(0, 0), 0);
    assert_eq!(board.count_alive_neighbors(4, 0), 0);
    assert_eq!(board.count_alive_neighbors(0, 4), 0);
    assert_eq!(board.count_alive_neighbors(4, 4), 0);
}

#[test]
fn update_writes_the_next_generation_into_the_other_board() {
    // A horizontal blinker bar in the middle of a 5x5 board.
    let mut board = Board::new(5, 5).unwrap();
    let mut future = Board::new(5, 5).unwrap();
    board.set_alive(1, 2);
    board.set_alive(2, 2);
    board.set_alive(3, 2);
    board.update(&mut future);
    for y in 0..5 {
        for x in 0..5 {
            assert_eq!(alive(&future, x, y), x == 2 && (1..=3).contains(&y));
            // The read board is untouched by the pass.
            assert_eq!(alive(&board, x, y), y == 2 && (1..=3).contains(&x));
        }
    }
}

#[test]
fn bar_against_the_top_edge_does_not_wrap() {
    // A horizontal bar on the topmost row: the cells that a wrapped topology
    // would see on the bottom row must stay dead, and the bar collapses to a
    // two-cell column because its upper births fall off the board.
    let mut board = Board::new(5, 5).unwrap();
    let mut future = Board::new(5, 5).unwrap();
    board.set_alive(1, 0);
    board.set_alive(2, 0);
    board.set_alive(3, 0);
    board.update(&mut future);
    for y in 0..5 {
        for x in 0..5 {
            assert_eq!(alive(&future, x, y), x == 2 && y <= 1);
        }
    }
    let mut third = Board::new(5, 5).unwrap();
    future.update(&mut third);
    for y in 0..5 {
        for x in 0..5 {
            assert!(!alive(&third, x, y));
        }
    }
}

#[test]
fn randomize_zero_percent_kills_every_cell() {
    let mut board = Board::new(6, 4).unwrap();
    board.set_alive(2, 2);
    board.set_alive(5, 3);
    board.randomize(0);
    for y in 0..4 {
        for x in 0..6 {
            assert!(!alive(&board, x, y));
        }
    }
}

#[test]
fn randomize_hundred_percent_fills_every_cell() {
    let mut board = Board::new(6, 4).unwrap();
    board.randomize(100);
    for y in 0..4 {
        for x in 0..6 {
            assert!(alive(&board, x, y));
        }
    }
}

#[test]
fn get_coordinates_inverts_row_major_indexing() {
    assert_eq!(get_coordinates(0, 5), (0, 0));
    assert_eq!(get_coordinates(4, 5), (4, 0));
    assert_eq!(get_coordinates(5, 5), (0, 1));
    assert_eq!(get_coordinates(12, 5), (2, 2));
    assert_eq!(get_coordinates(24, 5), (4, 4));
}

#[test]
fn to_cell_truncates_toward_the_cell_origin() {
    assert_eq!(to_cell(0, 0, 8), (0, 0));
    assert_eq!(to_cell(7, 7, 8), (0, 0));
    assert_eq!(to_cell(8, 7, 8), (1, 0));
    assert_eq!(to_cell(17, 8, 8), (2, 1));
    assert_eq!(to_cell(1599, 1593, 8), (199, 199));
}
