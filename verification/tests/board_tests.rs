use rust_game_of_life::board::Board;
use rust_game_of_life::board::Cell;

fn get_test_board() -> Board {
    let alives = vec![(1, 1)];
    Board::new(4, 4, &alives)
}

#[test]
fn board_new_sets_alive_cells() {
    let board = get_test_board();

    assert!(board.get_cell(1, 1).alive);
    assert!(!board.get_cell(0, 0).alive);
}

#[test]
fn board_set_cell_updates_cell() {
    let mut board = get_test_board();
    let cell = Cell::new(true, 10, false);

    board.set_cell(2, 2, cell);

    let actual = board.get_cell(2, 2);
    assert_eq!(actual, cell);
}

#[test]
fn board_neighbour_alive_count_correct_0th_iteration_0_alive() {
    let board = get_test_board();

    assert_eq!(board.neighbour_alive_count(1, 1, 0), Some(0));
}

#[test]
fn board_neighbour_alive_count_correct_0th_iteration_1_alive() {
    let mut board = get_test_board();

    let cell = Cell::new(true, 0, false);
    board.set_cell(2, 2, cell);

    assert_eq!(board.neighbour_alive_count(1, 1, 0), Some(1));
}

#[test]
fn board_neighbour_alive_count_correct_0th_iteration_3_alive() {
    let mut board = get_test_board();

    let cell = Cell::new(true, 0, false);
    board.set_cell(2, 2, cell);
    board.set_cell(1, 2, cell);
    board.set_cell(2, 1, cell);

    assert_eq!(board.neighbour_alive_count(1, 1, 0), Some(3));
}

#[test]
fn board_neighbour_alive_count_correct_0th_iteration_3_alive_all_ahead() {
    let mut board = get_test_board();

    let cell = Cell::new(false, 1, true);
    board.set_cell(2, 2, cell);
    board.set_cell(1, 2, cell);
    board.set_cell(2, 1, cell);

    assert_eq!(board.neighbour_alive_count(1, 1, 0), Some(3));
}

#[test]
fn board_neighbour_alive_count_correct_0th_iteration_1_alive_others_ahead() {
    let mut board = get_test_board();

    let cell = Cell::new(true, 1, false);
    board.set_cell(2, 2, cell);
    board.set_cell(1, 2, cell);
    let cell = Cell::new(true, 0, false);
    board.set_cell(2, 1, cell);

    assert_eq!(board.neighbour_alive_count(1, 1, 0), Some(1));
}

#[test]
fn board_neighbour_alive_count_correct_0th_iteration_neighbour_behind() {
    let mut board = get_test_board();

    let cell = Cell::new(true, 0, false);
    board.set_cell(2, 2, cell);

    assert_eq!(board.neighbour_alive_count(1, 1, 1), None);
}

#[test]
fn board_next_cell_waiting() {
    let mut board = get_test_board();
    let cell = Cell::new(true, 10, true);
    board.set_cell(1, 1, cell);

    assert_eq!(board.next_cell(1, 1, &board.get_cell(1, 1)), None);
}

#[test]
fn board_next_cell_die() {
    let board = get_test_board();

    let actual = board
        .next_cell(1, 1, &board.get_cell(1, 1))
        .expect("No next cell found when all cells on iteration 0");

    assert_eq!(actual.alive, false);
}

#[test]
fn board_next_cell_live() {
    let mut board = get_test_board();
    let cell = Cell::new(true, 0, false);
    board.set_cell(0, 0, cell);
    board.set_cell(0, 1, cell);

    let actual = board
        .next_cell(1, 1, &board.get_cell(1, 1))
        .expect("No next cell found when all cells on iteration 0");

    assert_eq!(actual.alive, true);
}

#[test]
fn cell_reports_generation_and_history() {
    let cell = Cell::new(true, 7, false);
    assert_eq!(cell.get_iteration(), 7);
    assert_eq!(cell.get_previous_alive(), false);
    assert!(cell.alive);
}

#[test]
fn board_bounds_checks() {
    let board = get_test_board();
    assert!(board.within_bounds(3, 3));
    assert!(!board.within_bounds(4, 0));
    assert!(!board.within_bounds(0, 4));
    assert_eq!(board.get_width(), 4);
    assert_eq!(board.get_height(), 4);
    assert_eq!(board.get_cell_option(1, 1), Some(Cell::new(true, 0, false)));
    assert_eq!(board.get_cell_option(4, 1), None);
}

#[test]
fn transition_rule_truth_table() {
    // A live cell survives with two or three live neighbours and only then.
    assert!(!Board::should_be_alive(true, 0));
    assert!(!Board::should_be_alive(true, 1));
    assert!(Board::should_be_alive(true, 2));
    assert!(Board::should_be_alive(true, 3));
    assert!(!Board::should_be_alive(true, 4));
    assert!(!Board::should_be_alive(true, 8));
    // A dead cell becomes alive with exactly three live neighbours.
    assert!(!Board::should_be_alive(false, 0));
    assert!(!Board::should_be_alive(false, 2));
    assert!(Board::should_be_alive(false, 3));
    assert!(!Board::should_be_alive(false, 4));
}

#[test]
fn dead_cell_with_three_neighbours_becomes_alive() {
    let mut board = Board::new(4, 4, &vec![]);
    let cell = Cell::new(true, 0, false);
    board.set_cell(0, 0, cell);
    board.set_cell(0, 1, cell);
    board.set_cell(0, 2, cell);

    let actual = board.next_cell(1, 1, &board.get_cell(1, 1)).unwrap();
    assert!(actual.alive);
    assert_eq!(actual.get_iteration(), 1);
    assert_eq!(actual.get_previous_alive(), false);
}

#[test]
fn dead_cell_with_two_neighbours_stays_dead() {
    let mut board = Board::new(4, 4, &vec![]);
    let cell = Cell::new(true, 0, false);
    board.set_cell(0, 0, cell);
    board.set_cell(0, 1, cell);

    let actual = board.next_cell(1, 1, &board.get_cell(1, 1)).unwrap();
    assert!(!actual.alive);
}

#[test]
fn isolated_cell_dies_and_empty_stays_empty() {
    let board = Board::new(4, 4, &vec![(1, 1)]);
    // The only live cell has no live neighbours, so it dies.
    let lonely = board.next_cell(1, 1, &board.get_cell(1, 1)).unwrap();
    assert!(!lonely.alive);
    // A dead cell with no live neighbours at all stays dead.
    let empty = Board::new(4, 4, &vec![]);
    let still_dead = empty.next_cell(2, 2, &empty.get_cell(2, 2)).unwrap();
    assert!(!still_dead.alive);
}

#[test]
fn neighbour_more_than_one_ahead_is_not_ready() {
    let mut board = Board::new(4, 4, &vec![]);
    board.set_cell(2, 2, Cell::new(true, 2, false));

    assert_eq!(board.neighbour_alive_count(1, 1, 0), None);
    assert_eq!(board.next_cell(1, 1, &board.get_cell(1, 1)), None);
}

#[test]
fn neighbour_one_ahead_is_read_through_previous_state() {
    let mut board = Board::new(4, 4, &vec![]);
    // The neighbour is currently dead, but was alive at generation 0.
    board.set_cell(2, 2, Cell::new(false, 1, true));
    assert_eq!(board.neighbour_alive_count(1, 1, 0), Some(1));
    // The same neighbour currently alive, but dead at generation 0.
    board.set_cell(2, 2, Cell::new(true, 1, false));
    assert_eq!(board.neighbour_alive_count(1, 1, 0), Some(0));
}

#[test]
fn next_cell_records_prior_state() {
    let mut board = Board::new(4, 4, &vec![(1, 1), (2, 1), (1, 2)]);
    let actual = board.next_cell(1, 1, &board.get_cell(1, 1)).unwrap();
    assert!(actual.alive);
    assert_eq!(actual.get_iteration(), 1);
    assert_eq!(actual.get_previous_alive(), true);
    board.set_cell(1, 1, actual);
    assert_eq!(board.get_cell(1, 1), Cell::new(true, 1, true));
}
