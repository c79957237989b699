use tictactoe::board::{Board, Coordinate, FieldType, GameResults};

#[test]
fn game_test_format_empty_board() {
    let expected = "   |   |   \n---+---+---\n   |   |   \n---+---+---\n   |   |   \n";
    let board = Board::empty();
    let subject = board.format_board();
    assert_eq!(expected, subject);
}

#[test]
fn game_test_format_non_empty_board_diag() {
    let expected = " X |   |   \n---+---+---\n   | O |   \n---+---+---\n   |   | X \n";
    let board = Board::empty();
    let board = board.move_next(Coordinate(0, 0), FieldType::X).unwrap();
    let board = board.move_next(Coordinate(1, 1), FieldType::O).unwrap();
    let board = board.move_next(Coordinate(2, 2), FieldType::X).unwrap();
    let subject = board.format_board();
    assert_eq!(expected, subject);
}

#[test]
fn game_test_format_non_empty_board_first_row() {
    let expected = " X | X | X \n---+---+---\n   |   |   \n---+---+---\n   |   |   \n";
    let board = Board::empty();
    let board = board.move_next(Coordinate(0, 0), FieldType::X).unwrap();
    let board = board.move_next(Coordinate(1, 0), FieldType::X).unwrap();
    let board = board.move_next(Coordinate(2, 0), FieldType::X).unwrap();
    let subject = board.format_board();
    assert_eq!(expected, subject);
}

#[test]
fn game_test_format_non_empty_board_first_column() {
    let expected = " X |   |   \n---+---+---\n X |   |   \n---+---+---\n X |   |   \n";
    let board = Board::empty();
    let board = board.move_next(Coordinate(0, 0), FieldType::X).unwrap();
    let board = board.move_next(Coordinate(0, 1), FieldType::X).unwrap();
    let board = board.move_next(Coordinate(0, 2), FieldType::X).unwrap();
    let subject = board.format_board();
    assert_eq!(expected, subject);
}

#[test]
fn game_test_move_is_valid() {
    let board = Board::empty();
    assert!(board.is_move_valid(Coordinate(0, 0)));
    assert!(board.is_move_valid(Coordinate(0, 1)));
    assert!(board.is_move_valid(Coordinate(0, 2)));
    assert!(board.is_move_valid(Coordinate(1, 0)));
    assert!(board.is_move_valid(Coordinate(1, 1)));
    assert!(board.is_move_valid(Coordinate(1, 2)));
    assert!(board.is_move_valid(Coordinate(2, 0)));
    assert!(board.is_move_valid(Coordinate(2, 1)));
    assert!(board.is_move_valid(Coordinate(2, 2)));
}

#[test]
fn game_test_move_is_valid_when_coordinate_is_out_of_bound() {
    let board = Board::empty();
    assert!(!board.is_move_valid(Coordinate(3, 0)));
    assert!(!board.is_move_valid(Coordinate(0, 3)));
    assert!(!board.is_move_valid(Coordinate(3, 3)));
}

#[test]
fn game_test_move_is_valid_when_coordinate_is_not_empty() {
    let board = Board::empty();
    let board = board.move_next(Coordinate(0, 0), FieldType::X).unwrap();
    assert!(!board.is_move_valid(Coordinate(0, 0)));
}

#[test]
fn game_test_set_field() {
    let board = Board::empty();
    let subject = board.move_next(Coordinate(0, 0), FieldType::X).unwrap();
    assert_eq!(FieldType::X, subject.get(Coordinate(0, 0)));
    assert_eq!(subject.move_count(), 1);
}

#[test]
fn game_test_set_field_when_coordinates_is_invalid() {
    let board = Board::empty();
    let result = board.move_next(Coordinate(0, 5), FieldType::X);
    assert!(result.is_err());
}

#[test]
fn game_test_check_colums_result() {
    let board = Board::empty();
    let board = board.move_next(Coordinate(0, 0), FieldType::X).unwrap();
    let board = board.move_next(Coordinate(0, 1), FieldType::X).unwrap();
    let board = board.move_next(Coordinate(0, 2), FieldType::X).unwrap();
    assert_eq!(board.check_colums(), GameResults::XWon);
}

#[test]
fn game_test_check_columns_result_when_o_wins() {
    let board = Board::empty();
    let board = board.move_next(Coordinate(1, 0), FieldType::O).unwrap();
    let board = board.move_next(Coordinate(1, 1), FieldType::O).unwrap();
    let board = board.move_next(Coordinate(1, 2), FieldType::O).unwrap();
    assert_eq!(board.check_colums(), GameResults::OWon);
}

#[test]
fn game_test_check_columns_result_when_in_progress() {
    let board = Board::empty();
    let board = board.move_next(Coordinate(1, 0), FieldType::O).unwrap();
    let board = board.move_next(Coordinate(1, 1), FieldType::O).unwrap();
    assert_eq!(board.check_colums(), GameResults::InProgress);
}

#[test]
fn game_test_check_rows_result() {
    let board = Board::empty();
    let board = board.move_next(Coordinate(0, 0), FieldType::X).unwrap();
    let board = board.move_next(Coordinate(1, 0), FieldType::X).unwrap();
    let board = board.move_next(Coordinate(2, 0), FieldType::X).unwrap();
    assert_eq!(board.check_rows(), GameResults::XWon);
}

#[test]
fn game_test_check_crows_result_when_o_wins() {
    let board = Board::empty();
    let board = board.move_next(Coordinate(0, 1), FieldType::O).unwrap();
    let board = board.move_next(Coordinate(1, 1), FieldType::O).unwrap();
    let board = board.move_next(Coordinate(2, 1), FieldType::O).unwrap();
    assert_eq!(board.check_rows(), GameResults::OWon);
}

#[test]
fn game_test_check_rows_result_when_in_progress() {
    let board = Board::empty();
    let board = board.move_next(Coordinate(1, 0), FieldType::O).unwrap();
    let board = board.move_next(Coordinate(1, 1), FieldType::O).unwrap();
    assert_eq!(board.check_rows(), GameResults::InProgress);
}
