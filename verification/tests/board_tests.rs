use tictactoe::board::{Board, PlaceError};
use tictactoe::player::{Outcome, Player};

fn board_from(cells: [Player; 9]) -> Board {
    let mut b = Board::default();
    for (i, c) in cells.iter().enumerate() {
        if *c != Player::Empty {
            b.place_at(i, *c).unwrap();
        }
    }
    b
}

#[test]
fn legal_moves_plus_occupied_is_nine() {
    let empty = Board::default();
    assert_eq!(empty.empty_positions().len(), 9);

    let mut b = Board::default();
    b.place_at(0, Player::X).unwrap();
    b.place_at(4, Player::O).unwrap();
    b.place_at(8, Player::X).unwrap();
    // three cells occupied, so six legal moves remain
    assert_eq!(b.empty_positions().len() + 3, 9);
    assert_eq!(b.empty_positions(), vec![1, 2, 3, 5, 6, 7]);
}

#[test]
fn evaluate_is_draw_without_a_full_line() {
    let b = board_from([
        Player::X,
        Player::O,
        Player::Empty,
        Player::Empty,
        Player::O,
        Player::Empty,
        Player::Empty,
        Player::Empty,
        Player::X,
    ]);
    assert_eq!(b.score(), Outcome::Draw);
}

#[test]
fn evaluate_reports_row_column_and_diagonal_wins() {
    let row = board_from([
        Player::X,
        Player::X,
        Player::X,
        Player::O,
        Player::O,
        Player::Empty,
        Player::Empty,
        Player::Empty,
        Player::Empty,
    ]);
    assert_eq!(row.score(), Outcome::FirstPlayerWins);

    let column = board_from([
        Player::O,
        Player::X,
        Player::Empty,
        Player::O,
        Player::X,
        Player::Empty,
        Player::O,
        Player::Empty,
        Player::X,
    ]);
    assert_eq!(column.score(), Outcome::SecondPlayerWins);

    let diagonal = board_from([
        Player::X,
        Player::O,
        Player::Empty,
        Player::O,
        Player::X,
        Player::Empty,
        Player::Empty,
        Player::Empty,
        Player::X,
    ]);
    assert_eq!(diagonal.score(), Outcome::FirstPlayerWins);

    let anti_diagonal = board_from([
        Player::X,
        Player::X,
        Player::O,
        Player::Empty,
        Player::O,
        Player::Empty,
        Player::O,
        Player::Empty,
        Player::X,
    ]);
    assert_eq!(anti_diagonal.score(), Outcome::SecondPlayerWins);
}

#[test]
fn evaluate_and_finished_are_idempotent() {
    let mut b = Board::default();
    b.place_at(0, Player::X).unwrap();
    b.place_at(4, Player::O).unwrap();
    assert_eq!(b.score(), b.score());
    assert_eq!(b.finished(), b.finished());
    assert_eq!(b.score(), Outcome::Draw);
    assert!(!b.finished());
}

#[test]
fn occupied_cell_is_rejected_and_board_unchanged() {
    let mut b = Board::default();
    b.place_at(4, Player::X).unwrap();
    let before_moves = b.empty_positions();
    let before_text = b.render();
    let r = b.place_at(4, Player::O);
    assert!(matches!(r, Err(PlaceError::AlreadyOccupied)));
    assert_eq!(b.empty_positions(), before_moves);
    assert_eq!(b.render(), before_text);
}

#[test]
fn out_of_range_index_is_rejected() {
    let mut b = Board::default();
    assert!(matches!(b.place_at(9, Player::X), Err(PlaceError::InvalidPosition)));
    assert!(matches!(b.place_at(100, Player::O), Err(PlaceError::InvalidPosition)));
    assert_eq!(b.empty_positions().len(), 9);
}

#[test]
fn full_board_without_line_is_a_finished_draw() {
    let b = board_from([
        Player::X,
        Player::O,
        Player::X,
        Player::X,
        Player::O,
        Player::O,
        Player::O,
        Player::X,
        Player::X,
    ]);
    assert_eq!(b.score(), Outcome::Draw);
    assert!(b.finished());
    assert_eq!(b.empty_positions().len(), 0);
}

#[test]
fn render_shows_marks_and_position_numbers() {
    let empty = Board::default();
    assert_eq!(empty.render(), "123\n456\n789\n");

    let mut b = Board::default();
    b.place_at(0, Player::X).unwrap();
    b.place_at(4, Player::O).unwrap();
    assert_eq!(b.render(), "X23\n4O6\n789\n");
}

#[test]
fn player_marks_score_their_outcome() {
    assert_eq!(Player::X.score(), Outcome::FirstPlayerWins);
    assert_eq!(Player::O.score(), Outcome::SecondPlayerWins);
    assert_eq!(Player::Empty.score(), Outcome::Draw);
}
