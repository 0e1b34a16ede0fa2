use tictactoe::ai::{alphabeta, minimax, move_ai, result, MAX_DEPTH};
use tictactoe::board::Board;
use tictactoe::player::{Outcome, Player};

fn board_from(cells: [Player; 9]) -> Board {
    let mut b = Board::default();
    for (i, c) in cells.iter().enumerate() {
        if *c != Player::Empty {
            b.place_at(i, *c).unwrap();
        }
    }
    b
}

#[test]
fn empty_board_with_optimal_play_is_a_draw() {
    let score = minimax(Board::default(), 9, Player::X).1;
    assert_eq!(score, Outcome::Draw);
    let pruned = alphabeta(
        Board::default(),
        Outcome::SecondPlayerWins,
        Outcome::FirstPlayerWins,
        9,
        Player::X,
    )
    .1;
    assert_eq!(pruned, Outcome::Draw);
}

#[test]
fn minimax_and_alphabeta_agree_on_every_tried_board() {
    let boards = [
        [
            Player::X,
            Player::X,
            Player::Empty,
            Player::O,
            Player::O,
            Player::Empty,
            Player::Empty,
            Player::Empty,
            Player::Empty,
        ],
        [
            Player::X,
            Player::O,
            Player::X,
            Player::Empty,
            Player::O,
            Player::Empty,
            Player::Empty,
            Player::Empty,
            Player::X,
        ],
        [
            Player::O,
            Player::Empty,
            Player::Empty,
            Player::Empty,
            Player::X,
            Player::Empty,
            Player::Empty,
            Player::Empty,
            Player::Empty,
        ],
        [
            Player::X,
            Player::O,
            Player::X,
            Player::X,
            Player::O,
            Player::O,
            Player::O,
            Player::X,
            Player::Empty,
        ],
    ];
    for cells in boards {
        for turn in [Player::X, Player::O] {
            let b = board_from(cells);
            let plain = minimax(b.clone(), 9, turn).1;
            let pruned = alphabeta(
                b,
                Outcome::SecondPlayerWins,
                Outcome::FirstPlayerWins,
                9,
                turn,
            )
            .1;
            assert_eq!(plain, pruned);
        }
    }
}

#[test]
fn depth_zero_returns_the_evaluation() {
    let b = board_from([
        Player::X,
        Player::X,
        Player::X,
        Player::O,
        Player::O,
        Player::Empty,
        Player::Empty,
        Player::Empty,
        Player::Empty,
    ]);
    assert_eq!(minimax(b, 0, Player::O).1, Outcome::FirstPlayerWins);
}

#[test]
fn engine_takes_the_winning_cell() {
    let cells = [
        Player::X,
        Player::X,
        Player::Empty,
        Player::O,
        Player::O,
        Player::Empty,
        Player::Empty,
        Player::Empty,
        Player::Empty,
    ];
    for optimized in [false, true] {
        let mut b = board_from(cells);
        move_ai(&mut b, Player::X, optimized);
        // completing row 0 at index 2 is the only move that wins at once
        assert_eq!(b.score(), Outcome::FirstPlayerWins);
        assert!(b.finished());
        assert!(!b.empty_positions().contains(&2));
    }
}

#[test]
fn engine_blocks_the_opponents_line() {
    // O threatens row 1 at index 5; X cannot win at once and must block
    let cells = [
        Player::X,
        Player::Empty,
        Player::Empty,
        Player::O,
        Player::O,
        Player::Empty,
        Player::X,
        Player::Empty,
        Player::Empty,
    ];
    for optimized in [false, true] {
        let mut b = board_from(cells);
        move_ai(&mut b, Player::X, optimized);
        assert!(!b.empty_positions().contains(&5));
    }
}

#[test]
fn engine_leaves_a_finished_board_alone() {
    let won = [
        Player::X,
        Player::X,
        Player::X,
        Player::O,
        Player::O,
        Player::Empty,
        Player::Empty,
        Player::Empty,
        Player::Empty,
    ];
    let mut b = board_from(won);
    let before = b.render();
    move_ai(&mut b, Player::X, false);
    move_ai(&mut b, Player::O, true);
    assert_eq!(b.render(), before);
}

#[test]
fn result_plays_on_a_copy() {
    let b = Board::default();
    let next = result(b.clone(), 4, Player::X);
    assert_eq!(b.empty_positions().len(), 9);
    assert_eq!(next.empty_positions().len(), 8);
    assert!(!next.empty_positions().contains(&4));
}

#[test]
fn default_budget_is_exhaustive_mid_game() {
    // after one exchange, MAX_DEPTH covers every continuation
    let cells = [
        Player::X,
        Player::Empty,
        Player::Empty,
        Player::Empty,
        Player::O,
        Player::Empty,
        Player::Empty,
        Player::Empty,
        Player::Empty,
    ];
    let b = board_from(cells);
    assert_eq!(minimax(b, MAX_DEPTH, Player::X).1, Outcome::Draw);
}
