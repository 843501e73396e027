use gamie::gomoku::{Error, Game, Player, Status};

#[test]
fn gomoku_five_in_a_row_wins() {
    let mut game = Game::new().unwrap();
    for c in 0..4 {
        game.put(7, c).unwrap();
        game.put(8, c).unwrap();
    }
    assert_eq!(game.status(), &Status::Ongoing);
    game.put(7, 4).unwrap();
    assert_eq!(game.status(), &Status::Win(Player::Player0));
    assert_eq!(game.put(0, 0), Err(Error::GameEnded));
}

#[test]
fn gomoku_gap_breaks_the_line() {
    let mut game = Game::new().unwrap();
    for c in [0, 1, 3, 4] {
        game.put(0, c).unwrap();
        game.put(14, c).unwrap();
    }
    game.put(0, 6).unwrap();
    assert_eq!(game.status(), &Status::Ongoing);
    game.put(14, 2).unwrap();
    assert_eq!(game.status(), &Status::Win(Player::Player1));
}

#[test]
fn gomoku_diagonal_win_and_occupied() {
    let mut game = Game::new().unwrap();
    for i in 0..4 {
        game.put(10 + i, 10 - i).unwrap();
        game.put(0, i).unwrap();
    }
    assert_eq!(game.put(10, 10), Err(Error::PositionOccupied));
    game.put(14, 6).unwrap();
    assert_eq!(game.status(), &Status::Win(Player::Player0));
    assert_eq!(game.get(14, 6), Some(Player::Player0));
    assert_eq!(game.get(1, 1), None);
}

#[test]
fn gomoku_turns_alternate() {
    let mut game = Game::new().unwrap();
    assert_eq!(game.next_player(), Player::Player0);
    game.put(7, 7).unwrap();
    assert_eq!(game.next_player(), Player::Player1);
    assert_eq!(Player::Player1.other(), Player::Player0);
}
