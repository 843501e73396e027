use gamie::tictactoe::{Error, Game, Player, Status};

#[test]
fn tictactoe_test() {
    let mut game = Game::new().unwrap();

    game.put(1, 1).unwrap();

    assert_eq!(game.next_player(), Player::Player1);

    game.put(1, 0).unwrap();

    assert_eq!(game.next_player(), Player::Player0);
    assert!(matches!(game.put(1, 1), Err(Error::PositionOccupied)));

    game.put(2, 2).unwrap();
    game.put(2, 0).unwrap();
    game.put(0, 0).unwrap();

    assert_eq!(game.status(), &Status::Win(Player::Player0));
    assert!(matches!(game.put(0, 2), Err(Error::GameEnded)));
}

#[test]
fn tictactoe_corner_opening_is_not_a_win() {
    let mut game = Game::new().unwrap();
    game.put(0, 0).unwrap();
    assert_eq!(game.status(), &Status::Ongoing);
    game.put(0, 2).unwrap();
    assert_eq!(game.status(), &Status::Ongoing);
    assert_eq!(game.get(0, 0), Some(Player::Player0));
    assert_eq!(game.get(0, 2), Some(Player::Player1));
    assert_eq!(game.get(1, 1), None);
}

#[test]
fn tictactoe_full_board_is_a_draw() {
    let mut game = Game::new().unwrap();
    for (r, c) in [(0, 0), (0, 1), (0, 2), (1, 1), (1, 0), (1, 2), (2, 1), (2, 0)] {
        game.put(r, c).unwrap();
        assert_eq!(game.status(), &Status::Ongoing);
    }
    game.put(2, 2).unwrap();
    assert_eq!(game.status(), &Status::Draw);
    assert_eq!(game.put(0, 0), Err(Error::GameEnded));
}

#[test]
fn tictactoe_column_and_anti_diagonal_wins() {
    let mut game = Game::new().unwrap();
    for (r, c) in [(0, 1), (0, 0), (1, 1), (2, 2)] {
        game.put(r, c).unwrap();
    }
    game.put(2, 1).unwrap();
    assert_eq!(game.status(), &Status::Win(Player::Player0));

    let mut game = Game::new().unwrap();
    for (r, c) in [(0, 0), (0, 2), (0, 1), (1, 1), (2, 2)] {
        game.put(r, c).unwrap();
    }
    game.put(2, 0).unwrap();
    assert_eq!(game.status(), &Status::Win(Player::Player1));
}

#[test]
fn tictactoe_other_player() {
    assert_eq!(Player::Player0.other(), Player::Player1);
    assert_eq!(Player::Player1.other(), Player::Player0);
}
