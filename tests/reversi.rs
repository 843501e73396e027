use gamie::reversi::{Error, Game, Player, Status};

#[test]
fn reversi_test() {
    let mut game = Game::new().unwrap();

    game.can_place_at(2, 4).unwrap();

    game.place(2, 4).unwrap();
    game.place(2, 3).unwrap();

    assert!(matches!(game.place(2, 3), Err(Error::PositionOccupied)));
    assert!(matches!(game.place(2, 6), Err(Error::InvalidPosition)));
}

#[test]
fn reversi_opening_and_flip() {
    let mut game = Game::new().unwrap();
    assert_eq!(game.get(3, 3), Some(Player::Player0));
    assert_eq!(game.get(3, 4), Some(Player::Player1));
    assert_eq!(game.get(0, 0), None);
    assert_eq!(game.can_place_at(0, 0), Err(Error::InvalidPosition));
    assert_eq!(game.can_place_at(3, 3), Err(Error::PositionOccupied));
    game.place(2, 4).unwrap();
    assert_eq!(game.get(2, 4), Some(Player::Player0));
    assert_eq!(game.get(3, 4), Some(Player::Player0));
    assert_eq!(game.get(4, 3), Some(Player::Player1));
    assert_eq!(game.next_player(), Player::Player1);
    assert_eq!(game.status(), &Status::Ongoing);
}

#[test]
fn reversi_quickest_game_ends_with_a_win() {
    let mut game = Game::new().unwrap();
    for (r, c) in [(2, 4), (2, 3), (1, 2), (1, 5), (1, 4), (2, 5), (4, 2), (1, 3), (1, 6)] {
        game.place(r, c).unwrap();
    }
    assert_eq!(game.status(), &Status::Win(Player::Player0));
    assert_eq!(game.place(0, 0), Err(Error::GameEnded));
    assert_eq!(game.can_place_at(0, 0), Err(Error::GameEnded));
}
