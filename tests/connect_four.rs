use gamie::connect_four::{Error, Game, Player, Status};

#[test]
fn connect_four_test() {
    let mut game = Game::new().unwrap();

    game.put(3).unwrap();
    game.put(2).unwrap();
    game.put(2).unwrap();
    game.put(1).unwrap();
    game.put(1).unwrap();
    game.put(0).unwrap();
    game.put(3).unwrap();
    game.put(0).unwrap();
    game.put(1).unwrap();
    game.put(6).unwrap();
    game.put(2).unwrap();
    game.put(6).unwrap();
    game.put(3).unwrap();
    game.put(5).unwrap();
    game.put(0).unwrap();

    assert_eq!(game.status(), &Status::Win(Player::Player0));
}

#[test]
fn connect_four_pieces_fall_to_the_bottom() {
    let mut game = Game::new().unwrap();
    game.put(4).unwrap();
    game.put(4).unwrap();
    assert_eq!(game.get(5, 4), Some(Player::Player0));
    assert_eq!(game.get(4, 4), Some(Player::Player1));
    assert_eq!(game.get(3, 4), None);
    assert_eq!(game.next_player(), Player::Player0);
}

#[test]
fn connect_four_full_column_is_refused() {
    let mut game = Game::new().unwrap();
    for _ in 0..6 {
        game.put(0).unwrap();
    }
    assert_eq!(game.status(), &Status::Ongoing);
    assert_eq!(game.put(0), Err(Error::ColumnFilled));
    assert_eq!(game.next_player(), Player::Player0);
}

#[test]
fn connect_four_vertical_win_and_game_end() {
    let mut game = Game::new().unwrap();
    for _ in 0..3 {
        game.put(0).unwrap();
        game.put(1).unwrap();
    }
    game.put(0).unwrap();
    assert_eq!(game.status(), &Status::Win(Player::Player0));
    assert_eq!(game.put(1), Err(Error::GameEnded));
}

#[test]
fn connect_four_three_in_a_row_is_not_a_win() {
    let mut game = Game::new().unwrap();
    for c in [0, 0, 1, 1, 2, 2] {
        game.put(c).unwrap();
    }
    assert_eq!(game.status(), &Status::Ongoing);
    game.put(3).unwrap();
    assert_eq!(game.status(), &Status::Win(Player::Player0));
}
