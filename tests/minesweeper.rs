use gamie::minesweeper::{Cell, CellStatus, Error, Game, RandomSource, Status};

/// Draws that place mines exactly at the listed positions: the smallest draw
/// where a mine is wanted, the largest elsewhere.
struct Layout {
    mines: Vec<bool>,
    next: usize,
}

impl Layout {
    fn new(width: usize, height: usize, mines: &[(usize, usize)]) -> Layout {
        let mut v = vec![false; width * height];
        for &(r, c) in mines {
            v[r * width + c] = true;
        }
        Layout { mines: v, next: 0 }
    }
}

impl RandomSource for Layout {
    fn next_in_range(&mut self, n: usize) -> usize {
        let mine = self.mines[self.next];
        self.next += 1;
        if mine {
            0
        } else {
            n - 1
        }
    }
}

fn board(width: usize, height: usize, mines: &[(usize, usize)]) -> Game {
    let mut layout = Layout::new(width, height, mines);
    Game::new(&mut layout, width, height, mines.len()).unwrap()
}

fn count_mines(game: &Game, width: usize, height: usize) -> usize {
    let mut n = 0;
    for r in 0..height {
        for c in 0..width {
            if game.get(r, c).is_mine() {
                n += 1;
            }
        }
    }
    n
}

fn snapshot(game: &Game, width: usize, height: usize) -> Vec<Cell> {
    let mut v = Vec::new();
    for r in 0..height {
        for c in 0..width {
            v.push(*game.get(r, c));
        }
    }
    v
}

fn revealed(n: usize) -> CellStatus {
    CellStatus::Revealed { adjacent_mine_count: n }
}

#[test]
fn new_places_exactly_the_requested_mines() {
    let mut rng = rand::rng();
    for &(w, h, m) in &[(8, 8, 9), (5, 5, 0), (4, 3, 12), (1, 1, 1), (10, 7, 35)] {
        let game = Game::new(&mut rng, w, h, m).unwrap();
        assert_eq!(count_mines(&game, w, h), m);
        assert_eq!(game.mine_count(), m);
        assert_eq!(game.flag_count(), 0);
        assert_eq!(game.status(), &Status::Ongoing);
        for r in 0..h {
            for c in 0..w {
                assert_eq!(game.get(r, c).status(), &CellStatus::Hidden);
            }
        }
    }
}

#[test]
fn new_with_stub_places_mines_where_drawn() {
    let game = board(3, 2, &[(0, 1), (1, 2)]);
    assert!(game.get(0, 1).is_mine());
    assert!(game.get(1, 2).is_mine());
    assert!(!game.get(0, 0).is_mine());
    assert_eq!(count_mines(&game, 3, 2), 2);
    assert_eq!(game.mine_count(), 2);
}

#[test]
fn too_many_mines_is_refused() {
    let mut rng = rand::rng();
    assert_eq!(Game::new(&mut rng, 3, 3, 10).err(), Some(Error::TooManyMines));
    assert!(Game::new(&mut rng, 3, 3, 9).is_ok());
}

#[test]
fn cascade_stops_at_a_wall_of_mines() {
    let mut game = board(5, 5, &[(3, 0), (3, 1), (3, 2), (3, 3), (3, 4)]);
    game.click(0, 0, false).unwrap();
    for r in 0..2 {
        for c in 0..5 {
            assert_eq!(game.get(r, c).status(), &revealed(0));
        }
    }
    assert_eq!(game.get(2, 0).status(), &revealed(2));
    assert_eq!(game.get(2, 1).status(), &revealed(3));
    assert_eq!(game.get(2, 2).status(), &revealed(3));
    assert_eq!(game.get(2, 3).status(), &revealed(3));
    assert_eq!(game.get(2, 4).status(), &revealed(2));
    for c in 0..5 {
        assert_eq!(game.get(3, c).status(), &CellStatus::Hidden);
        assert_eq!(game.get(4, c).status(), &CellStatus::Hidden);
    }
    assert_eq!(game.status(), &Status::Ongoing);
}

#[test]
fn cascade_reveals_the_whole_mine_free_region() {
    let mut game = board(5, 5, &[(3, 3), (3, 4), (4, 3), (4, 4)]);
    game.click(0, 0, false).unwrap();
    for r in 0..3 {
        for c in 0..3 {
            assert_eq!(game.get(r, c).status(), &revealed(if (r, c) == (2, 2) { 1 } else { 0 }));
        }
    }
    assert_eq!(game.get(2, 3).status(), &revealed(2));
    assert_eq!(game.get(4, 2).status(), &revealed(2));
    assert_eq!(game.get(3, 3).status(), &CellStatus::Hidden);
    assert_eq!(game.status(), &Status::Finished);
}

#[test]
fn click_on_flagged_changes_nothing() {
    let mut game = board(4, 4, &[(1, 1), (2, 3)]);
    game.click(0, 3, false).unwrap();
    game.flag(3, 0).unwrap();
    let before = snapshot(&game, 4, 4);
    assert_eq!(game.click(3, 0, false), Err(Error::ClickOnFlagged));
    assert_eq!(game.click(3, 0, true), Err(Error::ClickOnFlagged));
    assert_eq!(snapshot(&game, 4, 4), before);
    assert_eq!(game.flag_count(), 1);
    assert_eq!(game.status(), &Status::Ongoing);
}

#[test]
fn flags_never_exceed_mines() {
    let mut game = board(3, 3, &[(0, 0), (2, 2)]);
    game.flag(0, 1).unwrap();
    game.flag(1, 0).unwrap();
    assert_eq!(game.flag_count(), 2);
    assert_eq!(game.flag(1, 1), Err(Error::TooManyFlags));
    assert_eq!(game.get(1, 1).status(), &CellStatus::Hidden);
    assert_eq!(game.flag_count(), 2);
    game.flag(0, 1).unwrap();
    assert_eq!(game.get(0, 1).status(), &CellStatus::Hidden);
    assert_eq!(game.flag_count(), 1);
    game.flag(1, 1).unwrap();
    assert_eq!(game.flag_count(), 2);
}

#[test]
fn chord_detonates_every_hidden_mine() {
    let mut game = board(3, 3, &[(0, 0), (0, 2)]);
    game.click(1, 1, false).unwrap();
    assert_eq!(game.get(1, 1).status(), &revealed(2));
    game.flag(0, 1).unwrap();
    game.flag(2, 1).unwrap();
    game.click(1, 1, false).unwrap();
    assert_eq!(game.status(), &Status::Exploded);
    assert_eq!(game.get(0, 0).status(), &CellStatus::Exploded);
    assert_eq!(game.get(0, 2).status(), &CellStatus::Exploded);
    assert_eq!(game.get(1, 0).status(), &revealed(1));
    assert_eq!(game.get(1, 2).status(), &revealed(1));
    assert_eq!(game.get(2, 0).status(), &revealed(0));
    assert_eq!(game.get(2, 2).status(), &revealed(0));
    assert_eq!(game.get(0, 1).status(), &CellStatus::Flagged);
    assert_eq!(game.click(2, 0, false), Err(Error::GameEnded));
    assert_eq!(game.flag(0, 1), Err(Error::GameEnded));
}

#[test]
fn chord_reveals_remaining_neighbours() {
    let mut game = board(3, 4, &[(0, 0), (3, 2)]);
    game.click(1, 1, false).unwrap();
    assert_eq!(game.get(1, 1).status(), &revealed(1));
    assert_eq!(game.click(1, 1, false), Err(Error::InvalidClick));
    game.flag(0, 0).unwrap();
    game.click(1, 1, false).unwrap();
    assert_eq!(game.get(0, 1).status(), &revealed(1));
    assert_eq!(game.get(1, 0).status(), &revealed(1));
    assert_eq!(game.get(1, 2).status(), &revealed(0));
    assert_eq!(game.get(2, 2).status(), &revealed(1));
    assert_eq!(game.get(3, 0).status(), &revealed(0));
    assert_eq!(game.get(3, 1).status(), &revealed(1));
    assert_eq!(game.get(3, 2).status(), &CellStatus::Hidden);
    assert_eq!(game.status(), &Status::Finished);
}

#[test]
fn finished_when_all_safe_cells_are_revealed() {
    let mut game = board(3, 1, &[(0, 0)]);
    game.click(0, 2, false).unwrap();
    assert_eq!(game.get(0, 1).status(), &revealed(1));
    assert_eq!(game.get(0, 0).status(), &CellStatus::Hidden);
    assert_eq!(game.flag_count(), 0);
    assert_eq!(game.status(), &Status::Finished);
}

#[test]
fn finished_when_all_mines_are_flagged() {
    let mut game = board(3, 3, &[(0, 0), (2, 2)]);
    game.flag(0, 0).unwrap();
    assert_eq!(game.status(), &Status::Ongoing);
    game.flag(2, 2).unwrap();
    assert_eq!(game.status(), &Status::Finished);
    assert_eq!(game.flag(1, 1), Err(Error::GameEnded));
}

#[test]
fn wrong_flags_do_not_finish() {
    let mut game = board(3, 3, &[(0, 0), (2, 2)]);
    game.flag(0, 0).unwrap();
    game.flag(1, 1).unwrap();
    assert_eq!(game.status(), &Status::Ongoing);
}

#[test]
fn auto_flag_marks_the_only_candidates() {
    let mut game = board(3, 3, &[(0, 0), (2, 2)]);
    game.click(0, 1, false).unwrap();
    game.click(0, 2, false).unwrap();
    assert_eq!(game.get(1, 1).status(), &revealed(2));
    assert_eq!(game.get(1, 2).status(), &revealed(1));
    game.click(1, 0, false).unwrap();
    assert_eq!(game.get(0, 1).status(), &revealed(1));
    assert_eq!(game.click(0, 1, false), Err(Error::InvalidClick));
    game.click(0, 1, true).unwrap();
    assert_eq!(game.get(0, 0).status(), &CellStatus::Flagged);
    assert_eq!(game.flag_count(), 1);
    assert_eq!(game.status(), &Status::Ongoing);
}

#[test]
fn auto_flag_respects_the_flag_limit() {
    let mut game = board(3, 3, &[(0, 0), (2, 2)]);
    game.click(0, 1, false).unwrap();
    game.click(0, 2, false).unwrap();
    game.click(1, 0, false).unwrap();
    game.flag(2, 0).unwrap();
    game.flag(2, 1).unwrap();
    let before = snapshot(&game, 3, 3);
    assert_eq!(game.click(0, 1, true), Err(Error::TooManyFlags));
    assert_eq!(snapshot(&game, 3, 3), before);
    assert_eq!(game.flag_count(), 2);
}

#[test]
fn flag_on_revealed_is_refused() {
    let mut game = board(3, 3, &[(0, 0), (2, 2)]);
    game.click(0, 1, false).unwrap();
    assert_eq!(game.flag(0, 1), Err(Error::ClickOnRevealed));
    assert_eq!(game.flag_count(), 0);
    assert_eq!(game.status(), &Status::Ongoing);
}

#[test]
fn hidden_mine_click_explodes() {
    let mut game = board(2, 2, &[(1, 1)]);
    game.click(1, 1, false).unwrap();
    assert_eq!(game.get(1, 1).status(), &CellStatus::Exploded);
    assert_eq!(game.status(), &Status::Exploded);
    assert_eq!(game.get(0, 0).status(), &CellStatus::Hidden);
}

#[test]
fn scripted_game_on_eight_by_eight() {
    let mut mines: Vec<(usize, usize)> = (0..8).map(|r| (r, 2)).collect();
    mines.push((7, 0));
    let mut game = board(8, 8, &mines);
    assert_eq!(game.mine_count(), 9);

    game.click(7, 7, false).unwrap();
    for r in 0..8 {
        for c in 4..8 {
            assert_eq!(game.get(r, c).status(), &revealed(0));
        }
        let edge = if r == 0 || r == 7 { 2 } else { 3 };
        assert_eq!(game.get(r, 3).status(), &revealed(edge));
        for c in 0..3 {
            assert_eq!(game.get(r, c).status(), &CellStatus::Hidden);
        }
    }

    game.flag(0, 2).unwrap();
    assert_eq!(game.click(0, 3, false), Err(Error::InvalidClick));
    game.click(0, 3, true).unwrap();
    assert_eq!(game.get(1, 2).status(), &CellStatus::Flagged);
    assert_eq!(game.flag_count(), 2);
    assert_eq!(game.click(1, 3, false), Err(Error::InvalidClick));
    game.flag(2, 2).unwrap();
    game.click(1, 3, false).unwrap();
    assert_eq!(game.flag_count(), 3);
    game.click(0, 1, false).unwrap();
    assert_eq!(game.get(0, 1).status(), &revealed(2));
    game.click(3, 0, false).unwrap();

    for r in 0..6 {
        assert_eq!(game.get(r, 0).status(), &revealed(0));
    }
    assert_eq!(game.get(6, 0).status(), &revealed(1));
    for r in 1..6 {
        assert_eq!(game.get(r, 1).status(), &revealed(3));
    }
    assert_eq!(game.get(6, 1).status(), &revealed(4));
    assert_eq!(game.get(7, 1).status(), &CellStatus::Hidden);
    assert_eq!(game.get(7, 0).status(), &CellStatus::Hidden);
    for r in 3..8 {
        assert_eq!(game.get(r, 2).status(), &CellStatus::Hidden);
    }
    assert_eq!(game.status(), &Status::Ongoing);

    game.click(7, 1, false).unwrap();
    assert_eq!(game.get(7, 1).status(), &revealed(3));
    assert_eq!(game.status(), &Status::Finished);
    assert_eq!(game.flag(7, 0), Err(Error::GameEnded));
    assert_eq!(game.flag_count(), 3);
}

/// Counts its draws; always draws zero.
struct Zeros {
    calls: usize,
}

impl RandomSource for Zeros {
    fn next_in_range(&mut self, _n: usize) -> usize {
        self.calls += 1;
        0
    }
}

/// Draws for `from_draws`: zero at the listed indices, the largest allowed
/// value elsewhere.
fn draws_zero_at(total: usize, zeros: &[usize]) -> Vec<usize> {
    (0..total).map(|i| if zeros.contains(&i) { 0 } else { total - i - 1 }).collect()
}

#[test]
fn cascade_passes_through_a_flagged_safe_cell() {
    let mut game = board(5, 1, &[(0, 4)]);
    game.flag(0, 1).unwrap();
    assert_eq!(game.flag_count(), 1);
    game.click(0, 0, false).unwrap();
    assert_eq!(game.get(0, 1).status(), &revealed(0));
    assert_eq!(game.get(0, 2).status(), &revealed(0));
    assert_eq!(game.get(0, 3).status(), &revealed(1));
    assert_eq!(game.get(0, 4).status(), &CellStatus::Hidden);
    assert_eq!(game.flag_count(), 0);
    assert_eq!(game.status(), &Status::Finished);
}

#[test]
fn cascade_keeps_flags_on_mines() {
    let mut game = board(6, 1, &[(0, 4), (0, 5)]);
    game.flag(0, 4).unwrap();
    game.flag(0, 2).unwrap();
    assert_eq!(game.flag_count(), 2);
    game.click(0, 0, false).unwrap();
    assert_eq!(game.get(0, 2).status(), &revealed(0));
    assert_eq!(game.get(0, 3).status(), &revealed(1));
    assert_eq!(game.get(0, 4).status(), &CellStatus::Flagged);
    assert_eq!(game.get(0, 5).status(), &CellStatus::Hidden);
    assert_eq!(game.flag_count(), 1);
    assert_eq!(game.status(), &Status::Finished);
}

#[test]
fn zero_draws_fill_the_first_cells() {
    let game = Game::from_draws(8, 8, 9, &vec![0; 64]).unwrap();
    for r in 0..8 {
        for c in 0..8 {
            let expected = r == 0 || (r, c) == (1, 0);
            assert_eq!(game.get(r, c).is_mine(), expected);
            assert_eq!(game.get(r, c).status(), &CellStatus::Hidden);
        }
    }
    assert_eq!(game.mine_count(), 9);

    let mut zeros = Zeros { calls: 0 };
    let same = Game::new(&mut zeros, 8, 8, 9).unwrap();
    assert_eq!(zeros.calls, 64);
    assert_eq!(snapshot(&same, 8, 8), snapshot(&game, 8, 8));
}

#[test]
fn largest_draws_fill_the_last_cells() {
    let game = Game::from_draws(3, 2, 2, &draws_zero_at(6, &[])).unwrap();
    assert_eq!(count_mines(&game, 3, 2), 2);
    assert!(game.get(1, 1).is_mine());
    assert!(game.get(1, 2).is_mine());
    assert!(!game.get(1, 0).is_mine());
}

#[test]
fn too_many_mines_draws_nothing() {
    let mut zeros = Zeros { calls: 0 };
    assert_eq!(Game::new(&mut zeros, 2, 3, 7).err(), Some(Error::TooManyMines));
    assert_eq!(zeros.calls, 0);
    assert_eq!(Game::from_draws(2, 3, 7, &draws_zero_at(6, &[])).err(), Some(Error::TooManyMines));
}

#[test]
fn click_on_drawn_five_by_five_reveals_the_mine_free_block() {
    let mut game = Game::from_draws(5, 5, 4, &draws_zero_at(25, &[1, 4, 10, 20])).unwrap();
    for &(r, c) in &[(0, 1), (0, 4), (2, 0), (4, 0)] {
        assert!(game.get(r, c).is_mine());
    }
    game.click(3, 3, false).unwrap();
    for r in 2..5 {
        for c in 2..5 {
            assert_eq!(game.get(r, c).status(), &revealed(0));
        }
    }
    for &((r, c), n) in &[((1, 1), 2), ((1, 2), 1), ((1, 3), 1), ((1, 4), 1), ((2, 1), 1), ((3, 1), 2), ((4, 1), 1)] {
        assert_eq!(game.get(r, c).status(), &revealed(n));
    }
    for &(r, c) in &[(0, 0), (0, 2), (0, 3), (1, 0), (3, 0), (0, 1), (0, 4), (2, 0), (4, 0)] {
        assert_eq!(game.get(r, c).status(), &CellStatus::Hidden);
    }
    assert_eq!(game.status(), &Status::Ongoing);
}

#[test]
fn click_on_zero_drawn_eight_by_eight_finishes() {
    let mut game = Game::from_draws(8, 8, 9, &draws_zero_at(64, &(0..9).collect::<Vec<_>>())).unwrap();
    game.click(7, 7, false).unwrap();
    assert_eq!(game.status(), &Status::Finished);
    assert_eq!(game.get(1, 1).status(), &revealed(4));
    for c in 2..7 {
        assert_eq!(game.get(1, c).status(), &revealed(3));
    }
    assert_eq!(game.get(1, 7).status(), &revealed(2));
    assert_eq!(game.get(2, 0).status(), &revealed(1));
    assert_eq!(game.get(2, 1).status(), &revealed(1));
    assert_eq!(game.get(5, 5).status(), &revealed(0));
    assert_eq!(game.get(0, 0).status(), &CellStatus::Hidden);
    assert_eq!(game.flag_count(), 0);
    assert_eq!(game.flag(0, 0), Err(Error::GameEnded));
    assert_eq!(game.click(1, 1, true), Err(Error::GameEnded));
}

#[test]
fn flags_on_zero_drawn_two_by_two() {
    let mut game = Game::from_draws(2, 2, 1, &draws_zero_at(4, &[0])).unwrap();
    game.flag(1, 1).unwrap();
    assert_eq!(game.flag(1, 0), Err(Error::TooManyFlags));
    assert_eq!(game.flag_count(), 1);
    assert_eq!(game.status(), &Status::Ongoing);

    let mut game = Game::from_draws(2, 2, 1, &draws_zero_at(4, &[0])).unwrap();
    game.flag(0, 0).unwrap();
    assert_eq!(game.flag_count(), 1);
    assert_eq!(game.status(), &Status::Finished);
}
