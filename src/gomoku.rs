//! Gomoku (five in a row): two players take turns placing pieces on a 15×15
//! board; five or more pieces of one player in an unbroken line (across, down
//! or diagonal) win, and a full board without that is a draw.
use vstd::prelude::*;

verus! {

/// Side length of the board.
pub const BOARD_SIZE: usize = 15;

/// One of the two players; `Player0` moves first.
#[derive(Clone, Copy, Debug, PartialEq, Eq, Hash, Structural)]
pub enum Player {
    Player0,
    Player1,
}

/// The state of a game as a whole.
#[derive(Clone, Copy, Debug, PartialEq, Eq, Structural)]
pub enum Status {
    Ongoing,
    Draw,
    Win(Player),
}

/// Reasons why a move is refused.
#[derive(Clone, Copy, Debug, PartialEq, Eq, Structural)]
pub enum Error {
    /// The position already holds a piece.
    PositionOccupied,
    /// The game is already over.
    GameEnded,
}

/// A Gomoku game: the board in row-major order, the number of moves made,
/// whose turn it is, and the status.
#[derive(Clone, Debug)]
pub struct Game {
    board: Vec<Option<Player>>,
    move_count: usize,
    next_player: Player,
    status: Status,
}

/// The mathematical content of a `Game`.
pub ghost struct GameView {
    pub board: Seq<Option<Player>>,
    pub move_count: nat,
    pub next_player: Player,
    pub status: Status,
}

impl Player {
    /// The other player.
    pub open spec fn opponent(self) -> Player {
        match self {
            Player::Player0 => Player::Player1,
            Player::Player1 => Player::Player0,
        }
    }

    /// Returns the opposite player.
    pub fn other(self) -> (r: Player)
        ensures
            r == self.opponent(),
    {
        match self {
            Player::Player0 => Player::Player1,
            Player::Player1 => Player::Player0,
        }
    }
}

impl View for Game {
    type V = GameView;

    closed spec fn view(&self) -> GameView {
        GameView {
            board: self.board@,
            move_count: self.move_count as nat,
            next_player: self.next_player,
            status: self.status,
        }
    }
}

/// The position lies on the board.
pub open spec fn on_board(r: int, c: int) -> bool {
    0 <= r < 15 && 0 <= c < 15
}

/// The piece at row `r`, column `c` of the row-major board `b`.
pub open spec fn at(b: Seq<Option<Player>>, r: int, c: int) -> Option<Player> {
    b[r * 15 + c]
}

/// How many pieces of `p` follow `(r, c)` without a gap in direction
/// `(dr, dc)`, counting at most `limit`.
pub open spec fn run(b: Seq<Option<Player>>, r: int, c: int, dr: int, dc: int, p: Player, limit: nat) -> nat
    decreases limit,
{
    if limit == 0 {
        0
    } else if on_board(r + dr, c + dc) && at(b, r + dr, c + dc) == Some(p) {
        1 + run(b, r + dr, c + dc, dr, dc, p, (limit - 1) as nat)
    } else {
        0
    }
}

/// The pieces of `p` through `(r, c)` along direction `(dr, dc)` make five in a row.
pub open spec fn line_of_five(b: Seq<Option<Player>>, r: int, c: int, dr: int, dc: int, p: Player) -> bool {
    run(b, r, c, dr, dc, p, 4) + run(b, r, c, -dr, -dc, p, 4) + 1 >= 5
}

/// A piece of `p` at `(r, c)` is part of five in a row across, down or diagonally.
pub open spec fn wins_through(b: Seq<Option<Player>>, r: int, c: int, p: Player) -> bool {
    line_of_five(b, r, c, 0, 1, p) || line_of_five(b, r, c, 1, 0, p) || line_of_five(b, r, c, 1, 1, p)
        || line_of_five(b, r, c, 1, -1, p)
}

impl GameView {
    /// The piece at row `r`, column `c`.
    pub open spec fn cell(self, r: int, c: int) -> Option<Player> {
        at(self.board, r, c)
    }

    /// The board has its 225 positions and an ongoing game has a move left.
    pub open spec fn wf(self) -> bool {
        &&& self.board.len() == 225
        &&& self.move_count <= 225
        &&& self.status == Status::Ongoing ==> self.move_count < 225
    }

    /// The game after the player to move takes the empty position `(r, c)`.
    pub open spec fn after_move(self, r: int, c: int) -> GameView {
        let p = self.next_player;
        let b = self.board.update(r * 15 + c, Some(p));
        GameView {
            board: b,
            move_count: self.move_count + 1,
            next_player: p.opponent(),
            status: if wins_through(b, r, c, p) {
                Status::Win(p)
            } else if self.move_count + 1 == 225 {
                Status::Draw
            } else {
                Status::Ongoing
            },
        }
    }
}

impl Game {
    /// Creates a new game: an empty board, `Player0` to move.
    pub fn new() -> (r: Result<Self, core::convert::Infallible>)
        ensures
            r matches Ok(g) && g@.wf() && g@.board == Seq::new(225, |i: int| None::<Player>)
                && g@.move_count == 0 && g@.next_player == Player::Player0 && g@.status
                == Status::Ongoing,
    {
        let mut board: Vec<Option<Player>> = Vec::new();
        let mut i: usize = 0;
        while i < 225
            invariant
                i <= 225,
                board@ == Seq::new(i as nat, |j: int| None::<Player>),
            decreases 225 - i,
        {
            board.push(None);
            i += 1;
            proof {
                assert(board@ =~= Seq::new(i as nat, |j: int| None::<Player>));
            }
        }
        Ok(Game { board, move_count: 0, next_player: Player::Player0, status: Status::Ongoing })
    }

    /// Gets the piece at the specified position.
    pub fn get(&self, row: usize, col: usize) -> (r: Option<Player>)
        requires
            self@.wf(),
            row < BOARD_SIZE,
            col < BOARD_SIZE,
        ensures
            r == self@.cell(row as int, col as int),
    {
        self.board[row * 15 + col]
    }

    /// Places a piece for the player to move at the specified position.
    pub fn put(&mut self, row: usize, col: usize) -> (r: Result<(), Error>)
        requires
            old(self)@.wf(),
            row < BOARD_SIZE,
            col < BOARD_SIZE,
        ensures
            final(self)@.wf(),
            old(self)@.status != Status::Ongoing ==> r == Err::<(), Error>(Error::GameEnded)
                && final(self)@ == old(self)@,
            old(self)@.status == Status::Ongoing && old(self)@.cell(row as int, col as int) is Some
                ==> r == Err::<(), Error>(Error::PositionOccupied) && final(self)@ == old(self)@,
            old(self)@.status == Status::Ongoing && old(self)@.cell(row as int, col as int) is None
                ==> r == Ok::<(), Error>(()) && final(self)@ == old(self)@.after_move(
                row as int,
                col as int,
            ),
    {
        if self.status != Status::Ongoing {
            return Err(Error::GameEnded);
        }
        if self.board[row * 15 + col].is_some() {
            return Err(Error::PositionOccupied);
        }
        let player = self.next_player;
        self.board.set(row * 15 + col, Some(player));
        self.move_count += 1;
        self.next_player = player.other();
        self.update_status(player, row, col);
        Ok(())
    }

    /// Gets the player whose turn it is.
    pub fn next_player(&self) -> (r: Player)
        ensures
            r == self@.next_player,
    {
        self.next_player
    }

    /// Gets the current game status.
    pub fn status(&self) -> (r: &Status)
        ensures
            *r == self@.status,
    {
        &self.status
    }

    /// How many pieces of `player` follow `(row, col)` without a gap in
    /// direction `(dr, dc)`, counting at most `limit`.
    fn run_length(&self, row: usize, col: usize, dr: i64, dc: i64, player: Player, limit: usize) -> (r: usize)
        requires
            self.board@.len() == 225,
            row < 15,
            col < 15,
            -1 <= dr <= 1,
            -1 <= dc <= 1,
            limit <= 14,
        ensures
            r == run(self.board@, row as int, col as int, dr as int, dc as int, player, limit as nat),
            r <= limit,
    {
        let mut k: usize = 0;
        let mut r: i64 = row as i64;
        let mut c: i64 = col as i64;
        while k < limit
            invariant
                self.board@.len() == 225,
                on_board(r as int, c as int),
                -1 <= dr <= 1,
                -1 <= dc <= 1,
                k <= limit,
                k + run(self.board@, r as int, c as int, dr as int, dc as int, player, (limit - k) as nat)
                    == run(self.board@, row as int, col as int, dr as int, dc as int, player, limit as nat),
            ensures
                k <= limit,
                k == run(self.board@, row as int, col as int, dr as int, dc as int, player, limit as nat),
            decreases limit - k,
        {
            let nr = r + dr;
            let nc = c + dc;
            if nr < 0 || nr >= 15 || nc < 0 || nc >= 15 {
                proof {
                    assert(run(self.board@, r as int, c as int, dr as int, dc as int, player, (limit - k) as nat) == 0);
                }
                break;
            }
            if self.board[(nr * 15 + nc) as usize] != Some(player) {
                proof {
                    assert(at(self.board@, nr as int, nc as int) != Some(player));
                    assert(run(self.board@, r as int, c as int, dr as int, dc as int, player, (limit - k) as nat) == 0);
                }
                break;
            }
            r = nr;
            c = nc;
            k += 1;
        }
        k
    }

    /// Whether the pieces of `player` through `(row, col)` along `(dr, dc)`
    /// make five in a row.
    fn line_of_five(&self, row: usize, col: usize, dr: i64, dc: i64, player: Player) -> (r: bool)
        requires
            self.board@.len() == 225,
            row < 15,
            col < 15,
            -1 <= dr <= 1,
            -1 <= dc <= 1,
        ensures
            r == line_of_five(self.board@, row as int, col as int, dr as int, dc as int, player),
    {
        self.run_length(row, col, dr, dc, player, 4) + self.run_length(row, col, -dr, -dc, player, 4) + 1 >= 5
    }

    /// Ends the game if the move of `player` at `(row, col)` made five in a
    /// row, or filled the board.
    fn update_status(&mut self, player: Player, row: usize, col: usize)
        requires
            old(self).board@.len() == 225,
            old(self).status == Status::Ongoing,
            old(self).move_count <= 225,
            row < 15,
            col < 15,
        ensures
            final(self)@ == (GameView {
                status: if wins_through(old(self)@.board, row as int, col as int, player) {
                    Status::Win(player)
                } else if old(self)@.move_count == 225 {
                    Status::Draw
                } else {
                    Status::Ongoing
                },
                ..old(self)@
            }),
    {
        if self.line_of_five(row, col, 0, 1, player) || self.line_of_five(row, col, 1, 0, player)
            || self.line_of_five(row, col, 1, 1, player) || self.line_of_five(row, col, 1, -1, player) {
            self.status = Status::Win(player);
            return;
        }
        if self.move_count == 225 {
            self.status = Status::Draw;
        }
    }
}

} // verus!
