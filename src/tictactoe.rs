//! Tic-Tac-Toe: two players take turns on a 3×3 board; three of a kind in a
//! row, a column or a diagonal wins, and a full board without that is a draw.
use vstd::prelude::*;

verus! {

/// Side length of the board.
pub const BOARD_SIZE: usize = 3;

/// One of the two players; `Player0` moves first.
#[derive(Clone, Copy, Debug, PartialEq, Eq, Hash, Structural)]
pub enum Player {
    Player0,
    Player1,
}

/// The state of a game as a whole.
#[derive(Clone, Copy, Debug, PartialEq, Eq, Structural)]
pub enum Status {
    Ongoing,
    Draw,
    Win(Player),
}

/// Reasons why a move is refused.
#[derive(Clone, Copy, Debug, PartialEq, Eq, Structural)]
pub enum Error {
    /// The position already holds a piece.
    PositionOccupied,
    /// The game is already over.
    GameEnded,
}

/// A Tic-Tac-Toe game: the board in row-major order, the number of moves made,
/// whose turn it is, and the status.
#[derive(Clone, Debug)]
pub struct Game {
    board: Vec<Option<Player>>,
    move_count: usize,
    next_player: Player,
    status: Status,
}

/// The mathematical content of a `Game`.
pub ghost struct GameView {
    pub board: Seq<Option<Player>>,
    pub move_count: nat,
    pub next_player: Player,
    pub status: Status,
}

impl Player {
    /// The other player.
    pub open spec fn opponent(self) -> Player {
        match self {
            Player::Player0 => Player::Player1,
            Player::Player1 => Player::Player0,
        }
    }

    /// Returns the opposite player.
    pub fn other(self) -> (r: Player)
        ensures
            r == self.opponent(),
    {
        match self {
            Player::Player0 => Player::Player1,
            Player::Player1 => Player::Player0,
        }
    }
}

impl View for Game {
    type V = GameView;

    closed spec fn view(&self) -> GameView {
        GameView {
            board: self.board@,
            move_count: self.move_count as nat,
            next_player: self.next_player,
            status: self.status,
        }
    }
}

/// The piece at row `r`, column `c` of the row-major board `b`.
pub open spec fn at(b: Seq<Option<Player>>, r: int, c: int) -> Option<Player> {
    b[r * 3 + c]
}

/// `p` holds the three positions `(r0, c0)`, `(r1, c1)`, `(r2, c2)`.
pub open spec fn holds3(
    b: Seq<Option<Player>>,
    p: Player,
    r0: int,
    c0: int,
    r1: int,
    c1: int,
    r2: int,
    c2: int,
) -> bool {
    at(b, r0, c0) == Some(p) && at(b, r1, c1) == Some(p) && at(b, r2, c2) == Some(p)
}

/// `p` holds a whole row, column or diagonal through `(r, c)`.
pub open spec fn wins_through(b: Seq<Option<Player>>, r: int, c: int, p: Player) -> bool {
    holds3(b, p, r, 0, r, 1, r, 2) || holds3(b, p, 0, c, 1, c, 2, c) || (r == c && holds3(
        b,
        p,
        0,
        0,
        1,
        1,
        2,
        2,
    )) || (r + c == 2 && holds3(b, p, 0, 2, 1, 1, 2, 0))
}

impl GameView {
    /// The piece at row `r`, column `c`.
    pub open spec fn cell(self, r: int, c: int) -> Option<Player> {
        at(self.board, r, c)
    }

    /// The board has nine positions and an ongoing game has a move left.
    pub open spec fn wf(self) -> bool {
        &&& self.board.len() == 9
        &&& self.move_count <= 9
        &&& self.status == Status::Ongoing ==> self.move_count < 9
    }

    /// The game after the player to move takes the empty position `(r, c)`.
    pub open spec fn after_move(self, r: int, c: int) -> GameView {
        let p = self.next_player;
        let b = self.board.update(r * 3 + c, Some(p));
        GameView {
            board: b,
            move_count: self.move_count + 1,
            next_player: p.opponent(),
            status: if wins_through(b, r, c, p) {
                Status::Win(p)
            } else if self.move_count + 1 == 9 {
                Status::Draw
            } else {
                Status::Ongoing
            },
        }
    }
}

impl Game {
    /// Creates a new game: an empty board, `Player0` to move.
    pub fn new() -> (r: Result<Self, core::convert::Infallible>)
        ensures
            r matches Ok(g) && g@.wf() && g@.board == Seq::new(9, |i: int| None::<Player>)
                && g@.move_count == 0 && g@.next_player == Player::Player0 && g@.status
                == Status::Ongoing,
    {
        let mut board: Vec<Option<Player>> = Vec::new();
        let mut i: usize = 0;
        while i < 9
            invariant
                i <= 9,
                board@ == Seq::new(i as nat, |j: int| None::<Player>),
            decreases 9 - i,
        {
            board.push(None);
            i += 1;
            proof {
                assert(board@ =~= Seq::new(i as nat, |j: int| None::<Player>));
            }
        }
        Ok(Game { board, move_count: 0, next_player: Player::Player0, status: Status::Ongoing })
    }

    /// Gets the piece at the specified position.
    pub fn get(&self, row: usize, col: usize) -> (r: Option<Player>)
        requires
            self@.wf(),
            row < BOARD_SIZE,
            col < BOARD_SIZE,
        ensures
            r == self@.cell(row as int, col as int),
    {
        self.board[row * 3 + col]
    }

    /// Places a piece for the player to move at the specified position.
    pub fn put(&mut self, row: usize, col: usize) -> (r: Result<(), Error>)
        requires
            old(self)@.wf(),
            row < BOARD_SIZE,
            col < BOARD_SIZE,
        ensures
            final(self)@.wf(),
            old(self)@.status != Status::Ongoing ==> r == Err::<(), Error>(Error::GameEnded)
                && final(self)@ == old(self)@,
            old(self)@.status == Status::Ongoing && old(self)@.cell(row as int, col as int) is Some
                ==> r == Err::<(), Error>(Error::PositionOccupied) && final(self)@ == old(self)@,
            old(self)@.status == Status::Ongoing && old(self)@.cell(row as int, col as int) is None
                ==> r == Ok::<(), Error>(()) && final(self)@ == old(self)@.after_move(
                row as int,
                col as int,
            ),
    {
        if self.status != Status::Ongoing {
            return Err(Error::GameEnded);
        }
        if self.board[row * 3 + col].is_some() {
            return Err(Error::PositionOccupied);
        }
        let player = self.next_player;
        self.board.set(row * 3 + col, Some(player));
        self.move_count += 1;
        self.next_player = player.other();
        self.update_status(player, row, col);
        Ok(())
    }

    /// Gets the player whose turn it is.
    pub fn next_player(&self) -> (r: Player)
        ensures
            r == self@.next_player,
    {
        self.next_player
    }

    /// Gets the current game status.
    pub fn status(&self) -> (r: &Status)
        ensures
            *r == self@.status,
    {
        &self.status
    }

    /// Whether `player` holds all three positions given.
    fn holds(&self, player: Player, r0: usize, c0: usize, r1: usize, c1: usize, r2: usize, c2: usize) -> (r:
        bool)
        requires
            self.board@.len() == 9,
            r0 < 3 && c0 < 3 && r1 < 3 && c1 < 3 && r2 < 3 && c2 < 3,
        ensures
            r == holds3(self.board@, player, r0 as int, c0 as int, r1 as int, c1 as int, r2 as int, c2 as int),
    {
        self.board[r0 * 3 + c0] == Some(player) && self.board[r1 * 3 + c1] == Some(player)
            && self.board[r2 * 3 + c2] == Some(player)
    }

    /// Ends the game if the move of `player` at `(row, col)` completed a line,
    /// or filled the board.
    fn update_status(&mut self, player: Player, row: usize, col: usize)
        requires
            old(self).board@.len() == 9,
            old(self).status == Status::Ongoing,
            old(self).move_count <= 9,
            row < 3,
            col < 3,
        ensures
            final(self)@ == (GameView {
                status: if wins_through(old(self)@.board, row as int, col as int, player) {
                    Status::Win(player)
                } else if old(self)@.move_count == 9 {
                    Status::Draw
                } else {
                    Status::Ongoing
                },
                ..old(self)@
            }),
    {
        if self.holds(player, row, 0, row, 1, row, 2) || self.holds(player, 0, col, 1, col, 2, col) || (
        row == col && self.holds(player, 0, 0, 1, 1, 2, 2)) || (row + col == 2 && self.holds(
            player,
            0,
            2,
            1,
            1,
            2,
            0,
        )) {
            self.status = Status::Win(player);
            return;
        }
        if self.move_count == 9 {
            self.status = Status::Draw;
        }
    }
}

} // verus!
