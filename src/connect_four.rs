//! Connect Four: two players drop pieces into the seven columns of a 7×6
//! upright board; a piece falls to the lowest empty row of its column. Four
//! pieces of one player in a line (across, down or diagonal) win, and a full
//! board without that is a draw.
use vstd::prelude::*;

verus! {

/// Number of columns.
pub const BOARD_WIDTH: usize = 7;

/// Number of rows.
pub const BOARD_HEIGHT: usize = 6;

/// One of the two players; `Player0` moves first.
#[derive(Clone, Copy, Debug, PartialEq, Eq, Hash, Structural)]
pub enum Player {
    Player0,
    Player1,
}

/// The state of a game as a whole.
#[derive(Clone, Copy, Debug, PartialEq, Eq, Structural)]
pub enum Status {
    Ongoing,
    Draw,
    Win(Player),
}

/// Reasons why a move is refused.
#[derive(Clone, Copy, Debug, PartialEq, Eq, Structural)]
pub enum Error {
    /// The column is full.
    ColumnFilled,
    /// The game is already over.
    GameEnded,
}

/// A Connect Four game: the board in row-major order with row 0 on top, how
/// many pieces each column holds, the number of moves made, whose turn it is,
/// and the status.
#[derive(Clone, Debug)]
pub struct Game {
    board: Vec<Option<Player>>,
    filled: Vec<usize>,
    move_count: usize,
    next_player: Player,
    status: Status,
}

/// The mathematical content of a `Game`.
pub ghost struct GameView {
    pub board: Seq<Option<Player>>,
    pub filled: Seq<usize>,
    pub move_count: nat,
    pub next_player: Player,
    pub status: Status,
}

impl Player {
    /// The other player.
    pub open spec fn opponent(self) -> Player {
        match self {
            Player::Player0 => Player::Player1,
            Player::Player1 => Player::Player0,
        }
    }

    /// Returns the opposite player.
    pub fn other(self) -> (r: Player)
        ensures
            r == self.opponent(),
    {
        match self {
            Player::Player0 => Player::Player1,
            Player::Player1 => Player::Player0,
        }
    }
}

impl View for Game {
    type V = GameView;

    closed spec fn view(&self) -> GameView {
        GameView {
            board: self.board@,
            filled: self.filled@,
            move_count: self.move_count as nat,
            next_player: self.next_player,
            status: self.status,
        }
    }
}

/// The position lies on the board.
pub open spec fn on_board(r: int, c: int) -> bool {
    0 <= r < 6 && 0 <= c < 7
}

/// The piece at row `r`, column `c` of the row-major board `b`.
pub open spec fn at(b: Seq<Option<Player>>, r: int, c: int) -> Option<Player> {
    b[r * 7 + c]
}

/// How many pieces of `p` follow `(r, c)` without a gap in direction
/// `(dr, dc)`, counting at most `limit`.
pub open spec fn run(b: Seq<Option<Player>>, r: int, c: int, dr: int, dc: int, p: Player, limit: nat) -> nat
    decreases limit,
{
    if limit == 0 {
        0
    } else if on_board(r + dr, c + dc) && at(b, r + dr, c + dc) == Some(p) {
        1 + run(b, r + dr, c + dc, dr, dc, p, (limit - 1) as nat)
    } else {
        0
    }
}

/// The pieces of `p` through `(r, c)` along direction `(dr, dc)` make four in a row.
pub open spec fn line_of_four(b: Seq<Option<Player>>, r: int, c: int, dr: int, dc: int, p: Player) -> bool {
    run(b, r, c, dr, dc, p, 3) + run(b, r, c, -dr, -dc, p, 3) + 1 >= 4
}

/// A piece of `p` at `(r, c)` is part of four in a row across, down or diagonally.
pub open spec fn wins_through(b: Seq<Option<Player>>, r: int, c: int, p: Player) -> bool {
    line_of_four(b, r, c, 0, 1, p) || line_of_four(b, r, c, 1, 0, p) || line_of_four(b, r, c, 1, 1, p)
        || line_of_four(b, r, c, 1, -1, p)
}

impl GameView {
    /// The piece at row `r`, column `c`.
    pub open spec fn cell(self, r: int, c: int) -> Option<Player> {
        at(self.board, r, c)
    }

    /// The board has its 42 positions; each column is filled from the bottom
    /// up to its count; an ongoing game has a move left.
    pub open spec fn wf(self) -> bool {
        &&& self.board.len() == 42
        &&& self.filled.len() == 7
        &&& forall|c: int| 0 <= c < 7 ==> #[trigger] self.filled[c] <= 6
        &&& forall|r: int, c: int|
            on_board(r, c) ==> ((#[trigger] self.cell(r, c)) is Some <==> r >= 6 - self.filled[c])
        &&& self.move_count <= 42
        &&& self.status == Status::Ongoing ==> self.move_count < 42
    }

    /// The game after the player to move drops a piece into column `c`, which
    /// has room.
    pub open spec fn after_move(self, c: int) -> GameView {
        let p = self.next_player;
        let r = 5 - self.filled[c];
        let b = self.board.update(r * 7 + c, Some(p));
        GameView {
            board: b,
            filled: self.filled.update(c, (self.filled[c] + 1) as usize),
            move_count: self.move_count + 1,
            next_player: p.opponent(),
            status: if wins_through(b, r, c, p) {
                Status::Win(p)
            } else if self.move_count + 1 == 42 {
                Status::Draw
            } else {
                Status::Ongoing
            },
        }
    }
}

impl Game {
    /// Creates a new game: an empty board, `Player0` to move.
    pub fn new() -> (r: Result<Self, core::convert::Infallible>)
        ensures
            r matches Ok(g) && g@.wf() && g@.board == Seq::new(42, |i: int| None::<Player>)
                && g@.move_count == 0 && g@.next_player == Player::Player0 && g@.status
                == Status::Ongoing,
    {
        let mut board: Vec<Option<Player>> = Vec::new();
        let mut i: usize = 0;
        while i < 42
            invariant
                i <= 42,
                board@ == Seq::new(i as nat, |j: int| None::<Player>),
            decreases 42 - i,
        {
            board.push(None);
            i += 1;
            proof {
                assert(board@ =~= Seq::new(i as nat, |j: int| None::<Player>));
            }
        }
        let mut filled: Vec<usize> = Vec::new();
        let mut j: usize = 0;
        while j < 7
            invariant
                j <= 7,
                filled@ == Seq::new(j as nat, |k: int| 0usize),
            decreases 7 - j,
        {
            filled.push(0);
            j += 1;
            proof {
                assert(filled@ =~= Seq::new(j as nat, |k: int| 0usize));
            }
        }
        let g = Game { board, filled, move_count: 0, next_player: Player::Player0, status: Status::Ongoing };
        proof {
            assert forall|r: int, c: int| on_board(r, c) implies ((#[trigger] g@.cell(r, c)) is Some <==> r
                >= 6 - g@.filled[c]) by {
                assert(0 <= r * 7 + c < 42);
            }
        }
        Ok(g)
    }

    /// Gets the piece at the specified position.
    pub fn get(&self, row: usize, col: usize) -> (r: Option<Player>)
        requires
            self@.wf(),
            row < BOARD_HEIGHT,
            col < BOARD_WIDTH,
        ensures
            r == self@.cell(row as int, col as int),
    {
        self.board[row * 7 + col]
    }

    /// Drops a piece for the player to move into the specified column.
    pub fn put(&mut self, col: usize) -> (r: Result<(), Error>)
        requires
            old(self)@.wf(),
            col < BOARD_WIDTH,
        ensures
            final(self)@.wf(),
            old(self)@.status != Status::Ongoing ==> r == Err::<(), Error>(Error::GameEnded)
                && final(self)@ == old(self)@,
            old(self)@.status == Status::Ongoing && old(self)@.filled[col as int] == 6 ==> r == Err::<
                (),
                Error,
            >(Error::ColumnFilled) && final(self)@ == old(self)@,
            old(self)@.status == Status::Ongoing && old(self)@.filled[col as int] < 6 ==> r == Ok::<
                (),
                Error,
            >(()) && final(self)@ == old(self)@.after_move(col as int),
    {
        if self.status != Status::Ongoing {
            return Err(Error::GameEnded);
        }
        let filled = self.filled[col];
        if filled == 6 {
            return Err(Error::ColumnFilled);
        }
        let ghost v0 = self@;
        let row = 5 - filled;
        let player = self.next_player;
        self.board.set(row * 7 + col, Some(player));
        self.filled.set(col, filled + 1);
        self.move_count += 1;
        self.next_player = player.other();
        proof {
            assert forall|r: int, c: int| on_board(r, c) implies ((#[trigger] self@.cell(r, c)) is Some
                <==> r >= 6 - self@.filled[c]) by {
                assert(0 <= r * 7 + c < 42);
                if r * 7 + c != row * 7 + col {
                    assert(self@.cell(r, c) == v0.cell(r, c));
                    if c == col {
                        assert(r != row);
                    }
                } else {
                    assert(r == row && c == col);
                }
            }
        }
        self.update_status(player, row, col);
        Ok(())
    }

    /// Gets the player whose turn it is.
    pub fn next_player(&self) -> (r: Player)
        ensures
            r == self@.next_player,
    {
        self.next_player
    }

    /// Gets the current game status.
    pub fn status(&self) -> (r: &Status)
        ensures
            *r == self@.status,
    {
        &self.status
    }

    /// How many pieces of `player` follow `(row, col)` without a gap in
    /// direction `(dr, dc)`, counting at most `limit`.
    fn run_length(&self, row: usize, col: usize, dr: i64, dc: i64, player: Player, limit: usize) -> (r: usize)
        requires
            self.board@.len() == 42,
            row < 6,
            col < 7,
            -1 <= dr <= 1,
            -1 <= dc <= 1,
            limit <= 6,
        ensures
            r == run(self.board@, row as int, col as int, dr as int, dc as int, player, limit as nat),
            r <= limit,
    {
        let mut k: usize = 0;
        let mut r: i64 = row as i64;
        let mut c: i64 = col as i64;
        while k < limit
            invariant
                self.board@.len() == 42,
                on_board(r as int, c as int),
                -1 <= dr <= 1,
                -1 <= dc <= 1,
                k <= limit,
                k + run(self.board@, r as int, c as int, dr as int, dc as int, player, (limit - k) as nat)
                    == run(self.board@, row as int, col as int, dr as int, dc as int, player, limit as nat),
            ensures
                k <= limit,
                k == run(self.board@, row as int, col as int, dr as int, dc as int, player, limit as nat),
            decreases limit - k,
        {
            let nr = r + dr;
            let nc = c + dc;
            if nr < 0 || nr >= 6 || nc < 0 || nc >= 7 {
                proof {
                    assert(run(self.board@, r as int, c as int, dr as int, dc as int, player, (limit - k) as nat) == 0);
                }
                break;
            }
            if self.board[(nr * 7 + nc) as usize] != Some(player) {
                proof {
                    assert(at(self.board@, nr as int, nc as int) != Some(player));
                    assert(run(self.board@, r as int, c as int, dr as int, dc as int, player, (limit - k) as nat) == 0);
                }
                break;
            }
            r = nr;
            c = nc;
            k += 1;
        }
        k
    }

    /// Whether the pieces of `player` through `(row, col)` along `(dr, dc)`
    /// make four in a row.
    fn line_of_four(&self, row: usize, col: usize, dr: i64, dc: i64, player: Player) -> (r: bool)
        requires
            self.board@.len() == 42,
            row < 6,
            col < 7,
            -1 <= dr <= 1,
            -1 <= dc <= 1,
        ensures
            r == line_of_four(self.board@, row as int, col as int, dr as int, dc as int, player),
    {
        self.run_length(row, col, dr, dc, player, 3) + self.run_length(row, col, -dr, -dc, player, 3) + 1 >= 4
    }

    /// Ends the game if the move of `player` at `(row, col)` made four in a
    /// row, or filled the board.
    fn update_status(&mut self, player: Player, row: usize, col: usize)
        requires
            old(self).board@.len() == 42,
            old(self).status == Status::Ongoing,
            old(self).move_count <= 42,
            row < 6,
            col < 7,
        ensures
            final(self)@ == (GameView {
                status: if wins_through(old(self)@.board, row as int, col as int, player) {
                    Status::Win(player)
                } else if old(self)@.move_count == 42 {
                    Status::Draw
                } else {
                    Status::Ongoing
                },
                ..old(self)@
            }),
    {
        if self.line_of_four(row, col, 0, 1, player) || self.line_of_four(row, col, 1, 0, player)
            || self.line_of_four(row, col, 1, 1, player) || self.line_of_four(row, col, 1, -1, player) {
            self.status = Status::Win(player);
            return;
        }
        if self.move_count == 42 {
            self.status = Status::Draw;
        }
    }
}

} // verus!
