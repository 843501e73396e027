//! Reversi (Othello): two players place pieces on an 8×8 board. A piece must
//! flank at least one unbroken run of opposing pieces along a row, column or
//! diagonal, and every flanked run is flipped. A player who cannot move passes;
//! when neither can, the one with more pieces wins.
use vstd::prelude::*;

verus! {

/// Side length of the board.
pub const BOARD_SIZE: usize = 8;

/// One of the two players; `Player0` moves first.
#[derive(Clone, Copy, Debug, PartialEq, Eq, Hash, Structural)]
pub enum Player {
    Player0,
    Player1,
}

/// The state of a game as a whole.
#[derive(Clone, Copy, Debug, PartialEq, Eq, Structural)]
pub enum Status {
    Ongoing,
    Draw,
    Win(Player),
}

/// Reasons why a move is refused.
#[derive(Clone, Copy, Debug, PartialEq, Eq, Structural)]
pub enum Error {
    /// The position already holds a piece.
    PositionOccupied,
    /// A piece there would flip nothing.
    InvalidPosition,
    /// The game is already over.
    GameEnded,
}

/// A Reversi game: the board in row-major order, whose turn it is, and the status.
#[derive(Clone, Debug)]
pub struct Game {
    board: Vec<Option<Player>>,
    next_player: Player,
    status: Status,
}

/// The mathematical content of a `Game`.
pub ghost struct GameView {
    pub board: Seq<Option<Player>>,
    pub next_player: Player,
    pub status: Status,
}

impl Player {
    /// The other player.
    pub open spec fn opponent(self) -> Player {
        match self {
            Player::Player0 => Player::Player1,
            Player::Player1 => Player::Player0,
        }
    }

    /// Returns the opposite player.
    pub fn other(self) -> (r: Player)
        ensures
            r == self.opponent(),
    {
        match self {
            Player::Player0 => Player::Player1,
            Player::Player1 => Player::Player0,
        }
    }
}

impl View for Game {
    type V = GameView;

    closed spec fn view(&self) -> GameView {
        GameView { board: self.board@, next_player: self.next_player, status: self.status }
    }
}

/// The position lies on the board.
pub open spec fn on_board(r: int, c: int) -> bool {
    0 <= r < 8 && 0 <= c < 8
}

/// The piece at row `r`, column `c` of the row-major board `b`.
pub open spec fn at(b: Seq<Option<Player>>, r: int, c: int) -> Option<Player> {
    b[r * 8 + c]
}

/// The coordinate `x` moved `j` steps in direction `d` (one of -1, 0, 1).
pub open spec fn step(x: int, d: int, j: int) -> int {
    if d > 0 {
        x + j
    } else if d < 0 {
        x - j
    } else {
        x
    }
}

/// The `i`-th of the eight directions.
pub open spec fn dir(i: int) -> (int, int) {
    if i == 0 {
        (0, -1)
    } else if i == 1 {
        (0, 1)
    } else if i == 2 {
        (-1, 0)
    } else if i == 3 {
        (1, 0)
    } else if i == 4 {
        (-1, -1)
    } else if i == 5 {
        (-1, 1)
    } else if i == 6 {
        (1, -1)
    } else {
        (1, 1)
    }
}

/// How many pieces of `q` lie without a gap from the `j`-th step onwards in
/// direction `(dr, dc)` from `(r, c)`, counting at most `fuel`.
pub open spec fn run_from(
    b: Seq<Option<Player>>,
    r: int,
    c: int,
    dr: int,
    dc: int,
    q: Player,
    j: int,
    fuel: nat,
) -> nat
    decreases fuel,
{
    if fuel == 0 {
        0
    } else if on_board(step(r, dr, j), step(c, dc, j)) && at(b, step(r, dr, j), step(c, dc, j)) == Some(q) {
        1 + run_from(b, r, c, dr, dc, q, j + 1, (fuel - 1) as nat)
    } else {
        0
    }
}

/// How many pieces of `p` a piece of `p` at `(r, c)` flanks in direction
/// `(dr, dc)`: the opposing run next to it, if a piece of `p` closes it.
pub open spec fn flip_count(b: Seq<Option<Player>>, r: int, c: int, dr: int, dc: int, p: Player) -> nat {
    let k = run_from(b, r, c, dr, dc, p.opponent(), 1, 8);
    let er = step(r, dr, (k + 1) as int);
    let ec = step(c, dc, (k + 1) as int);
    if k >= 1 && on_board(er, ec) && at(b, er, ec) == Some(p) {
        k
    } else {
        0
    }
}

/// A piece of `p` at `(r, c)` flanks some run.
pub open spec fn flips_any(b: Seq<Option<Player>>, r: int, c: int, p: Player) -> bool {
    exists|i: int| 0 <= i < 8 && flip_count(b, r, c, dir(i).0, dir(i).1, p) > 0
}

/// `p` may place a piece at `(r, c)`.
pub open spec fn can_place(b: Seq<Option<Player>>, r: int, c: int, p: Player) -> bool {
    at(b, r, c) is None && flips_any(b, r, c, p)
}

/// `p` has a move somewhere on the board.
pub open spec fn can_move(b: Seq<Option<Player>>, p: Player) -> bool {
    exists|r: int, c: int| on_board(r, c) && can_place(b, r, c, p)
}

/// `(x, y)` is one of the first `n` steps from `(r, c)` in direction `i`.
pub open spec fn on_ray(r: int, c: int, i: int, n: int, x: int, y: int) -> bool {
    exists|j: int| 1 <= j <= n && x == step(r, dir(i).0, j) && y == step(c, dir(i).1, j)
}

/// `(x, y)` lies on a run that a piece of `p` at `(r, c)` flanks in one of
/// the first `m` directions.
pub open spec fn flipped_in(b: Seq<Option<Player>>, r: int, c: int, p: Player, m: int, x: int, y: int) -> bool {
    exists|i: int| 0 <= i < m && on_ray(r, c, i, flip_count(b, r, c, dir(i).0, dir(i).1, p) as int, x, y)
}

/// `(x, y)` lies on a run that a piece of `p` at `(r, c)` flanks.
pub open spec fn flipped(b: Seq<Option<Player>>, r: int, c: int, p: Player, x: int, y: int) -> bool {
    flipped_in(b, r, c, p, 8, x, y)
}

/// `b1` is `b0` with a piece of `p` at `(r, c)` and every flanked run flipped.
pub open spec fn placed(b0: Seq<Option<Player>>, b1: Seq<Option<Player>>, r: int, c: int, p: Player) -> bool {
    &&& b1.len() == b0.len()
    &&& forall|x: int, y: int|
        #![trigger at(b1, x, y)]
        on_board(x, y) ==> at(b1, x, y) == if (x == r && y == c) || flipped(b0, r, c, p, x, y) {
            Some(p)
        } else {
            at(b0, x, y)
        }
}

/// How many pieces of `p` the board `b` holds.
pub open spec fn count_pieces(b: Seq<Option<Player>>, p: Player) -> nat
    decreases b.len(),
{
    if b.len() == 0 {
        0
    } else {
        count_pieces(b.drop_last(), p) + if b.last() == Some(p) {
            1nat
        } else {
            0nat
        }
    }
}

/// The result of a game that neither player can continue.
pub open spec fn final_status(b: Seq<Option<Player>>) -> Status {
    if count_pieces(b, Player::Player0) > count_pieces(b, Player::Player1) {
        Status::Win(Player::Player0)
    } else if count_pieces(b, Player::Player0) < count_pieces(b, Player::Player1) {
        Status::Win(Player::Player1)
    } else {
        Status::Draw
    }
}

impl GameView {
    /// The piece at row `r`, column `c`.
    pub open spec fn cell(self, r: int, c: int) -> Option<Player> {
        at(self.board, r, c)
    }

    /// The board has its 64 positions.
    pub open spec fn wf(self) -> bool {
        self.board.len() == 64
    }
}

/// Every position of a run lies on the board and holds the run's player.
pub proof fn lemma_run_cells(
    b: Seq<Option<Player>>,
    r: int,
    c: int,
    dr: int,
    dc: int,
    q: Player,
    j: int,
    fuel: nat,
    t: int,
)
    requires
        j <= t < j + run_from(b, r, c, dr, dc, q, j, fuel),
    ensures
        on_board(step(r, dr, t), step(c, dc, t)),
        at(b, step(r, dr, t), step(c, dc, t)) == Some(q),
    decreases fuel,
{
    if t > j {
        lemma_run_cells(b, r, c, dr, dc, q, j + 1, (fuel - 1) as nat, t);
    }
}

/// The direction of index `i`, for executable code.
fn direction(i: usize) -> (d: (i64, i64))
    requires
        i < 8,
    ensures
        d.0 as int == dir(i as int).0,
        d.1 as int == dir(i as int).1,
{
    if i == 0 {
        (0, -1)
    } else if i == 1 {
        (0, 1)
    } else if i == 2 {
        (-1, 0)
    } else if i == 3 {
        (1, 0)
    } else if i == 4 {
        (-1, -1)
    } else if i == 5 {
        (-1, 1)
    } else if i == 6 {
        (1, -1)
    } else {
        (1, 1)
    }
}

impl Game {
    /// Creates a new game in the standard opening: `Player0` at (3, 3) and
    /// (4, 4), `Player1` at (3, 4) and (4, 3), `Player0` to move.
    pub fn new() -> (r: Result<Self, core::convert::Infallible>)
        ensures
            r matches Ok(g) && g@.wf() && g@.next_player == Player::Player0 && g@.status
                == Status::Ongoing && (forall|x: int, y: int|
                on_board(x, y) ==> #[trigger] g@.cell(x, y) == if (x == 3 && y == 3) || (x == 4 && y
                    == 4) {
                    Some(Player::Player0)
                } else if (x == 3 && y == 4) || (x == 4 && y == 3) {
                    Some(Player::Player1)
                } else {
                    None
                }),
    {
        let mut board: Vec<Option<Player>> = Vec::new();
        let mut i: usize = 0;
        while i < 64
            invariant
                i <= 64,
                board@ == Seq::new(i as nat, |j: int| None::<Player>),
            decreases 64 - i,
        {
            board.push(None);
            i += 1;
            proof {
                assert(board@ =~= Seq::new(i as nat, |j: int| None::<Player>));
            }
        }
        board.set(3 * 8 + 3, Some(Player::Player0));
        board.set(4 * 8 + 4, Some(Player::Player0));
        board.set(3 * 8 + 4, Some(Player::Player1));
        board.set(4 * 8 + 3, Some(Player::Player1));
        let g = Game { board, next_player: Player::Player0, status: Status::Ongoing };
        proof {
            assert forall|x: int, y: int| on_board(x, y) implies #[trigger] g@.cell(x, y) == if (x == 3
                && y == 3) || (x == 4 && y == 4) {
                Some(Player::Player0)
            } else if (x == 3 && y == 4) || (x == 4 && y == 3) {
                Some(Player::Player1)
            } else {
                None
            } by {
                assert(0 <= x * 8 + y < 64);
            }
        }
        Ok(g)
    }

    /// Gets the piece at the specified position.
    pub fn get(&self, row: usize, col: usize) -> (r: Option<Player>)
        requires
            self@.wf(),
            row < BOARD_SIZE,
            col < BOARD_SIZE,
        ensures
            r == self@.cell(row as int, col as int),
    {
        self.board[row * 8 + col]
    }

    /// Gets the player whose turn it is.
    pub fn next_player(&self) -> (r: Player)
        ensures
            r == self@.next_player,
    {
        self.next_player
    }

    /// Gets the current game status.
    pub fn status(&self) -> (r: &Status)
        ensures
            *r == self@.status,
    {
        &self.status
    }

    /// How many pieces a piece of `player` at `(row, col)` flanks in
    /// direction `(dr, dc)`.
    fn flip_length(&self, row: usize, col: usize, dr: i64, dc: i64, player: Player) -> (k: usize)
        requires
            self.board@.len() == 64,
            row < 8,
            col < 8,
            -1 <= dr <= 1,
            -1 <= dc <= 1,
        ensures
            k == flip_count(self.board@, row as int, col as int, dr as int, dc as int, player),
            k <= 8,
    {
        let b = Ghost(self.board@);
        let q = player.other();
        let mut k: usize = 0;
        let mut r: i64 = row as i64 + dr;
        let mut c: i64 = col as i64 + dc;
        while k < 8
            invariant
                self.board@ == b@,
                self.board@.len() == 64,
                -1 <= dr <= 1,
                -1 <= dc <= 1,
                row < 8,
                col < 8,
                k <= 8,
                r == step(row as int, dr as int, k + 1),
                c == step(col as int, dc as int, k + 1),
                k + run_from(b@, row as int, col as int, dr as int, dc as int, q, k + 1, (8 - k) as nat)
                    == run_from(b@, row as int, col as int, dr as int, dc as int, q, 1, 8),
            ensures
                k <= 8,
                r == step(row as int, dr as int, k + 1),
                c == step(col as int, dc as int, k + 1),
                k == run_from(b@, row as int, col as int, dr as int, dc as int, q, 1, 8),
            decreases 8 - k,
        {
            if r < 0 || r >= 8 || c < 0 || c >= 8 {
                break;
            }
            if self.board[(r * 8 + c) as usize] != Some(q) {
                proof {
                    assert(at(b@, r as int, c as int) != Some(q));
                }
                break;
            }
            r += dr;
            c += dc;
            k += 1;
        }
        if k >= 1 && 0 <= r && r < 8 && 0 <= c && c < 8 && self.board[(r * 8 + c) as usize] == Some(player) {
            k
        } else {
            0
        }
    }

    /// Whether a piece of `player` at `(row, col)` flanks some run.
    fn flips_anything(&self, row: usize, col: usize, player: Player) -> (r: bool)
        requires
            self.board@.len() == 64,
            row < 8,
            col < 8,
        ensures
            r == flips_any(self.board@, row as int, col as int, player),
    {
        let mut i: usize = 0;
        while i < 8
            invariant
                self.board@.len() == 64,
                row < 8,
                col < 8,
                i <= 8,
                forall|j: int| 0 <= j < i ==> flip_count(self.board@, row as int, col as int, dir(j).0, dir(j).1, player) == 0,
            decreases 8 - i,
        {
            let (dr, dc) = direction(i);
            if self.flip_length(row, col, dr, dc, player) > 0 {
                return true;
            }
            i += 1;
        }
        false
    }

    /// Whether `player` may place a piece at `(row, col)`.
    fn can_place_for(&self, row: usize, col: usize, player: Player) -> (r: bool)
        requires
            self.board@.len() == 64,
            row < 8,
            col < 8,
        ensures
            r == can_place(self.board@, row as int, col as int, player),
    {
        self.board[row * 8 + col].is_none() && self.flips_anything(row, col, player)
    }

    /// Whether `player` has a move anywhere on the board.
    fn can_player_move(&self, player: Player) -> (r: bool)
        requires
            self.board@.len() == 64,
        ensures
            r == can_move(self.board@, player),
    {
        let mut row: usize = 0;
        while row < 8
            invariant
                self.board@.len() == 64,
                row <= 8,
                forall|x: int, y: int| 0 <= x < row && 0 <= y < 8 ==> !can_place(self.board@, x, y, player),
            decreases 8 - row,
        {
            let mut col: usize = 0;
            while col < 8
                invariant
                    self.board@.len() == 64,
                    row < 8,
                    col <= 8,
                    forall|x: int, y: int| 0 <= x < row && 0 <= y < 8 ==> !can_place(self.board@, x, y, player),
                    forall|y: int| 0 <= y < col ==> !can_place(self.board@, row as int, y, player),
                decreases 8 - col,
            {
                if self.can_place_for(row, col, player) {
                    proof {
                        assert(on_board(row as int, col as int) && can_place(self.board@, row as int, col as int, player));
                    }
                    return true;
                }
                col += 1;
            }
            row += 1;
        }
        false
    }

    /// Whether the player to move may place a piece at `(row, col)`.
    pub fn can_place_at(&self, row: usize, col: usize) -> (r: Result<(), Error>)
        requires
            self@.wf(),
            row < BOARD_SIZE,
            col < BOARD_SIZE,
        ensures
            self@.status != Status::Ongoing ==> r == Err::<(), Error>(Error::GameEnded),
            self@.status == Status::Ongoing && self@.cell(row as int, col as int) is Some ==> r == Err::<
                (),
                Error,
            >(Error::PositionOccupied),
            self@.status == Status::Ongoing && self@.cell(row as int, col as int) is None ==> r == if flips_any(
                self@.board,
                row as int,
                col as int,
                self@.next_player,
            ) {
                Ok::<(), Error>(())
            } else {
                Err::<(), Error>(Error::InvalidPosition)
            },
    {
        if self.status != Status::Ongoing {
            return Err(Error::GameEnded);
        }
        if self.board[row * 8 + col].is_some() {
            return Err(Error::PositionOccupied);
        }
        if self.flips_anything(row, col, self.next_player) {
            Ok(())
        } else {
            Err(Error::InvalidPosition)
        }
    }

    /// Flips, for each direction `i`, the first `lens[i]` pieces from
    /// `(row, col)`: the runs that a piece of `player` there flanks.
    fn flip_runs(&mut self, row: usize, col: usize, player: Player, lens: &Vec<usize>)
        requires
            old(self).board@.len() == 64,
            row < 8,
            col < 8,
            lens@.len() == 8,
            forall|i: int|
                0 <= i < 8 ==> #[trigger] lens@[i] == flip_count(
                    old(self).board@,
                    row as int,
                    col as int,
                    dir(i).0,
                    dir(i).1,
                    player,
                ),
        ensures
            final(self).board@.len() == 64,
            final(self).next_player == old(self).next_player,
            final(self).status == old(self).status,
            forall|x: int, y: int|
                #![trigger at(final(self).board@, x, y)]
                on_board(x, y) ==> at(final(self).board@, x, y) == if flipped(
                    old(self).board@,
                    row as int,
                    col as int,
                    player,
                    x,
                    y,
                ) {
                    Some(player)
                } else {
                    at(old(self).board@, x, y)
                },
    {
        let ghost b0 = self.board@;
        let mut i: usize = 0;
        while i < 8
            invariant
                self.board@.len() == 64,
                self.next_player == old(self).next_player,
                self.status == old(self).status,
                b0 == old(self).board@,
                row < 8,
                col < 8,
                i <= 8,
                lens@.len() == 8,
                forall|i: int|
                    0 <= i < 8 ==> #[trigger] lens@[i] == flip_count(b0, row as int, col as int, dir(i).0, dir(i).1, player),
                forall|x: int, y: int|
                    #![trigger at(self.board@, x, y)]
                    on_board(x, y) ==> at(self.board@, x, y) == if flipped_in(
                        b0,
                        row as int,
                        col as int,
                        player,
                        i as int,
                        x,
                        y,
                    ) {
                        Some(player)
                    } else {
                        at(b0, x, y)
                    },
            decreases 8 - i,
        {
            let (dr, dc) = direction(i);
            let n = lens[i];
            let ghost k = flip_count(b0, row as int, col as int, dr as int, dc as int, player) as int;
            let mut j: usize = 1;
            let mut r: i64 = row as i64 + dr;
            let mut c: i64 = col as i64 + dc;
            while j <= n
                invariant
                    self.board@.len() == 64,
                    self.next_player == old(self).next_player,
                    self.status == old(self).status,
                    row < 8,
                    col < 8,
                    i < 8,
                    dr as int == dir(i as int).0,
                    dc as int == dir(i as int).1,
                    n as int == k,
                    k == flip_count(b0, row as int, col as int, dr as int, dc as int, player),
                    n <= 8,
                    1 <= j <= n + 1,
                    r == step(row as int, dr as int, j as int),
                    c == step(col as int, dc as int, j as int),
                    forall|x: int, y: int|
                        #![trigger at(self.board@, x, y)]
                        on_board(x, y) ==> at(self.board@, x, y) == if flipped_in(
                            b0,
                            row as int,
                            col as int,
                            player,
                            i as int,
                            x,
                            y,
                        ) || on_ray(row as int, col as int, i as int, j - 1, x, y) {
                            Some(player)
                        } else {
                            at(b0, x, y)
                        },
                decreases n + 1 - j,
            {
                proof {
                    lemma_run_cells(b0, row as int, col as int, dr as int, dc as int, player.opponent(), 1, 8, j as int);
                }
                let ghost before = self.board@;
                self.board.set((r * 8 + c) as usize, Some(player));
                proof {
                    assert forall|x: int, y: int| #![trigger at(self.board@, x, y)] on_board(x, y) implies at(self.board@, x, y) == if flipped_in(
                        b0,
                        row as int,
                        col as int,
                        player,
                        i as int,
                        x,
                        y,
                    ) || on_ray(row as int, col as int, i as int, j as int, x, y) {
                        Some(player)
                    } else {
                        at(b0, x, y)
                    } by {
                        if x == r && y == c {
                            assert(on_ray(row as int, col as int, i as int, j as int, x, y));
                        } else {
                            assert(x * 8 + y != r * 8 + c);
                            assert(at(self.board@, x, y) == at(before, x, y));
                            if on_ray(row as int, col as int, i as int, j as int, x, y) {
                                let t = choose|t: int| 1 <= t <= j && x == step(row as int, dir(i as int).0, t) && y == step(col as int, dir(i as int).1, t);
                                assert(t != j);
                                assert(on_ray(row as int, col as int, i as int, j - 1, x, y));
                            }
                        }
                    }
                }
                r += dr;
                c += dc;
                j += 1;
            }
            proof {
                assert forall|x: int, y: int| #![trigger at(self.board@, x, y)] on_board(x, y) implies at(self.board@, x, y) == if flipped_in(
                    b0,
                    row as int,
                    col as int,
                    player,
                    i + 1,
                    x,
                    y,
                ) {
                    Some(player)
                } else {
                    at(b0, x, y)
                } by {
                    if on_ray(row as int, col as int, i as int, n as int, x, y) {
                        assert(flipped_in(b0, row as int, col as int, player, i + 1, x, y));
                    }
                    if flipped_in(b0, row as int, col as int, player, i + 1, x, y) {
                        let t = choose|t: int| 0 <= t < i + 1 && on_ray(row as int, col as int, t, flip_count(b0, row as int, col as int, dir(t).0, dir(t).1, player) as int, x, y);
                        if t < i {
                            assert(flipped_in(b0, row as int, col as int, player, i as int, x, y));
                        }
                    }
                }
            }
            i += 1;
        }
    }

    /// How many pieces of `player` are on the board.
    fn count_of(&self, player: Player) -> (n: usize)
        requires
            self.board@.len() == 64,
        ensures
            n == count_pieces(self.board@, player),
    {
        let mut n: usize = 0;
        let mut i: usize = 0;
        while i < self.board.len()
            invariant
                i <= self.board@.len(),
                self.board@.len() == 64,
                n <= i,
                n == count_pieces(self.board@.take(i as int), player),
            decreases self.board@.len() - i,
        {
            proof {
                assert(self.board@.take(i + 1).drop_last() =~= self.board@.take(i as int));
            }
            if self.board[i] == Some(player) {
                n += 1;
            }
            i += 1;
        }
        proof {
            assert(self.board@.take(64) =~= self.board@);
        }
        n
    }

    /// Places a piece for the player to move at the specified position and
    /// flips every run it flanks. The turn passes to the opponent if they can
    /// move, else stays if the mover can; else the game ends, won by the
    /// player with more pieces.
    pub fn place(&mut self, row: usize, col: usize) -> (r: Result<(), Error>)
        requires
            old(self)@.wf(),
            row < BOARD_SIZE,
            col < BOARD_SIZE,
        ensures
            final(self)@.wf(),
            old(self)@.status != Status::Ongoing ==> r == Err::<(), Error>(Error::GameEnded)
                && final(self)@ == old(self)@,
            old(self)@.status == Status::Ongoing && old(self)@.cell(row as int, col as int) is Some
                ==> r == Err::<(), Error>(Error::PositionOccupied) && final(self)@ == old(self)@,
            old(self)@.status == Status::Ongoing && old(self)@.cell(row as int, col as int) is None
                && !flips_any(old(self)@.board, row as int, col as int, old(self)@.next_player) ==> r
                == Err::<(), Error>(Error::InvalidPosition) && final(self)@ == old(self)@,
            old(self)@.status == Status::Ongoing && can_place(
                old(self)@.board,
                row as int,
                col as int,
                old(self)@.next_player,
            ) ==> {
                let p = old(self)@.next_player;
                let q = p.opponent();
                let b = final(self)@.board;
                &&& r == Ok::<(), Error>(())
                &&& placed(old(self)@.board, b, row as int, col as int, p)
                &&& final(self)@.next_player == if can_move(b, q) {
                    q
                } else {
                    p
                }
                &&& final(self)@.status == if can_move(b, q) || can_move(b, p) {
                    Status::Ongoing
                } else {
                    final_status(b)
                }
            },
    {
        if self.status != Status::Ongoing {
            return Err(Error::GameEnded);
        }
        if self.board[row * 8 + col].is_some() {
            return Err(Error::PositionOccupied);
        }
        let ghost b0 = self.board@;
        let player = self.next_player;
        let mut lens: Vec<usize> = Vec::new();
        let mut any = false;
        let mut i: usize = 0;
        while i < 8
            invariant
                self.board@ == b0,
                b0.len() == 64,
                row < 8,
                col < 8,
                i <= 8,
                lens@.len() == i,
                forall|j: int|
                    0 <= j < i ==> #[trigger] lens@[j] == flip_count(b0, row as int, col as int, dir(j).0, dir(j).1, player),
                any == exists|j: int| 0 <= j < i && flip_count(b0, row as int, col as int, dir(j).0, dir(j).1, player) > 0,
            decreases 8 - i,
        {
            let (dr, dc) = direction(i);
            let n = self.flip_length(row, col, dr, dc, player);
            if n > 0 {
                any = true;
            }
            lens.push(n);
            i += 1;
        }
        if !any {
            return Err(Error::InvalidPosition);
        }
        self.flip_runs(row, col, player, &lens);
        let ghost b1 = self.board@;
        self.board.set(row * 8 + col, Some(player));
        proof {
            assert forall|x: int, y: int| #![trigger at(self.board@, x, y)] on_board(x, y) implies at(self.board@, x, y) == if (x == row && y == col) || flipped(b0, row as int, col as int, player, x, y) {
                Some(player)
            } else {
                at(b0, x, y)
            } by {
                if !(x == row && y == col) {
                    assert(x * 8 + y != row * 8 + col);
                    assert(at(self.board@, x, y) == at(b1, x, y));
                }
            }
        }
        let opponent = player.other();
        if self.can_player_move(opponent) {
            self.next_player = opponent;
            return Ok(());
        }
        if self.can_player_move(player) {
            return Ok(());
        }
        let player0_count = self.count_of(Player::Player0);
        let player1_count = self.count_of(Player::Player1);
        if player0_count > player1_count {
            self.status = Status::Win(Player::Player0);
        } else if player0_count < player1_count {
            self.status = Status::Win(Player::Player1);
        } else {
            self.status = Status::Draw;
        }
        Ok(())
    }
}

} // verus!
