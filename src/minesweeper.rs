//! Minesweeper: a grid of hidden cells, some of them mines. Revealed cells show
//! how many mines surround them, and a revealed cell with no surrounding mine
//! reveals its whole mine-free neighbourhood.
use vstd::prelude::*;
use crate::grid::{adjacent, adjacent_coords, index_of, mines_around, mines_in, neighbor_list};

verus! {

/// The state of a Minesweeper game as a whole.
#[derive(Clone, Copy, Debug, PartialEq, Eq, Structural)]
pub enum Status {
    /// The game is still in progress.
    Ongoing,
    /// A mine was revealed; the game is lost.
    Exploded,
    /// Every safe cell is revealed, or every mine is flagged.
    Finished,
}

/// What the player sees of one cell.
#[derive(Clone, Copy, Debug, PartialEq, Eq, Structural)]
pub enum CellStatus {
    /// Neither revealed nor flagged.
    Hidden,
    /// Revealed; shows how many of its neighbours are mines.
    Revealed { adjacent_mine_count: usize },
    /// Marked by the player as a suspected mine.
    Flagged,
    /// A mine that was revealed.
    Exploded,
}

/// One cell of the board.
#[derive(Clone, Copy, Debug, PartialEq, Eq, Structural)]
pub struct Cell {
    is_mine: bool,
    status: CellStatus,
}

/// Reasons why an operation on a game is refused.
#[derive(Clone, Copy, Debug, PartialEq, Eq, Structural)]
pub enum Error {
    /// More mines were asked for than the board has cells.
    TooManyMines,
    /// Placing the flag(s) would leave more flags than mines.
    TooManyFlags,
    /// The clicked cell carries a flag.
    ClickOnFlagged,
    /// The flagged cell is already revealed.
    ClickOnRevealed,
    /// The click on a revealed cell would change nothing.
    InvalidClick,
    /// The game is already over.
    GameEnded,
}

/// A Minesweeper game: a row-major board of cells with its counters.
#[derive(Clone, Debug)]
pub struct Game {
    board: Vec<Cell>,
    width: usize,
    height: usize,
    mine_count: usize,
    flag_count: usize,
    status: Status,
}

/// The mathematical content of a `Game`.
pub ghost struct GameView {
    pub cells: Seq<Cell>,
    pub width: usize,
    pub height: usize,
    pub mine_count: usize,
    pub flag_count: usize,
    pub status: Status,
}

/// A source of uniformly distributed integers, used to place the mines.
pub trait RandomSource {
    /// Returns an integer drawn uniformly from `0..n`.
    fn next_in_range(&mut self, n: usize) -> (r: usize)
        requires
            n > 0,
        ensures
            r < n,
    ;
}

/// rand's thread-local generator, carried through as an opaque value.
#[verifier::external_type_specification]
#[verifier::external_body]
pub struct ExThreadRng(rand::rngs::ThreadRng);

/// Relies on rand's `Rng::random_range`: it returns a value of the half-open
/// range `0..n`, and panics only when that range is empty.
#[verifier::external_body]
fn thread_rng_below(rng: &mut rand::rngs::ThreadRng, n: usize) -> (r: usize)
    requires
        n > 0,
    ensures
        r < n,
{
    rand::Rng::random_range(rng, 0..n)
}

impl RandomSource for rand::rngs::ThreadRng {
    fn next_in_range(&mut self, n: usize) -> (r: usize) {
        thread_rng_below(self, n)
    }
}

impl Cell {
    /// Whether this cell holds a mine.
    pub closed spec fn mine(self) -> bool {
        self.is_mine
    }

    /// What the player sees of this cell.
    pub closed spec fn state(self) -> CellStatus {
        self.status
    }

    /// Checks if this cell contains a mine.
    pub fn is_mine(&self) -> (r: bool)
        ensures
            r == self.mine(),
    {
        self.is_mine
    }

    /// Gets the current status of this cell.
    pub fn status(&self) -> (r: &CellStatus)
        ensures
            *r == self.state(),
    {
        &self.status
    }
}

impl View for Game {
    type V = GameView;

    closed spec fn view(&self) -> GameView {
        GameView {
            cells: self.board@,
            width: self.width,
            height: self.height,
            mine_count: self.mine_count,
            flag_count: self.flag_count,
            status: self.status,
        }
    }
}

/// The same cell with another status.
pub closed spec fn with_state(c: Cell, st: CellStatus) -> Cell {
    Cell { status: st, ..c }
}

/// A cell given another status keeps its mine and shows the new status.
pub broadcast proof fn lemma_with_state(c: Cell, st: CellStatus)
    ensures
        (#[trigger] with_state(c, st)).state() == st,
        with_state(c, st).mine() == c.mine(),
{
}

/// How many cells of `s` satisfy `p`.
pub open spec fn count_cells(s: Seq<Cell>, p: spec_fn(Cell) -> bool) -> nat
    decreases s.len(),
{
    if s.len() == 0 {
        0
    } else {
        count_cells(s.drop_last(), p) + if p(s.last()) {
            1nat
        } else {
            0nat
        }
    }
}

/// Holds a mine.
pub open spec fn is_mine_cell(c: Cell) -> bool {
    c.mine()
}

/// Carries a flag.
pub open spec fn is_flagged_cell(c: Cell) -> bool {
    c.state() == CellStatus::Flagged
}

/// Not yet uncovered: hidden or flagged.
pub open spec fn is_covered_cell(c: Cell) -> bool {
    c.state() == CellStatus::Hidden || c.state() == CellStatus::Flagged
}

/// The row-major mine layout of a board.
pub open spec fn mine_layout(cells: Seq<Cell>) -> Seq<bool> {
    cells.map_values(|c: Cell| c.mine())
}

/// How many of `bs` are true.
pub open spec fn count_true(bs: Seq<bool>) -> nat
    decreases bs.len(),
{
    if bs.len() == 0 {
        0
    } else {
        count_true(bs.drop_last()) + if bs.last() {
            1nat
        } else {
            0nat
        }
    }
}

/// The mine layout that the draws `d` make when `m` mines are to be placed:
/// cell `i` holds a mine exactly when `d[i]` is below the number of mines that
/// the cells before it left to place.
pub open spec fn layout_from_draws(d: Seq<usize>, m: nat) -> Seq<bool>
    decreases d.len(),
{
    if d.len() == 0 {
        Seq::empty()
    } else {
        let before = layout_from_draws(d.drop_last(), m);
        before.push((d.last() as int) < m - count_true(before))
    }
}

/// Each draw lies in its range: of `n` draws, the `i`-th is below `n - i`,
/// the number of cells left when it is made.
pub open spec fn draws_in_range(d: Seq<usize>) -> bool {
    forall|i: int| 0 <= i < d.len() ==> d[i] < d.len() - i
}

/// Every cell without a mine is revealed.
pub open spec fn all_safe_revealed(cells: Seq<Cell>) -> bool {
    forall|i: int| 0 <= i < cells.len() && !cells[i].mine() ==> cells[i].state() is Revealed
}

/// Every cell with a mine carries a flag.
pub open spec fn all_mines_flagged(cells: Seq<Cell>) -> bool {
    forall|i: int| 0 <= i < cells.len() && cells[i].mine() ==> cells[i].state() == CellStatus::Flagged
}

/// The status after a move that left the board `cells`: an ongoing game is
/// finished once all safe cells are revealed or all mines flagged.
pub open spec fn settled(s: Status, cells: Seq<Cell>) -> Status {
    if s == Status::Ongoing && (all_safe_revealed(cells) || all_mines_flagged(cells)) {
        Status::Finished
    } else {
        s
    }
}

impl GameView {
    /// The cell at row `r`, column `c`.
    pub open spec fn cell(self, r: usize, c: usize) -> Cell {
        self.cells[index_of(self.width, (r, c))]
    }

    /// The position lies on the board.
    pub open spec fn in_bounds(self, r: usize, c: usize) -> bool {
        r < self.height && c < self.width
    }

    /// How many neighbours of `(r, c)` hold a mine.
    pub open spec fn clue(self, r: usize, c: usize) -> nat {
        mines_around(mine_layout(self.cells), self.width, self.height, r, c)
    }

    /// The board with the cell at `(r, c)` given the status `st`.
    pub open spec fn cells_with(self, r: usize, c: usize, st: CellStatus) -> Seq<Cell> {
        self.cells.update(index_of(self.width, (r, c)), with_state(self.cell(r, c), st))
    }

    /// The game after the flag at `(r, c)` is placed (`st` is `Flagged`,
    /// `delta` 1) or taken away (`st` is `Hidden`, `delta` -1).
    pub open spec fn after_flag(self, r: usize, c: usize, st: CellStatus, delta: int) -> GameView {
        GameView {
            cells: self.cells_with(r, c, st),
            flag_count: (self.flag_count + delta) as usize,
            status: settled(self.status, self.cells_with(r, c, st)),
            ..self
        }
    }

    /// The board is consistent: its size, its counters and what revealed cells show.
    pub open spec fn wf(self) -> bool {
        &&& self.cells.len() == self.width * self.height
        &&& count_cells(self.cells, |c: Cell| is_mine_cell(c)) == self.mine_count
        &&& count_cells(self.cells, |c: Cell| is_flagged_cell(c)) == self.flag_count
        &&& self.flag_count <= self.mine_count
        &&& forall|r: usize, c: usize|
            #![trigger self.cell(r, c)]
            self.in_bounds(r, c) ==> match self.cell(r, c).state() {
                CellStatus::Revealed { adjacent_mine_count } => !self.cell(r, c).mine()
                    && adjacent_mine_count == self.clue(r, c),
                _ => true,
            }
        &&& forall|i: int|
            0 <= i < self.cells.len() && self.cells[i].state() == CellStatus::Exploded
                ==> self.cells[i].mine() && self.status == Status::Exploded
    }
}

/// Changing one cell changes a count by what the old and the new cell contribute.
pub proof fn lemma_count_update(s: Seq<Cell>, i: int, v: Cell, p: spec_fn(Cell) -> bool)
    requires
        0 <= i < s.len(),
    ensures
        count_cells(s.update(i, v), p) + (if p(s[i]) { 1int } else { 0int })
            == count_cells(s, p) + (if p(v) { 1int } else { 0int }),
    decreases s.len(),
{
    let t = s.update(i, v);
    if i == s.len() - 1 {
        assert(t.drop_last() =~= s.drop_last());
    } else {
        assert(t.drop_last() =~= s.drop_last().update(i, v));
        lemma_count_update(s.drop_last(), i, v, p);
    }
}

/// Revealing a covered safe cell with its clue (taking away its flag, if it
/// has one), or detonating a hidden mine, keeps a consistent game consistent
/// and covers one cell fewer.
pub proof fn lemma_uncover_wf(v: GameView, r: usize, c: usize, st: CellStatus, status: Status)
    requires
        v.wf(),
        v.in_bounds(r, c),
        is_covered_cell(v.cell(r, c)),
        (st == CellStatus::Revealed { adjacent_mine_count: v.clue(r, c) as usize } && !v.cell(r, c).mine()
            && v.clue(r, c) <= usize::MAX && status == v.status) || (st == CellStatus::Exploded
            && v.cell(r, c).mine() && v.cell(r, c).state() == CellStatus::Hidden && status == Status::Exploded),
    ensures
        v.cell(r, c).state() == CellStatus::Flagged ==> v.flag_count >= 1,
        (GameView {
            cells: v.cells_with(r, c, st),
            status,
            flag_count: if v.cell(r, c).state() == CellStatus::Flagged {
                (v.flag_count - 1) as usize
            } else {
                v.flag_count
            },
            ..v
        }).wf(),
        mine_layout(v.cells_with(r, c, st)) == mine_layout(v.cells),
        count_cells(v.cells_with(r, c, st), |x: Cell| is_covered_cell(x)) + 1 == count_cells(
            v.cells,
            |x: Cell| is_covered_cell(x),
        ),
        forall|r2: usize, c2: usize|
            #![trigger v.cells_with(r, c, st)[index_of(v.width, (r2, c2))]]
            v.in_bounds(r2, c2) && (r2, c2) != (r, c) ==> v.cells_with(r, c, st)[index_of(
                v.width,
                (r2, c2),
            )] == v.cell(r2, c2),
        v.cells_with(r, c, st)[index_of(v.width, (r, c))] == with_state(v.cell(r, c), st),
{
    let w = v.width;
    let i = index_of(w, (r, c));
    crate::grid::lemma_index_in_range(w, v.height, r, c);
    let cells = v.cells_with(r, c, st);
    let u = GameView {
        cells,
        status,
        flag_count: if v.cell(r, c).state() == CellStatus::Flagged {
            (v.flag_count - 1) as usize
        } else {
            v.flag_count
        },
        ..v
    };
    lemma_count_update(v.cells, i, with_state(v.cell(r, c), st), |x: Cell| is_mine_cell(x));
    lemma_count_update(v.cells, i, with_state(v.cell(r, c), st), |x: Cell| is_flagged_cell(x));
    lemma_count_update(v.cells, i, with_state(v.cell(r, c), st), |x: Cell| is_covered_cell(x));
    assert(mine_layout(cells) =~= mine_layout(v.cells));
    assert forall|r2: usize, c2: usize|
        #![trigger v.cells_with(r, c, st)[index_of(v.width, (r2, c2))]]
        v.in_bounds(r2, c2) && (r2, c2) != (r, c) implies v.cells_with(r, c, st)[index_of(
            v.width,
            (r2, c2),
        )] == v.cell(r2, c2) by {
        crate::grid::lemma_index_injective(w, (r2, c2), (r, c));
        crate::grid::lemma_index_in_range(w, v.height, r2, c2);
    }
    assert forall|r2: usize, c2: usize| #![trigger u.cell(r2, c2)] u.in_bounds(r2, c2) implies match u.cell(
        r2,
        c2,
    ).state() {
        CellStatus::Revealed { adjacent_mine_count } => !u.cell(r2, c2).mine()
            && adjacent_mine_count == u.clue(r2, c2),
        _ => true,
    } by {
        if (r2, c2) != (r, c) {
            assert(u.cell(r2, c2) == v.cell(r2, c2));
        }
    }
}

/// `p` waits in the queue `q` at or after position `head`.
pub open spec fn queued(q: Seq<(usize, usize)>, head: int, p: (usize, usize)) -> bool {
    exists|k: int| head <= k < q.len() && q[k] == p
}

/// Every neighbour of `(r, c)` is uncovered (neither hidden nor flagged) or
/// waits in the queue.
pub open spec fn handled_around(v: GameView, r: usize, c: usize, q: Seq<(usize, usize)>, head: int) -> bool {
    forall|j: int|
        0 <= j < neighbor_list(v.width, v.height, r, c).len() ==> {
            let p = #[trigger] neighbor_list(v.width, v.height, r, c)[j];
            !is_covered_cell(v.cell(p.0, p.1)) || queued(q, head, p)
        }
}

/// Popping the queue entry at `head` (the position `(r, c)`, uncovered now),
/// changing no other cell, and appending to the queue keeps a position's
/// neighbours handled.
pub proof fn lemma_handled_step(
    v: GameView,
    v2: GameView,
    q: Seq<(usize, usize)>,
    q2: Seq<(usize, usize)>,
    head: int,
    r: usize,
    c: usize,
    x: usize,
    y: usize,
)
    requires
        handled_around(v, x, y, q, head),
        v.in_bounds(x, y),
        v2.width == v.width,
        v2.height == v.height,
        0 <= head < q.len(),
        q[head] == (r, c),
        q.len() <= q2.len(),
        forall|k: int| 0 <= k < q.len() ==> q2[k] == q[k],
        !is_covered_cell(v2.cell(r, c)),
        forall|a: usize, b: usize| v.in_bounds(a, b) && (a, b) != (r, c) ==> #[trigger] v2.cell(a, b) == v.cell(a, b),
    ensures
        handled_around(v2, x, y, q2, head + 1),
{
    let nl = neighbor_list(v.width, v.height, x, y);
    crate::grid::lemma_neighbors_on_board(v.width, v.height, x, y);
    assert forall|j: int| 0 <= j < nl.len() implies {
        let p = #[trigger] nl[j];
        !is_covered_cell(v2.cell(p.0, p.1)) || queued(q2, head + 1, p)
    } by {
        let p = nl[j];
        if p != (r, c) {
            assert(v2.cell(p.0, p.1) == v.cell(p.0, p.1));
            if is_covered_cell(v.cell(p.0, p.1)) {
                let k = choose|k: int| head <= k < q.len() && q[k] == p;
                assert(q2[k] == p);
            }
        }
    }
}

/// Every neighbour of `(r, c)` is uncovered: neither hidden nor flagged.
pub open spec fn uncovered_around(v: GameView, r: usize, c: usize) -> bool {
    forall|j: int|
        0 <= j < neighbor_list(v.width, v.height, r, c).len() ==> {
            let p = #[trigger] neighbor_list(v.width, v.height, r, c)[j];
            !is_covered_cell(v.cell(p.0, p.1))
        }
}

/// `path` leads from one of `starts` through cells that were hidden or
/// flagged in `v0` and show no neighbouring mine in `v1`, each a neighbour of
/// the one before.
pub open spec fn cascade_path(
    v0: GameView,
    v1: GameView,
    starts: Seq<(usize, usize)>,
    path: Seq<(usize, usize)>,
) -> bool {
    &&& path.len() > 0
    &&& starts.contains(path[0])
    &&& forall|k: int| 0 <= k < path.len() ==> v0.in_bounds(#[trigger] path[k].0, path[k].1)
    &&& forall|k: int|
        0 <= k < path.len() - 1 ==> adjacent(path[k + 1], #[trigger] path[k]) && is_covered_cell(v0.cell(
            path[k].0,
            path[k].1,
        )) && v1.cell(path[k].0, path[k].1).state() == (CellStatus::Revealed {
            adjacent_mine_count: 0,
        })
}

/// A path stays a cascade path when only a covered cell changes.
pub proof fn lemma_path_frame(
    v0: GameView,
    v: GameView,
    v2: GameView,
    starts: Seq<(usize, usize)>,
    path: Seq<(usize, usize)>,
    r: usize,
    c: usize,
)
    requires
        cascade_path(v0, v, starts, path),
        is_covered_cell(v.cell(r, c)) || v2.cell(r, c) == v.cell(r, c),
        forall|x: usize, y: usize|
            v0.in_bounds(x, y) && (x, y) != (r, c) ==> #[trigger] v2.cell(x, y) == v.cell(x, y),
    ensures
        cascade_path(v0, v2, starts, path),
{
    assert forall|k: int| 0 <= k < path.len() - 1 implies adjacent(path[k + 1], #[trigger] path[k])
        && is_covered_cell(v0.cell(path[k].0, path[k].1)) && v2.cell(path[k].0, path[k].1).state()
        == (CellStatus::Revealed { adjacent_mine_count: 0 }) by {
        assert(v0.in_bounds(path[k].0, path[k].1));
        if path[k] != (r, c) {
            assert(v2.cell(path[k].0, path[k].1) == v.cell(path[k].0, path[k].1));
        }
    }
}

/// A cascade path extends by a neighbour of its last cell once that cell
/// shows no neighbouring mine.
pub proof fn lemma_path_extend(
    v0: GameView,
    v2: GameView,
    starts: Seq<(usize, usize)>,
    path: Seq<(usize, usize)>,
    nb: (usize, usize),
)
    requires
        cascade_path(v0, v2, starts, path),
        is_covered_cell(v0.cell(path.last().0, path.last().1)),
        v2.cell(path.last().0, path.last().1).state() == (CellStatus::Revealed { adjacent_mine_count: 0 }),
        adjacent(nb, path.last()),
        v0.in_bounds(nb.0, nb.1),
    ensures
        cascade_path(v0, v2, starts, path.push(nb)),
        path.push(nb).last() == nb,
{
    let extended = path.push(nb);
    assert(extended[0] == path[0]);
    assert forall|k: int| 0 <= k < extended.len() implies v0.in_bounds(#[trigger] extended[k].0, extended[k].1) by {
        if k < path.len() {
            assert(extended[k] == path[k]);
        }
    }
    assert forall|k: int| 0 <= k < extended.len() - 1 implies adjacent(extended[k + 1], #[trigger] extended[k])
        && is_covered_cell(v0.cell(extended[k].0, extended[k].1)) && v2.cell(extended[k].0, extended[k].1).state()
        == (CellStatus::Revealed { adjacent_mine_count: 0 }) by {
        assert(extended[k] == path[k]);
        if k < path.len() - 1 {
            assert(extended[k + 1] == path[k + 1]);
        }
    }
}

/// What a revealed start position of `v` turns into.
pub open spec fn start_outcome(v: GameView, p: (usize, usize)) -> CellStatus {
    if v.cell(p.0, p.1).mine() {
        CellStatus::Exploded
    } else {
        CellStatus::Revealed { adjacent_mine_count: v.clue(p.0, p.1) as usize }
    }
}

/// Some start position holds a mine.
pub open spec fn hits_mine(v: GameView, starts: Seq<(usize, usize)>) -> bool {
    exists|k: int| 0 <= k < starts.len() && v.cell(starts[k].0, starts[k].1).mine()
}

/// `v1` is what revealing the hidden positions `starts` makes of the ongoing game
/// `v0`: each start shows its clue or explodes; the cascade from cells without
/// neighbouring mines is closed unless a start held a mine, and passes through
/// flagged safe cells, which lose their flag; nothing else changes but covered
/// cells turning revealed, and mines among the starts exploding; and
/// every changed cell is reached from a start through newly revealed cells
/// without neighbouring mines.
pub open spec fn revealed_from(v0: GameView, v1: GameView, starts: Seq<(usize, usize)>) -> bool {
    &&& v1.wf()
    &&& v1.width == v0.width
    &&& v1.height == v0.height
    &&& v1.mine_count == v0.mine_count
    &&& mine_layout(v1.cells) == mine_layout(v0.cells)
    &&& v1.status == if hits_mine(v0, starts) {
        Status::Exploded
    } else {
        v0.status
    }
    &&& forall|k: int|
        0 <= k < starts.len() ==> v1.cell(starts[k].0, starts[k].1).state() == start_outcome(
            v0,
            #[trigger] starts[k],
        )
    &&& forall|r: usize, c: usize|
        #![trigger v1.cell(r, c)]
        v0.in_bounds(r, c) && v1.cell(r, c) != v0.cell(r, c) ==> is_covered_cell(v0.cell(r, c)) && v1.cell(r, c).mine() == v0.cell(r, c).mine() && (
        v1.cell(r, c).state() is Revealed || (v1.cell(r, c).state() == CellStatus::Exploded
            && starts.contains((r, c))))
    &&& !hits_mine(v0, starts) ==> forall|r: usize, c: usize|
        #![trigger v1.cell(r, c)]
        v0.in_bounds(r, c) && is_covered_cell(v0.cell(r, c)) && v1.cell(r, c).state()
            == (CellStatus::Revealed { adjacent_mine_count: 0 }) ==> uncovered_around(v1, r, c)
    &&& forall|r: usize, c: usize|
        #![trigger v1.cell(r, c)]
        v0.in_bounds(r, c) && v1.cell(r, c) != v0.cell(r, c) ==> exists|path: Seq<(usize, usize)>|
            cascade_path(v0, v1, starts, path) && path.last() == (r, c)
}

/// How many positions of `s` carry a flag in `v`.
pub open spec fn flagged_among(v: GameView, s: Seq<(usize, usize)>) -> nat
    decreases s.len(),
{
    if s.len() == 0 {
        0
    } else {
        flagged_among(v, s.drop_last()) + if v.cell(s.last().0, s.last().1).state()
            == CellStatus::Flagged {
            1nat
        } else {
            0nat
        }
    }
}

/// The positions of `s` that are hidden in `v`, in order.
pub open spec fn hidden_among(v: GameView, s: Seq<(usize, usize)>) -> Seq<(usize, usize)>
    decreases s.len(),
{
    if s.len() == 0 {
        Seq::empty()
    } else if v.cell(s.last().0, s.last().1).state() == CellStatus::Hidden {
        hidden_among(v, s.drop_last()).push(s.last())
    } else {
        hidden_among(v, s.drop_last())
    }
}

/// The game after a click on a cell that revealed `starts`: the reveal, then
/// the status settled.
pub open spec fn clicked(v0: GameView, v1: GameView, starts: Seq<(usize, usize)>) -> bool {
    let mid = GameView {
        status: if hits_mine(v0, starts) {
            Status::Exploded
        } else {
            Status::Ongoing
        },
        ..v1
    };
    &&& revealed_from(v0, mid, starts)
    &&& v1.status == settled(mid.status, v1.cells)
}

/// `v1` is `v0` with a flag put on each of the hidden positions `s`, and its
/// status settled.
pub open spec fn flagged_from(v0: GameView, v1: GameView, s: Seq<(usize, usize)>) -> bool {
    &&& v1.wf()
    &&& v1.width == v0.width
    &&& v1.height == v0.height
    &&& v1.mine_count == v0.mine_count
    &&& v1.cells.len() == v0.cells.len()
    &&& forall|r: usize, c: usize|
        #![trigger v1.cell(r, c)]
        v0.in_bounds(r, c) ==> v1.cell(r, c) == if s.contains((r, c)) {
            with_state(v0.cell(r, c), CellStatus::Flagged)
        } else {
            v0.cell(r, c)
        }
    &&& v1.status == settled(v0.status, v1.cells)
}

/// The hidden positions among `s` are positions of `s`, hidden in `v`.
pub proof fn lemma_hidden_among(v: GameView, s: Seq<(usize, usize)>)
    ensures
        hidden_among(v, s).len() <= s.len(),
        forall|k: int|
            0 <= k < hidden_among(v, s).len() ==> s.contains(#[trigger] hidden_among(v, s)[k])
                && v.cell(hidden_among(v, s)[k].0, hidden_among(v, s)[k].1).state()
                == CellStatus::Hidden,
    decreases s.len(),
{
    if s.len() > 0 {
        lemma_hidden_among(v, s.drop_last());
        let t = hidden_among(v, s.drop_last());
        assert forall|k: int| 0 <= k < hidden_among(v, s).len() implies s.contains(
            #[trigger] hidden_among(v, s)[k],
        ) && v.cell(hidden_among(v, s)[k].0, hidden_among(v, s)[k].1).state()
            == CellStatus::Hidden by {
            if k < t.len() {
                assert(hidden_among(v, s)[k] == t[k]);
                let m = choose|m: int| 0 <= m < s.drop_last().len() && s.drop_last()[m] == t[k];
                assert(s[m] == t[k]);
            } else {
                assert(s[s.len() - 1] == s.last());
            }
        }
    }
}

/// Flagging a hidden cell, with a flag to spare, keeps a consistent game consistent.
pub proof fn lemma_flag_wf(v: GameView, r: usize, c: usize)
    requires
        v.wf(),
        v.in_bounds(r, c),
        v.cell(r, c).state() == CellStatus::Hidden,
        v.flag_count < v.mine_count,
    ensures
        (GameView {
            cells: v.cells_with(r, c, CellStatus::Flagged),
            flag_count: (v.flag_count + 1) as usize,
            ..v
        }).wf(),
        forall|r2: usize, c2: usize|
            #![trigger v.cells_with(r, c, CellStatus::Flagged)[index_of(v.width, (r2, c2))]]
            v.in_bounds(r2, c2) && (r2, c2) != (r, c) ==> v.cells_with(r, c, CellStatus::Flagged)[index_of(
                v.width,
                (r2, c2),
            )] == v.cell(r2, c2),
{
    let w = v.width;
    let st = CellStatus::Flagged;
    let i = index_of(w, (r, c));
    crate::grid::lemma_index_in_range(w, v.height, r, c);
    let u = GameView { cells: v.cells_with(r, c, st), flag_count: (v.flag_count + 1) as usize, ..v };
    lemma_count_update(v.cells, i, with_state(v.cell(r, c), st), |x: Cell| is_mine_cell(x));
    lemma_count_update(v.cells, i, with_state(v.cell(r, c), st), |x: Cell| is_flagged_cell(x));
    assert(mine_layout(u.cells) =~= mine_layout(v.cells));
    assert forall|r2: usize, c2: usize|
        #![trigger v.cells_with(r, c, st)[index_of(v.width, (r2, c2))]]
        v.in_bounds(r2, c2) && (r2, c2) != (r, c) implies v.cells_with(r, c, st)[index_of(
            v.width,
            (r2, c2),
        )] == v.cell(r2, c2) by {
        crate::grid::lemma_index_injective(w, (r2, c2), (r, c));
        crate::grid::lemma_index_in_range(w, v.height, r2, c2);
    }
    assert forall|r2: usize, c2: usize| #![trigger u.cell(r2, c2)] u.in_bounds(r2, c2) implies match u.cell(
        r2,
        c2,
    ).state() {
        CellStatus::Revealed { adjacent_mine_count } => !u.cell(r2, c2).mine()
            && adjacent_mine_count == u.clue(r2, c2),
        _ => true,
    } by {
        if (r2, c2) != (r, c) {
            assert(u.cell(r2, c2) == v.cell(r2, c2));
        }
    }
}

/// Settling the status keeps a consistent game consistent.
pub proof fn lemma_settled_wf(v: GameView)
    requires
        v.wf(),
    ensures
        (GameView { status: settled(v.status, v.cells), ..v }).wf(),
{
    let u = GameView { status: settled(v.status, v.cells), ..v };
    assert forall|r: usize, c: usize| #![trigger u.cell(r, c)] u.in_bounds(r, c) implies match u.cell(
        r,
        c,
    ).state() {
        CellStatus::Revealed { adjacent_mine_count } => !u.cell(r, c).mine()
            && adjacent_mine_count == u.clue(r, c),
        _ => true,
    } by {
        assert(u.cell(r, c) == v.cell(r, c));
    }
}

/// Appends every item of `items` to `v`.
fn append_all(v: &mut Vec<(usize, usize)>, items: &Vec<(usize, usize)>)
    ensures
        final(v)@ == old(v)@ + items@,
{
    let mut j: usize = 0;
    while j < items.len()
        invariant
            j <= items@.len(),
            v@ == old(v)@ + items@.take(j as int),
        decreases items@.len() - j,
    {
        v.push(items[j]);
        j += 1;
        proof {
            assert(v@ =~= old(v)@ + items@.take(j as int));
        }
    }
    proof {
        assert(items@.take(items@.len() as int) =~= items@);
    }
}

impl Game {
    /// Creates a game of `height` rows and `width` columns holding `mine_count`
    /// mines, all cells hidden. Each cell in turn becomes a mine with
    /// probability (mines left to place) / (cells left): `rng` draws from
    /// `0..cells left` and the cell gets a mine when the draw is below the
    /// mines left. So every layout with exactly `mine_count` mines is equally
    /// likely. Nothing is drawn when the mines do not fit.
    pub fn new<R: RandomSource>(rng: &mut R, width: usize, height: usize, mine_count: usize) -> (r:
        Result<Self, Error>)
        requires
            width * height <= usize::MAX,
        ensures
            match r {
                Ok(g) => {
                    &&& mine_count <= width * height
                    &&& g@.wf()
                    &&& g@.width == width
                    &&& g@.height == height
                    &&& g@.mine_count == mine_count
                    &&& count_cells(g@.cells, |c: Cell| is_mine_cell(c)) == mine_count
                    &&& g@.flag_count == 0
                    &&& g@.status == Status::Ongoing
                    &&& forall|i: int| 0 <= i < g@.cells.len() ==> g@.cells[i].state() == CellStatus::Hidden
                    &&& exists|d: Seq<usize>|
                        d.len() == width * height && draws_in_range(d) && mine_layout(g@.cells)
                            == layout_from_draws(d, mine_count as nat)
                },
                Err(e) => e == Error::TooManyMines && mine_count > width * height && *final(rng) == *old(
                    rng,
                ),
            },
    {
        let total = width * height;
        if total < mine_count {
            return Err(Error::TooManyMines);
        }
        let mut draws: Vec<usize> = Vec::new();
        let mut idx: usize = 0;
        while idx < total
            invariant
                total == width * height,
                draws@.len() == idx,
                idx <= total,
                forall|i: int| 0 <= i < idx ==> draws@[i] < total - i,
            decreases total - idx,
        {
            let draw = rng.next_in_range(total - idx);
            draws.push(draw);
            idx += 1;
        }
        let r = Self::from_draws(width, height, mine_count, &draws);
        proof {
            if r is Ok {
                let g = r->Ok_0;
                assert(draws@.len() == width * height && draws_in_range(draws@) && mine_layout(g@.cells)
                    == layout_from_draws(draws@, mine_count as nat));
            }
        }
        r
    }

    /// Creates a game of `height` rows and `width` columns holding `mine_count`
    /// mines from the given draws, all cells hidden: row-major cell `i` holds a
    /// mine exactly when `draws[i]` is below the number of mines still to place.
    pub fn from_draws(width: usize, height: usize, mine_count: usize, draws: &Vec<usize>) -> (r: Result<
        Self,
        Error,
    >)
        requires
            width * height <= usize::MAX,
            draws@.len() == width * height,
            draws_in_range(draws@),
        ensures
            match r {
                Ok(g) => {
                    &&& mine_count <= width * height
                    &&& g@.wf()
                    &&& g@.width == width
                    &&& g@.height == height
                    &&& g@.mine_count == mine_count
                    &&& count_cells(g@.cells, |c: Cell| is_mine_cell(c)) == mine_count
                    &&& g@.flag_count == 0
                    &&& g@.status == Status::Ongoing
                    &&& forall|i: int| 0 <= i < g@.cells.len() ==> g@.cells[i].state() == CellStatus::Hidden
                    &&& mine_layout(g@.cells) == layout_from_draws(draws@, mine_count as nat)
                },
                Err(e) => e == Error::TooManyMines && mine_count > width * height,
            },
    {
        let total = width * height;
        if total < mine_count {
            return Err(Error::TooManyMines);
        }
        let mut board: Vec<Cell> = Vec::new();
        let mut remaining = mine_count;
        let mut idx: usize = 0;
        while idx < total
            invariant
                total == width * height,
                draws@.len() == total,
                draws_in_range(draws@),
                board@.len() == idx,
                idx <= total,
                remaining <= total - idx,
                count_cells(board@, |c: Cell| is_mine_cell(c)) + remaining == mine_count,
                count_true(mine_layout(board@)) + remaining == mine_count,
                mine_layout(board@) == layout_from_draws(draws@.take(idx as int), mine_count as nat),
                count_cells(board@, |c: Cell| is_flagged_cell(c)) == 0,
                forall|i: int| 0 <= i < board@.len() ==> board@[i].state() == CellStatus::Hidden,
            decreases total - idx,
        {
            let draw = draws[idx];
            let is_mine = draw < remaining;
            if is_mine {
                remaining -= 1;
            }
            let ghost before = board@;
            board.push(Cell { is_mine, status: CellStatus::Hidden });
            proof {
                assert(board@.drop_last() =~= before);
                assert(draws@.take(idx + 1).drop_last() =~= draws@.take(idx as int));
                assert(draws@.take(idx + 1).last() == draw);
                assert(mine_layout(board@) =~= mine_layout(before).push(is_mine));
                assert(mine_layout(board@).drop_last() =~= mine_layout(before));
            }
            idx += 1;
        }
        proof {
            assert(draws@.take(total as int) =~= draws@);
        }
        let g = Game { board, width, height, mine_count, flag_count: 0, status: Status::Ongoing };
        proof {
            assert forall|r: usize, c: usize| #![trigger g@.cell(r, c)] g@.in_bounds(r, c) implies match g@.cell(
                r,
                c,
            ).state() {
                CellStatus::Revealed { adjacent_mine_count } => !g@.cell(r, c).mine()
                    && adjacent_mine_count == g@.clue(r, c),
                _ => true,
            } by {
                crate::grid::lemma_index_in_range(width, height, r, c);
            }
        }
        Ok(g)
    }

    /// The row-major index of an on-board position.
    fn index(&self, row: usize, col: usize) -> (r: usize)
        requires
            self.board@.len() == self.width * self.height,
            row < self.height,
            col < self.width,
        ensures
            r == index_of(self.width, (row, col)),
            r < self.board@.len(),
    {
        proof {
            vstd::std_specs::vec::axiom_spec_len(&self.board);
            crate::grid::lemma_index_in_range(self.width, self.height, row, col);
            assert(row * self.width <= row * self.width + col);
        }
        row * self.width + col
    }

    /// How many neighbours of an on-board position hold a mine.
    fn adjacent_mine_count(&self, row: usize, col: usize) -> (r: usize)
        requires
            self.board@.len() == self.width * self.height,
            row < self.height,
            col < self.width,
        ensures
            r == mines_around(mine_layout(self.board@), self.width, self.height, row, col),
    {
        let nbrs = adjacent_coords(self.width, self.height, row, col);
        proof {
            crate::grid::lemma_neighbors_on_board(self.width, self.height, row, col);
        }
        let ghost layout = mine_layout(self.board@);
        let mut n: usize = 0;
        let mut k: usize = 0;
        while k < nbrs.len()
            invariant
                nbrs@ == neighbor_list(self.width, self.height, row, col),
                self.board@.len() == self.width * self.height,
                layout == mine_layout(self.board@),
                k <= nbrs@.len(),
                n <= k,
                n == mines_in(layout, self.width, nbrs@.take(k as int)),
                forall|j: int|
                    0 <= j < nbrs@.len() ==> (#[trigger] nbrs@[j]).0 < self.height && nbrs@[j].1
                        < self.width,
            decreases nbrs@.len() - k,
        {
            let (r, c) = nbrs[k];
            let i = self.index(r, c);
            proof {
                assert(nbrs@.take(k + 1).drop_last() =~= nbrs@.take(k as int));
            }
            if self.board[i].is_mine {
                n += 1;
            }
            k += 1;
        }
        proof {
            assert(nbrs@.take(nbrs@.len() as int) =~= nbrs@);
        }
        n
    }

    /// Reveals the hidden positions `starts`, breadth first: a safe cell shows
    /// its clue (a flagged one loses its flag), a mine explodes and ends the
    /// game, and until something explodes a cell without neighbouring mines
    /// queues its neighbours.
    #[verifier::rlimit(60)]
    fn reveal_cells(&mut self, starts: Vec<(usize, usize)>)
        requires
            old(self)@.wf(),
            old(self)@.status == Status::Ongoing,
            forall|k: int|
                0 <= k < starts@.len() ==> old(self)@.in_bounds(#[trigger] starts@[k].0, starts@[k].1)
                    && old(self)@.cell(starts@[k].0, starts@[k].1).state() == CellStatus::Hidden,
        ensures
            revealed_from(old(self)@, final(self)@, starts@),
    {
        let ghost v0 = self@;
        let ghost s = starts@;
        let mut queue = starts;
        let mut head: usize = 0;
        let mut exploded = false;
        let ghost mut paths: Seq<Seq<(usize, usize)>> = s.map_values(|p: (usize, usize)| seq![p]);
        proof {
            assert forall|k: int| 0 <= k < queue@.len() implies cascade_path(v0, self@, s, #[trigger] paths[k])
                && paths[k].last() == queue@[k] by {
                assert(paths[k][0] == s[k]);
            }
        }
        while head < queue.len()
            invariant
                paths.len() == queue@.len(),
                forall|k: int|
                    0 <= k < queue@.len() ==> cascade_path(v0, self@, s, #[trigger] paths[k]) && paths[k].last()
                        == queue@[k],
                forall|r: usize, c: usize|
                    #![trigger self@.cell(r, c)]
                    v0.in_bounds(r, c) && self@.cell(r, c) != v0.cell(r, c) ==> exists|k: int|
                        0 <= k < head && queue@[k] == (r, c),
                self@.wf(),
                self@.width == v0.width,
                self@.height == v0.height,
                self@.mine_count == v0.mine_count,
                mine_layout(self@.cells) == mine_layout(v0.cells),
                self@.status == if exploded {
                    Status::Exploded
                } else {
                    Status::Ongoing
                },
                head <= queue@.len(),
                s.len() <= queue@.len(),
                forall|k: int| 0 <= k < s.len() ==> queue@[k] == s[k],
                forall|k: int|
                    0 <= k < queue@.len() ==> v0.in_bounds(#[trigger] queue@[k].0, queue@[k].1),
                forall|k: int|
                    s.len() <= k < queue@.len() ==> !v0.cell(#[trigger] queue@[k].0, queue@[k].1).mine(),
                forall|k: int|
                    0 <= k < head && k < s.len() ==> self@.cell(s[k].0, s[k].1).state() == start_outcome(
                        v0,
                        #[trigger] s[k],
                    ),
                exploded == exists|k: int| 0 <= k < head && k < s.len() && v0.cell(s[k].0, s[k].1).mine(),
                forall|k: int|
                    0 <= k < s.len() ==> v0.in_bounds(#[trigger] s[k].0, s[k].1) && v0.cell(s[k].0, s[k].1).state()
                        == CellStatus::Hidden,
                forall|r: usize, c: usize|
                    #![trigger self@.cell(r, c)]
                    v0.in_bounds(r, c) && self@.cell(r, c) != v0.cell(r, c) ==> is_covered_cell(v0.cell(r, c)) && self@.cell(r, c).mine() == v0.cell(r, c).mine() && (
                    self@.cell(r, c).state() is Revealed || (self@.cell(r, c).state()
                        == CellStatus::Exploded && s.contains((r, c)))),
                !exploded ==> forall|r: usize, c: usize|
                    #![trigger self@.cell(r, c)]
                    v0.in_bounds(r, c) && is_covered_cell(v0.cell(r, c)) && self@.cell(
                        r,
                        c,
                    ).state() == (CellStatus::Revealed { adjacent_mine_count: 0 }) ==> handled_around(
                        self@,
                        r,
                        c,
                        queue@,
                        head as int,
                    ),
            decreases 9 * count_cells(self.board@, |x: Cell| is_covered_cell(x)) + queue@.len() - head,
        {
            let ghost v = self@;
            let ghost q = queue@;
            let ghost h = head as int;
            let ghost was_exploded = exploded;
            let ghost old_paths = paths;
            let ghost mut extra: Seq<(usize, usize)> = Seq::empty();
            let (r, c) = queue[head];
            head += 1;
            let i = self.index(r, c);
            let was_flagged = self.board[i].status == CellStatus::Flagged;
            proof {
                if was_flagged && self.board@[i as int].mine() {
                    assert(v.cell(r, c).mine() == v0.cell(r, c).mine());
                    assert(h < s.len());
                    assert(s[h] == (r, c));
                    assert(v.cell(r, c) != v0.cell(r, c));
                }
            }
            if self.board[i].status == CellStatus::Hidden || was_flagged {
                if self.board[i].is_mine {
                    proof {
                        lemma_uncover_wf(v, r, c, CellStatus::Exploded, Status::Exploded);
                    }
                    self.board.set(i, Cell { is_mine: true, status: CellStatus::Exploded });
                    self.status = Status::Exploded;
                    exploded = true;
                    proof {
                        assert(self.board@ == v.cells_with(r, c, CellStatus::Exploded));
                    }
                } else {
                    let n = self.adjacent_mine_count(r, c);
                    let ghost st = CellStatus::Revealed { adjacent_mine_count: n };
                    proof {
                        lemma_uncover_wf(v, r, c, st, v.status);
                    }
                    self.board.set(i, Cell { is_mine: false, status: CellStatus::Revealed { adjacent_mine_count: n } });
                    if was_flagged {
                        self.flag_count -= 1;
                    }
                    proof {
                        assert(self.board@ == v.cells_with(r, c, st));
                    }
                    if !exploded && n == 0 {
                        let nbrs = adjacent_coords(self.width, self.height, r, c);
                        proof {
                            crate::grid::lemma_neighbors_on_board(self.width, self.height, r, c);
                            crate::grid::lemma_no_mines_in(mine_layout(v.cells), self.width, nbrs@);
                            assert forall|j: int| 0 <= j < nbrs@.len() implies !v0.cell(
                                #[trigger] nbrs@[j].0,
                                nbrs@[j].1,
                            ).mine() by {
                                crate::grid::lemma_index_in_range(self.width, self.height, nbrs@[j].0, nbrs@[j].1);
                            }
                            extra = nbrs@;
                            paths = paths + nbrs@.map_values(|nb: (usize, usize)| old_paths[h].push(nb));
                        }
                        append_all(&mut queue, &nbrs);
                        proof {
                            assert forall|k: int| s.len() <= k < queue@.len() implies !v0.cell(
                                #[trigger] queue@[k].0,
                                queue@[k].1,
                            ).mine() by {
                                if k >= q.len() {
                                    assert(queue@[k] == nbrs@[k - q.len()]);
                                }
                            }
                        }
                    }
                }
            }
            proof {
                let w = self.width;
                let v2 = self@;
                assert(queue@ == q + extra);
                if v0.cell(r, c).mine() {
                    assert(h < s.len());
                    assert(s[h] == (r, c));
                    assert(s.contains((r, c)));
                    if !is_covered_cell(v.cell(r, c)) {
                        assert(v.cell(r, c) != v0.cell(r, c));
                        assert(was_exploded);
                    }
                    assert(exploded);
                }
                if h < s.len() {
                    assert(s[h] == (r, c));
                }
                assert(!is_covered_cell(v2.cell(r, c)));
                assert forall|r2: usize, c2: usize|
                    v.in_bounds(r2, c2) && (r2, c2) != (r, c) implies #[trigger] v2.cell(r2, c2) == v.cell(
                        r2,
                        c2,
                    ) by {
                    crate::grid::lemma_index_in_range(w, self.height, r2, c2);
                }
                assert forall|k: int| 0 <= k < queue@.len() implies cascade_path(v0, v2, s, #[trigger] paths[k])
                    && paths[k].last() == queue@[k] by {
                    if k < q.len() {
                        assert(paths[k] == old_paths[k]);
                        lemma_path_frame(v0, v, v2, s, old_paths[k], r, c);
                    } else {
                        let nb = extra[k - q.len()];
                        crate::grid::lemma_neighbors_on_board(w, self.height, r, c);
                        lemma_path_frame(v0, v, v2, s, old_paths[h], r, c);
                        assert(old_paths[h].last() == (r, c));
                        assert(is_covered_cell(v.cell(r, c))) by {
                            if !is_covered_cell(v.cell(r, c)) {
                                assert(extra.len() == 0);
                            }
                        }
                        assert(v.cell(r, c) == v0.cell(r, c));
                        assert(queue@[k] == nb);
                        lemma_path_extend(v0, v2, s, old_paths[h], nb);
                    }
                }
                assert forall|r2: usize, c2: usize|
                    #![trigger v2.cell(r2, c2)]
                    v0.in_bounds(r2, c2) && v2.cell(r2, c2) != v0.cell(r2, c2) implies exists|k: int|
                        0 <= k < head && queue@[k] == (r2, c2) by {
                    if (r2, c2) == (r, c) {
                        assert(queue@[h] == (r, c));
                    } else {
                        assert(v2.cell(r2, c2) == v.cell(r2, c2));
                        let k = choose|k: int| 0 <= k < h && q[k] == (r2, c2);
                        assert(queue@[k] == (r2, c2));
                    }
                }
                if !exploded {
                    assert forall|r2: usize, c2: usize|
                        #![trigger v2.cell(r2, c2)]
                        v0.in_bounds(r2, c2) && is_covered_cell(v0.cell(r2, c2))
                            && v2.cell(r2, c2).state() == (CellStatus::Revealed {
                            adjacent_mine_count: 0,
                        }) implies handled_around(v2, r2, c2, queue@, head as int) by {
                        let nl = neighbor_list(w, self.height, r2, c2);
                        crate::grid::lemma_neighbors_on_board(w, self.height, r2, c2);
                        if (r2, c2) == (r, c) && is_covered_cell(v.cell(r, c)) {
                            assert(extra == nl);
                            assert forall|j: int| 0 <= j < nl.len() implies {
                                let p = #[trigger] nl[j];
                                !is_covered_cell(v2.cell(p.0, p.1)) || queued(queue@, head as int, p)
                            } by {
                                assert(queue@[q.len() + j] == nl[j]);
                            }
                        } else {
                            assert(v2.cell(r2, c2) == v.cell(r2, c2));
                            lemma_handled_step(v, v2, q, queue@, h, r, c, r2, c2);
                        }
                    }
                }
            }
        }
        proof {
            assert forall|r: usize, c: usize|
                #![trigger self@.cell(r, c)]
                v0.in_bounds(r, c) && self@.cell(r, c) != v0.cell(r, c) implies exists|path: Seq<(usize, usize)>|
                    cascade_path(v0, self@, s, path) && path.last() == (r, c) by {
                let k = choose|k: int| 0 <= k < head && queue@[k] == (r, c);
                assert(cascade_path(v0, self@, s, paths[k]) && paths[k].last() == (r, c));
            }
        }
    }

    /// Gets the cell at the specified position.
    pub fn get(&self, row: usize, col: usize) -> (r: &Cell)
        requires
            self@.wf(),
            self@.in_bounds(row, col),
        ensures
            *r == self@.cell(row, col),
    {
        &self.board[self.index(row, col)]
    }

    /// Gets the total number of mines on the board.
    pub fn mine_count(&self) -> (r: usize)
        ensures
            r == self@.mine_count,
    {
        self.mine_count
    }

    /// Gets the current number of flags placed.
    pub fn flag_count(&self) -> (r: usize)
        ensures
            r == self@.flag_count,
    {
        self.flag_count
    }

    /// Gets the current game status.
    pub fn status(&self) -> (r: &Status)
        ensures
            *r == self@.status,
    {
        &self.status
    }

    /// Clicks a cell: a hidden cell is revealed; on a revealed cell whose clue
    /// equals its flagged neighbours, the hidden neighbours are revealed; with
    /// `auto_flag`, on a revealed cell whose clue equals its hidden and flagged
    /// neighbours together, the hidden neighbours are flagged, unless that
    /// would leave more flags than mines: then the click fails with
    /// `TooManyFlags` and changes nothing, so that flags never outnumber mines.
    pub fn click(&mut self, row: usize, col: usize, auto_flag: bool) -> (r: Result<(), Error>)
        requires
            old(self)@.wf(),
            old(self)@.in_bounds(row, col),
        ensures
            final(self)@.wf(),
            old(self)@.status != Status::Ongoing ==> r == Err::<(), Error>(Error::GameEnded)
                && final(self)@ == old(self)@,
            old(self)@.status == Status::Ongoing ==> match old(self)@.cell(row, col).state() {
                CellStatus::Hidden => r == Ok::<(), Error>(()) && clicked(
                    old(self)@,
                    final(self)@,
                    seq![(row, col)],
                ),
                CellStatus::Revealed { adjacent_mine_count } => {
                    let nl = neighbor_list(old(self)@.width, old(self)@.height, row, col);
                    let flagged = flagged_among(old(self)@, nl);
                    let hidden = hidden_among(old(self)@, nl);
                    if flagged == adjacent_mine_count {
                        r == Ok::<(), Error>(()) && clicked(old(self)@, final(self)@, hidden)
                    } else if auto_flag && hidden.len() + flagged == adjacent_mine_count {
                        if old(self)@.flag_count + hidden.len() > old(self)@.mine_count {
                            r == Err::<(), Error>(Error::TooManyFlags) && final(self)@ == old(self)@
                        } else {
                            r == Ok::<(), Error>(()) && flagged_from(old(self)@, final(self)@, hidden)
                        }
                    } else {
                        r == Err::<(), Error>(Error::InvalidClick) && final(self)@ == old(self)@
                    }
                },
                CellStatus::Flagged => r == Err::<(), Error>(Error::ClickOnFlagged) && final(self)@
                    == old(self)@,
                CellStatus::Exploded => r == Err::<(), Error>(Error::GameEnded) && final(self)@
                    == old(self)@,
            },
    {
        if self.status != Status::Ongoing {
            return Err(Error::GameEnded);
        }
        let ghost v0 = self@;
        let i = self.index(row, col);
        match self.board[i].status {
            CellStatus::Hidden => {
                let mut starts: Vec<(usize, usize)> = Vec::new();
                starts.push((row, col));
                self.reveal_cells(starts);
            },
            CellStatus::Revealed { adjacent_mine_count } => {
                let nbrs = adjacent_coords(self.width, self.height, row, col);
                proof {
                    crate::grid::lemma_neighbors_on_board(self.width, self.height, row, col);
                }
                let mut flagged: usize = 0;
                let mut hidden: Vec<(usize, usize)> = Vec::new();
                let mut k: usize = 0;
                while k < nbrs.len()
                    invariant
                        *self == *old(self),
                        self@ == v0,
                        v0.wf(),
                        nbrs@ == neighbor_list(v0.width, v0.height, row, col),
                        nbrs@.len() <= 8,
                        forall|j: int|
                            0 <= j < nbrs@.len() ==> (#[trigger] nbrs@[j]).0 < v0.height && nbrs@[j].1
                                < v0.width,
                        k <= nbrs@.len(),
                        flagged <= k,
                        flagged == flagged_among(v0, nbrs@.take(k as int)),
                        hidden@ == hidden_among(v0, nbrs@.take(k as int)),
                    decreases nbrs@.len() - k,
                {
                    let (r, c) = nbrs[k];
                    let j = self.index(r, c);
                    proof {
                        assert(nbrs@.take(k + 1).drop_last() =~= nbrs@.take(k as int));
                    }
                    if self.board[j].status == CellStatus::Hidden {
                        hidden.push((r, c));
                    } else if self.board[j].status == CellStatus::Flagged {
                        flagged += 1;
                    }
                    k += 1;
                }
                proof {
                    assert(nbrs@.take(nbrs@.len() as int) =~= nbrs@);
                    lemma_hidden_among(v0, nbrs@);
                    assert forall|k: int| 0 <= k < hidden@.len() implies v0.in_bounds(
                        #[trigger] hidden@[k].0,
                        hidden@[k].1,
                    ) && v0.cell(hidden@[k].0, hidden@[k].1).state() == CellStatus::Hidden by {
                        let m = choose|m: int| 0 <= m < nbrs@.len() && nbrs@[m] == hidden@[k];
                        assert(nbrs@[m].0 < v0.height);
                    }
                }
                if flagged == adjacent_mine_count {
                    self.reveal_cells(hidden);
                } else if auto_flag && hidden.len() + flagged == adjacent_mine_count {
                    if hidden.len() > self.mine_count - self.flag_count {
                        return Err(Error::TooManyFlags);
                    }
                    self.flag_all(&hidden);
                    let ghost mid = self@;
                    proof {
                        lemma_settled_wf(self@);
                    }
                    self.update_status();
                    proof {
                        assert forall|r: usize, c: usize| #![trigger self@.cell(r, c)] v0.in_bounds(r, c) implies self@.cell(r, c) == mid.cell(r, c) by {}
                        assert(flagged_from(v0, self@, hidden@));
                    }
                    return Ok(());
                } else {
                    return Err(Error::InvalidClick);
                }
            },
            CellStatus::Flagged => {
                return Err(Error::ClickOnFlagged);
            },
            CellStatus::Exploded => {
                return Err(Error::GameEnded);
            },
        }
        proof {
            lemma_settled_wf(self@);
        }
        self.update_status();
        Ok(())
    }

    /// Puts a flag on each of the hidden positions `cells`, while flags remain.
    fn flag_all(&mut self, cells: &Vec<(usize, usize)>)
        requires
            old(self)@.wf(),
            old(self)@.status == Status::Ongoing,
            old(self)@.flag_count + cells@.len() <= old(self)@.mine_count,
            forall|k: int|
                0 <= k < cells@.len() ==> old(self)@.in_bounds(#[trigger] cells@[k].0, cells@[k].1)
                    && old(self)@.cell(cells@[k].0, cells@[k].1).state() == CellStatus::Hidden,
        ensures
            final(self)@.wf(),
            final(self)@.status == Status::Ongoing,
            final(self)@.width == old(self)@.width,
            final(self)@.height == old(self)@.height,
            final(self)@.mine_count == old(self)@.mine_count,
            final(self)@.cells.len() == old(self)@.cells.len(),
            forall|r: usize, c: usize|
                #![trigger final(self)@.cell(r, c)]
                old(self)@.in_bounds(r, c) ==> final(self)@.cell(r, c) == if cells@.contains((r, c)) {
                    with_state(old(self)@.cell(r, c), CellStatus::Flagged)
                } else {
                    old(self)@.cell(r, c)
                },
    {
        let ghost v0 = self@;
        let mut j: usize = 0;
        while j < cells.len()
            invariant
                self@.wf(),
                self@.status == Status::Ongoing,
                self@.width == v0.width,
                self@.height == v0.height,
                self@.mine_count == v0.mine_count,
                self@.cells.len() == v0.cells.len(),
                j <= cells@.len(),
                self@.flag_count <= v0.flag_count + j,
                v0.flag_count + cells@.len() <= v0.mine_count,
                forall|k: int|
                    0 <= k < cells@.len() ==> v0.in_bounds(#[trigger] cells@[k].0, cells@[k].1)
                        && v0.cell(cells@[k].0, cells@[k].1).state() == CellStatus::Hidden,
                forall|r: usize, c: usize|
                    #![trigger self@.cell(r, c)]
                    v0.in_bounds(r, c) ==> self@.cell(r, c) == if cells@.take(j as int).contains((r, c)) {
                        with_state(v0.cell(r, c), CellStatus::Flagged)
                    } else {
                        v0.cell(r, c)
                    },
            decreases cells@.len() - j,
        {
            let ghost v = self@;
            let (r, c) = cells[j];
            let i = self.index(r, c);
            if self.board[i].status == CellStatus::Hidden {
                proof {
                    lemma_flag_wf(v, r, c);
                }
                self.board.set(i, Cell { is_mine: self.board[i].is_mine, status: CellStatus::Flagged });
                self.flag_count += 1;
                proof {
                    assert(self.board@ == v.cells_with(r, c, CellStatus::Flagged));
                }
            }
            proof {
                let t0 = cells@.take(j as int);
                let t1 = cells@.take(j + 1);
                assert(t1 =~= t0.push((r, c)));
                assert forall|r2: usize, c2: usize|
                    #![trigger self@.cell(r2, c2)]
                    v0.in_bounds(r2, c2) implies self@.cell(r2, c2) == if t1.contains((r2, c2)) {
                        with_state(v0.cell(r2, c2), CellStatus::Flagged)
                    } else {
                        v0.cell(r2, c2)
                    } by {
                    crate::grid::lemma_index_in_range(self.width, self.height, r2, c2);
                    if (r2, c2) == (r, c) {
                        assert(t1[j as int] == (r, c));
                    } else {
                        assert(self@.cell(r2, c2) == v.cell(r2, c2));
                        if t1.contains((r2, c2)) {
                            let m = choose|m: int| 0 <= m < t1.len() && t1[m] == (r2, c2);
                            assert(t0[m] == (r2, c2));
                        }
                    }
                }
            }
            j += 1;
        }
        proof {
            assert(cells@.take(cells@.len() as int) =~= cells@);
        }
    }

    /// Toggles a flag on a hidden or flagged cell.
    pub fn flag(&mut self, row: usize, col: usize) -> (r: Result<(), Error>)
        requires
            old(self)@.wf(),
            old(self)@.in_bounds(row, col),
        ensures
            final(self)@.wf(),
            old(self)@.status != Status::Ongoing ==> r == Err::<(), Error>(Error::GameEnded)
                && final(self)@ == old(self)@,
            old(self)@.status == Status::Ongoing ==> match old(self)@.cell(row, col).state() {
                CellStatus::Hidden => if old(self)@.flag_count == old(self)@.mine_count {
                    r == Err::<(), Error>(Error::TooManyFlags) && final(self)@ == old(self)@
                } else {
                    r == Ok::<(), Error>(()) && final(self)@ == old(self)@.after_flag(
                        row,
                        col,
                        CellStatus::Flagged,
                        1,
                    )
                },
                CellStatus::Flagged => r == Ok::<(), Error>(()) && final(self)@ == old(
                    self,
                )@.after_flag(row, col, CellStatus::Hidden, -1),
                _ => r == Err::<(), Error>(Error::ClickOnRevealed) && final(self)@ == old(self)@,
            },
    {
        if self.status != Status::Ongoing {
            return Err(Error::GameEnded);
        }
        let i = self.index(row, col);
        let ghost v0 = self@;
        match self.board[i].status {
            CellStatus::Hidden => {
                if self.flag_count == self.mine_count {
                    return Err(Error::TooManyFlags);
                }
                self.board[i].status = CellStatus::Flagged;
                self.flag_count += 1;
            },
            CellStatus::Flagged => {
                proof {
                    lemma_count_update(
                        v0.cells,
                        i as int,
                        with_state(v0.cells[i as int], CellStatus::Hidden),
                        |c: Cell| is_flagged_cell(c),
                    );
                }
                self.board[i].status = CellStatus::Hidden;
                self.flag_count -= 1;
            },
            _ => {
                return Err(Error::ClickOnRevealed);
            },
        }
        proof {
            let w = self.width;
            let st = self.board@[i as int].state();
            assert(self.board@ == v0.cells_with(row, col, st));
            lemma_count_update(v0.cells, i as int, self.board@[i as int], |c: Cell| is_mine_cell(c));
            lemma_count_update(v0.cells, i as int, self.board@[i as int], |c: Cell| is_flagged_cell(c));
            assert(mine_layout(self.board@) =~= mine_layout(v0.cells));
            assert forall|r: usize, c: usize| #![trigger self@.cell(r, c)] self@.in_bounds(r, c)
                && (r, c) != (row, col) implies self@.cell(r, c) == v0.cell(r, c) by {
                crate::grid::lemma_index_injective(w, (r, c), (row, col));
                crate::grid::lemma_index_in_range(w, self.height, r, c);
            }
            assert(self@.wf());
            lemma_settled_wf(self@);
        }
        self.update_status();
        Ok(())
    }

    /// Marks an ongoing game finished once every safe cell is revealed or every
    /// mine is flagged.
    fn update_status(&mut self)
        ensures
            final(self)@ == (GameView { status: settled(old(self)@.status, old(self)@.cells), ..old(self)@ }),
    {
        if self.status != Status::Ongoing {
            return;
        }
        let mut all_revealed = true;
        let mut all_flagged = true;
        let mut i: usize = 0;
        while i < self.board.len()
            invariant
                i <= self.board@.len(),
                all_revealed == (forall|j: int|
                    0 <= j < i && !self.board@[j].mine() ==> self.board@[j].state() is Revealed),
                all_flagged == (forall|j: int|
                    0 <= j < i && self.board@[j].mine() ==> self.board@[j].state() == CellStatus::Flagged),
            decreases self.board@.len() - i,
        {
            let cell = &self.board[i];
            if !cell.is_mine && !matches!(cell.status, CellStatus::Revealed { .. }) {
                all_revealed = false;
            }
            if cell.is_mine && cell.status != CellStatus::Flagged {
                all_flagged = false;
            }
            i += 1;
        }
        if all_revealed || all_flagged {
            self.status = Status::Finished;
        }
    }
}

/// A consistent game never holds more flags than mines.
pub proof fn lemma_flags_within_mines(v: GameView)
    requires
        v.wf(),
    ensures
        v.flag_count <= v.mine_count,
{
}

/// A click on a hidden safe cell reveals its whole zero-clue region: every
/// cell at the end of a path of hidden or flagged cells that starts at the
/// clicked cell and steps from neighbour to neighbour, through cells with no
/// neighbouring mine, ends up revealed.
pub proof fn lemma_cascade_reaches(
    v0: GameView,
    v1: GameView,
    row: usize,
    col: usize,
    path: Seq<(usize, usize)>,
)
    requires
        v0.wf(),
        v0.status == Status::Ongoing,
        v0.in_bounds(row, col),
        !v0.cell(row, col).mine(),
        clicked(v0, v1, seq![(row, col)]),
        path.len() > 0,
        path[0] == (row, col),
        forall|k: int|
            0 <= k < path.len() ==> v0.in_bounds(#[trigger] path[k].0, path[k].1) && is_covered_cell(v0.cell(
                path[k].0,
                path[k].1,
            )),
        forall|k: int|
            0 <= k < path.len() - 1 ==> adjacent(#[trigger] path[k + 1], path[k]) && v0.clue(
                path[k].0,
                path[k].1,
            ) == 0,
    ensures
        v1.cell(path.last().0, path.last().1).state() is Revealed,
    decreases path.len(),
{
    let starts = seq![(row, col)];
    let mid = GameView {
        status: if hits_mine(v0, starts) {
            Status::Exploded
        } else {
            Status::Ongoing
        },
        ..v1
    };
    assert(!hits_mine(v0, starts)) by {
        if hits_mine(v0, starts) {
            let k = choose|k: int| 0 <= k < starts.len() && v0.cell(starts[k].0, starts[k].1).mine();
            assert(starts[k] == (row, col));
        }
    }
    assert(starts[0] == (row, col));
    if path.len() == 1 {
        assert(mid.cell(row, col).state() == start_outcome(v0, starts[0]));
    } else {
        let prev = path.drop_last();
        assert forall|k: int| 0 <= k < prev.len() - 1 implies adjacent(#[trigger] prev[k + 1], prev[k])
            && v0.clue(prev[k].0, prev[k].1) == 0 by {
            assert(prev[k + 1] == path[k + 1] && prev[k] == path[k]);
        }
        assert forall|k: int| 0 <= k < prev.len() implies v0.in_bounds(#[trigger] prev[k].0, prev[k].1)
            && is_covered_cell(v0.cell(prev[k].0, prev[k].1)) by {
            assert(prev[k] == path[k]);
        }
        lemma_cascade_reaches(v0, v1, row, col, prev);
        let p = prev.last();
        let q = path.last();
        assert(p == path[path.len() - 2]);
        assert(adjacent(path[path.len() - 2 + 1], path[path.len() - 2]));
        assert(v0.clue(p.0, p.1) == 0);
        assert(mid.cell(p.0, p.1) != v0.cell(p.0, p.1));
        assert(mid.cell(p.0, p.1).state() == (CellStatus::Revealed { adjacent_mine_count: 0 }));
        assert(uncovered_around(mid, p.0, p.1));
        crate::grid::lemma_adjacent_listed(v0.width, v0.height, p.0, p.1, q);
        let nl = neighbor_list(v0.width, v0.height, p.0, p.1);
        let j = choose|j: int| 0 <= j < nl.len() && nl[j] == q;
        assert(!is_covered_cell(mid.cell(nl[j].0, nl[j].1)));
        assert(path[path.len() - 1] == q);
        assert(mid.cell(q.0, q.1) != v0.cell(q.0, q.1));
        if mid.cell(q.0, q.1).state() == CellStatus::Exploded {
            assert(starts.contains((q.0, q.1)));
            assert(starts[0] == q);
            assert(false);
        }
    }
}

/// A click that reveals the hidden positions `starts` shows each start's clue
/// or explodes it; when any of them holds a mine the game is lost, and every
/// mine among them has exploded.
pub proof fn lemma_reveal_outcome(v0: GameView, v1: GameView, starts: Seq<(usize, usize)>)
    requires
        clicked(v0, v1, starts),
    ensures
        forall|k: int|
            0 <= k < starts.len() ==> v1.cell(starts[k].0, starts[k].1).state() == start_outcome(
                v0,
                #[trigger] starts[k],
            ),
        hits_mine(v0, starts) ==> v1.status == Status::Exploded,
        hits_mine(v0, starts) ==> forall|k: int|
            0 <= k < starts.len() && v0.cell(starts[k].0, starts[k].1).mine() ==> v1.cell(
                #[trigger] starts[k].0,
                starts[k].1,
            ).state() == CellStatus::Exploded,
{
    let mid = GameView {
        status: if hits_mine(v0, starts) {
            Status::Exploded
        } else {
            Status::Ongoing
        },
        ..v1
    };
    assert forall|k: int| 0 <= k < starts.len() implies v1.cell(starts[k].0, starts[k].1).state()
        == start_outcome(v0, #[trigger] starts[k]) by {
        assert(mid.cell(starts[k].0, starts[k].1).state() == start_outcome(v0, starts[k]));
    }
}

/// After a move that set off no mine, the game is finished exactly when every
/// safe cell is revealed or every mine is flagged.
pub proof fn lemma_finished_exactly(v0: GameView, v1: GameView, starts: Seq<(usize, usize)>)
    requires
        clicked(v0, v1, starts) || flagged_from(v0, v1, starts),
        v0.status == Status::Ongoing,
        !hits_mine(v0, starts),
    ensures
        (v1.status == Status::Finished) <==> (all_safe_revealed(v1.cells) || all_mines_flagged(v1.cells)),
        v1.status != Status::Exploded,
{
}

/// Toggling a flag leaves the game finished exactly when every safe cell is
/// revealed or every mine is flagged.
pub proof fn lemma_flag_finished_exactly(v0: GameView, r: usize, c: usize, st: CellStatus, delta: int)
    requires
        v0.status == Status::Ongoing,
    ensures
        (v0.after_flag(r, c, st, delta).status == Status::Finished) <==> (all_safe_revealed(
            v0.after_flag(r, c, st, delta).cells,
        ) || all_mines_flagged(v0.after_flag(r, c, st, delta).cells)),
{
}

} // verus!
