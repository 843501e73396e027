//! Positions on a rectangular, row-major board and their neighbourhoods.
use vstd::prelude::*;

verus! {

/// The position `(r, c)` as a one-element sequence if it lies on a board of
/// `w` columns and `h` rows, else the empty sequence.
pub open spec fn on_board(w: usize, h: usize, r: int, c: int) -> Seq<(usize, usize)> {
    if 0 <= r < h && 0 <= c < w {
        seq![(r as usize, c as usize)]
    } else {
        seq![]
    }
}

/// The neighbours of `(r, c)` that lie on the board, row by row from the
/// upper left.
pub open spec fn neighbor_list(w: usize, h: usize, r: usize, c: usize) -> Seq<(usize, usize)> {
    on_board(w, h, r - 1, c - 1) + on_board(w, h, r - 1, c as int) + on_board(w, h, r - 1, c + 1)
        + on_board(w, h, r as int, c - 1) + on_board(w, h, r as int, c + 1)
        + on_board(w, h, r + 1, c - 1) + on_board(w, h, r + 1, c as int)
        + on_board(w, h, r + 1, c + 1)
}

/// Two distinct positions that touch by a side or a corner.
pub open spec fn adjacent(a: (usize, usize), b: (usize, usize)) -> bool {
    a != b && -1 <= a.0 - b.0 <= 1 && -1 <= a.1 - b.1 <= 1
}

/// The index of position `p` in a row-major board of `w` columns.
pub open spec fn index_of(w: usize, p: (usize, usize)) -> int {
    p.0 * w + p.1
}

/// How many of the positions in `s` hold a mine, by the row-major layout `mines`.
pub open spec fn mines_in(mines: Seq<bool>, w: usize, s: Seq<(usize, usize)>) -> nat
    decreases s.len(),
{
    if s.len() == 0 {
        0
    } else {
        mines_in(mines, w, s.drop_last()) + if mines[index_of(w, s.last())] {
            1nat
        } else {
            0nat
        }
    }
}

/// How many neighbours of `(r, c)` hold a mine.
pub open spec fn mines_around(mines: Seq<bool>, w: usize, h: usize, r: usize, c: usize) -> nat {
    mines_in(mines, w, neighbor_list(w, h, r, c))
}

/// Every listed neighbour lies on the board and touches `(r, c)`.
pub proof fn lemma_neighbors_on_board(w: usize, h: usize, r: usize, c: usize)
    requires
        r < h,
        c < w,
    ensures
        neighbor_list(w, h, r, c).len() <= 8,
        forall|k: int|
            0 <= k < neighbor_list(w, h, r, c).len() ==> {
                let p = #[trigger] neighbor_list(w, h, r, c)[k];
                p.0 < h && p.1 < w && adjacent(p, (r, c))
            },
{
}

/// Every on-board position touching `(r, c)` is listed among its neighbours.
pub proof fn lemma_adjacent_listed(w: usize, h: usize, r: usize, c: usize, q: (usize, usize))
    requires
        r < h,
        c < w,
        q.0 < h,
        q.1 < w,
        adjacent(q, (r, c)),
    ensures
        neighbor_list(w, h, r, c).contains(q),
{
    let a = on_board(w, h, r - 1, c - 1);
    let b = on_board(w, h, r - 1, c as int);
    let d = on_board(w, h, r - 1, c + 1);
    let e = on_board(w, h, r as int, c - 1);
    let f = on_board(w, h, r as int, c + 1);
    let g = on_board(w, h, r + 1, c - 1);
    let k = on_board(w, h, r + 1, c as int);
    let m = on_board(w, h, r + 1, c + 1);
    let nl = neighbor_list(w, h, r, c);
    let i: int = if q.0 + 1 == r && q.1 + 1 == c {
        0
    } else if q.0 + 1 == r && q.1 == c {
        a.len() as int
    } else if q.0 + 1 == r {
        (a.len() + b.len()) as int
    } else if q.0 == r && q.1 + 1 == c {
        (a.len() + b.len() + d.len()) as int
    } else if q.0 == r {
        (a.len() + b.len() + d.len() + e.len()) as int
    } else if q.1 + 1 == c {
        (a.len() + b.len() + d.len() + e.len() + f.len()) as int
    } else if q.1 == c {
        (a.len() + b.len() + d.len() + e.len() + f.len() + g.len()) as int
    } else {
        (a.len() + b.len() + d.len() + e.len() + f.len() + g.len() + k.len()) as int
    };
    assert(nl[i] == q);
}

/// Row-major indices of on-board positions are in range.
pub proof fn lemma_index_in_range(w: usize, h: usize, r: usize, c: usize)
    requires
        r < h,
        c < w,
    ensures
        0 <= index_of(w, (r, c)) < w * h,
{
    assert(r * w + c < w * h) by (nonlinear_arith)
        requires
            r < h,
            c < w,
    ;
}

/// Distinct on-board positions have distinct row-major indices.
pub proof fn lemma_index_injective(w: usize, p: (usize, usize), q: (usize, usize))
    requires
        p.1 < w,
        q.1 < w,
        p != q,
    ensures
        index_of(w, p) != index_of(w, q),
{
    if p.0 == q.0 {
    } else if p.0 < q.0 {
        assert(p.0 * w + w <= q.0 * w) by (nonlinear_arith)
            requires
                p.0 < q.0,
        ;
    } else {
        assert(q.0 * w + w <= p.0 * w) by (nonlinear_arith)
            requires
                q.0 < p.0,
        ;
    }
}

/// No position of a list without mines holds one.
pub proof fn lemma_no_mines_in(mines: Seq<bool>, w: usize, s: Seq<(usize, usize)>)
    requires
        mines_in(mines, w, s) == 0,
    ensures
        forall|k: int| 0 <= k < s.len() ==> !mines[index_of(w, #[trigger] s[k])],
    decreases s.len(),
{
    if s.len() > 0 {
        lemma_no_mines_in(mines, w, s.drop_last());
        assert forall|k: int| 0 <= k < s.len() implies !mines[index_of(w, #[trigger] s[k])] by {
            if k < s.len() - 1 {
                assert(s[k] == s.drop_last()[k]);
            }
        }
    }
}

/// Appends the position offset by `(dr - 1, dc - 1)` from `(row, col)` if it lies on the board.
fn push_if_on_board(
    v: &mut Vec<(usize, usize)>,
    width: usize,
    height: usize,
    row: usize,
    col: usize,
    dr: usize,
    dc: usize,
)
    requires
        row < height,
        col < width,
        dr <= 2,
        dc <= 2,
    ensures
        final(v)@ == old(v)@ + on_board(width, height, row + dr - 1, col + dc - 1),
{
    let row_ok = if dr == 0 {
        row > 0
    } else if dr == 1 {
        true
    } else {
        row + 1 < height
    };
    let col_ok = if dc == 0 {
        col > 0
    } else if dc == 1 {
        true
    } else {
        col + 1 < width
    };
    if row_ok && col_ok {
        let r: usize = if dr == 0 {
            row - 1
        } else if dr == 1 {
            row
        } else {
            row + 1
        };
        let c: usize = if dc == 0 {
            col - 1
        } else if dc == 1 {
            col
        } else {
            col + 1
        };
        v.push((r, c));
    }
    assert(final(v)@ =~= old(v)@ + on_board(width, height, row + dr - 1, col + dc - 1));
}

/// The on-board neighbours of `(row, col)`, in the order of `neighbor_list`.
pub fn adjacent_coords(width: usize, height: usize, row: usize, col: usize) -> (r: Vec<(usize, usize)>)
    requires
        row < height,
        col < width,
    ensures
        r@ == neighbor_list(width, height, row, col),
{
    let mut v: Vec<(usize, usize)> = Vec::new();
    push_if_on_board(&mut v, width, height, row, col, 0, 0);
    push_if_on_board(&mut v, width, height, row, col, 0, 1);
    push_if_on_board(&mut v, width, height, row, col, 0, 2);
    push_if_on_board(&mut v, width, height, row, col, 1, 0);
    push_if_on_board(&mut v, width, height, row, col, 1, 2);
    push_if_on_board(&mut v, width, height, row, col, 2, 0);
    push_if_on_board(&mut v, width, height, row, col, 2, 1);
    push_if_on_board(&mut v, width, height, row, col, 2, 2);
    assert(v@ =~= neighbor_list(width, height, row, col));
    v
}

} // verus!
