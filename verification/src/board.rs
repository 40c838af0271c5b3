//! The well: its size, placement checks, locking a piece and clearing lines.

use vstd::prelude::*;
use crate::piece::{
    cell_at, coords_in_range, covers, lemma_shape_bounds, on_board, shape, shifted, visible_cells,
    visible_prefix, Active, Kind,
};

verus! {

/// Columns in the well.
pub const BOARD_W: usize = 10;

/// Rows in the well.
pub const BOARD_H: usize = 30;

/// One row of the well, left to right; `Some(kind)` is a locked block.
pub type Row = [Option<Kind>; BOARD_W];

/// The well, top row first.
pub type Board = [Row; BOARD_H];

/// The well as rows of cells.
pub open spec fn grid(b: Board) -> Seq<Seq<Option<Kind>>> {
    b@.map_values(|r: Row| r@)
}

/// An empty row.
pub open spec fn blank_row() -> Seq<Option<Kind>> {
    Seq::new(BOARD_W as nat, |x: int| None)
}

/// `n` empty rows.
pub open spec fn blank_rows(n: nat) -> Seq<Seq<Option<Kind>>> {
    Seq::new(n, |y: int| blank_row())
}

/// The grid of an empty well.
pub open spec fn empty_grid() -> Seq<Seq<Option<Kind>>> {
    blank_rows(BOARD_H as nat)
}

/// Whether every cell of the row holds a block.
pub open spec fn row_full(r: Seq<Option<Kind>>) -> bool {
    forall|x: int| 0 <= x < r.len() ==> (#[trigger] r[x]) is Some
}

/// The cell of `g` at column `x`, row `y`.
pub open spec fn cell(g: Seq<Seq<Option<Kind>>>, x: int, y: int) -> Option<Kind> {
    g[y][x]
}

/// The piece's `i`-th cell is inside the well and unoccupied in `g`.
pub open spec fn cell_free(g: Seq<Seq<Option<Kind>>>, p: Active, i: int) -> bool {
    let c = cell_at(p, i);
    on_board(c) && cell(g, c.0, c.1) is None
}

/// The piece may stand here: all four of its cells are inside the well and
/// on empty cells.
pub open spec fn fits(g: Seq<Seq<Option<Kind>>>, p: Active) -> bool {
    &&& cell_free(g, p, 0)
    &&& cell_free(g, p, 1)
    &&& cell_free(g, p, 2)
    &&& cell_free(g, p, 3)
}

/// `g` with the piece's in-well cells filled with its kind.
pub open spec fn merged(g: Seq<Seq<Option<Kind>>>, p: Active) -> Seq<Seq<Option<Kind>>> {
    Seq::new(
        g.len(),
        |y: int|
            Seq::new(
                g[y].len(),
                |x: int|
                    if covers(p, x, y) {
                        Some(p.kind)
                    } else {
                        g[y][x]
                    },
            ),
    )
}

/// The rows of `rows` that are not full, in their order.
pub open spec fn kept_rows(rows: Seq<Seq<Option<Kind>>>) -> Seq<Seq<Option<Kind>>>
    decreases rows.len(),
{
    if rows.len() == 0 {
        seq![]
    } else {
        let rest = kept_rows(rows.drop_first());
        if row_full(rows[0]) {
            rest
        } else {
            seq![rows[0]] + rest
        }
    }
}

/// How many rows of `rows` are full.
pub open spec fn full_count(rows: Seq<Seq<Option<Kind>>>) -> nat
    decreases rows.len(),
{
    if rows.len() == 0 {
        0
    } else {
        (if row_full(rows[0]) {
            1nat
        } else {
            0nat
        }) + full_count(rows.drop_first())
    }
}

/// The well after every full row is removed: the remaining rows keep their
/// order and settle at the bottom, with empty rows on top.
pub open spec fn cleared(g: Seq<Seq<Option<Kind>>>) -> Seq<Seq<Option<Kind>>> {
    blank_rows(full_count(g)) + kept_rows(g)
}

/// The anchor row where the piece comes to rest when it falls straight down
/// from its row.
pub open spec fn landing_y(g: Seq<Seq<Option<Kind>>>, p: Active) -> int
    decreases BOARD_H - p.y,
{
    if p.y + 1 < BOARD_H && fits(g, shifted(p, 0, 1)) {
        landing_y(g, shifted(p, 0, 1))
    } else {
        p.y as int
    }
}

/// Every row counts once, as kept or as full.
pub proof fn lemma_kept_full_len(rows: Seq<Seq<Option<Kind>>>)
    ensures
        kept_rows(rows).len() + full_count(rows) == rows.len(),
    decreases rows.len(),
{
    if rows.len() > 0 {
        lemma_kept_full_len(rows.drop_first());
    }
}

/// A piece that fits has all its cells inside the well, so its anchor is at
/// most three columns and rows outside it.
pub proof fn lemma_fits_bounds(g: Seq<Seq<Option<Kind>>>, p: Active)
    requires
        fits(g, p),
    ensures
        -3 <= p.x < BOARD_W,
        -3 <= p.y < BOARD_H,
        coords_in_range(p),
{
    lemma_shape_bounds(p.kind, p.rot as int);
    assert(cell_free(g, p, 0));
    assert forall|i: int| 0 <= i < 4 implies #[trigger] cell_at(p, i).0 <= i32::MAX && cell_at(p, i).1
        <= i32::MAX by {
        assert(cell_free(g, p, i));
    }
}

/// Whether `c`'s coordinates are `i32` values.
pub open spec fn in_i32(c: (int, int)) -> bool {
    i32::MIN <= c.0 <= i32::MAX && i32::MIN <= c.1 <= i32::MAX
}

/// The placement check can compute every cell it reaches: it looks at the
/// cells in order and stops at the first one that is outside the well or
/// taken, so a cell after that one is never computed.
pub open spec fn placement_computable(g: Seq<Seq<Option<Kind>>>, p: Active) -> bool {
    &&& in_i32(cell_at(p, 0))
    &&& cell_free(g, p, 0) ==> in_i32(cell_at(p, 1))
    &&& cell_free(g, p, 0) && cell_free(g, p, 1) ==> in_i32(cell_at(p, 2))
    &&& cell_free(g, p, 0) && cell_free(g, p, 1) && cell_free(g, p, 2) ==> in_i32(cell_at(p, 3))
}

/// Whether the piece may stand at its position on `board`: every one of its
/// four cells is checked, including cells beyond a wall, so a piece pushed
/// through a side wall is refused.
pub fn valid_placement(board: &Board, piece: &Active) -> (ok: bool)
    requires
        placement_computable(grid(*board), *piece),
    ensures
        ok == fits(grid(*board), *piece),
        ok == (forall|i: int|
            0 <= i < 4 ==> 0 <= #[trigger] cell_at(*piece, i).0 < BOARD_W && 0 <= cell_at(*piece, i).1 < BOARD_H
                && board[cell_at(*piece, i).1][cell_at(*piece, i).0] is None),
{
    proof {
        crate::laws::law_fits_iff_cells_free(grid(*board), *piece);
    }
    let w = BOARD_W as i32;
    let h = BOARD_H as i32;
    let offsets = piece.kind.cells(piece.rot);
    let ghost g = grid(*board);
    let mut i: usize = 0;
    while i < 4
        invariant
            0 <= i <= 4,
            offsets@ == shape(piece.kind, piece.rot as int),
            placement_computable(g, *piece),
            w == BOARD_W,
            h == BOARD_H,
            g == grid(*board),
            forall|j: int| 0 <= j < i ==> cell_free(g, *piece, j),
        decreases 4 - i,
    {
        proof {
            lemma_shape_bounds(piece.kind, piece.rot as int);
        }
        let (dx, dy) = offsets[i];
        assert((dx, dy) == shape(piece.kind, piece.rot as int)[i as int]);
        assert(cell_at(*piece, i as int) == (piece.x + dx, piece.y + dy));
        assert(in_i32(cell_at(*piece, i as int)));
        let x = piece.x + dx;
        let y = piece.y + dy;
        if x < 0 || x >= w || y < 0 || y >= h {
            assert(!cell_free(g, *piece, i as int));
            return false;
        }
        if board[y as usize][x as usize].is_some() {
            assert(!cell_free(g, *piece, i as int));
            return false;
        }
        i = i + 1;
    }
    true
}


/// A cell in the well is among the first `n` visible cells exactly when one
/// of the first `n` cells of the piece lies on it; every visible cell is in
/// the well.
pub proof fn lemma_visible_prefix(p: Active, n: int)
    requires
        0 <= n <= 4,
    ensures
        forall|k: int| 0 <= k < visible_prefix(p, n).len() ==> (#[trigger] visible_prefix(p, n)[k]).0 < BOARD_W
            && visible_prefix(p, n)[k].1 < BOARD_H,
        forall|x: int, y: int|
            on_board((x, y)) ==> (#[trigger] visible_prefix(p, n).contains((x as usize, y as usize)) <==> exists|
                i: int,
            | 0 <= i < n && #[trigger] cell_at(p, i) == (x, y)),
    decreases n,
{
    if n > 0 {
        lemma_visible_prefix(p, n - 1);
        let prev = visible_prefix(p, n - 1);
        let c = cell_at(p, n - 1);
        assert forall|x: int, y: int| on_board((x, y)) implies (#[trigger] visible_prefix(
            p,
            n,
        ).contains((x as usize, y as usize)) <==> exists|i: int|
            0 <= i < n && #[trigger] cell_at(p, i) == (x, y)) by {
            if visible_prefix(p, n).contains((x as usize, y as usize)) {
                let k = choose|k: int|
                    0 <= k < visible_prefix(p, n).len() && visible_prefix(p, n)[k] == (
                        x as usize,
                        y as usize,
                    );
                if k < prev.len() {
                    assert(prev[k] == visible_prefix(p, n)[k]);
                    assert(prev.contains((x as usize, y as usize)));
                    let i = choose|i: int| 0 <= i < n - 1 && #[trigger] cell_at(p, i) == (x, y);
                    assert(0 <= i < n && cell_at(p, i) == (x, y));
                } else {
                    assert(cell_at(p, n - 1) == (x, y));
                }
            }
            if exists|i: int| 0 <= i < n && #[trigger] cell_at(p, i) == (x, y) {
                let i = choose|i: int| 0 <= i < n && #[trigger] cell_at(p, i) == (x, y);
                if i < n - 1 {
                    assert(prev.contains((x as usize, y as usize)));
                    let k = choose|k: int|
                        0 <= k < prev.len() && prev[k] == (x as usize, y as usize);
                    assert(visible_prefix(p, n)[k] == (x as usize, y as usize));
                } else {
                    assert(visible_prefix(p, n).last() == (x as usize, y as usize));
                }
            }
        }
    }
}

/// Locks the piece into the board: each of its cells inside the well
/// becomes a block of its kind; nothing else changes.
pub fn merge(board: &mut Board, piece: &Active)
    requires
        coords_in_range(*piece),
    ensures
        grid(*final(board)) == merged(grid(*old(board)), *piece),
        forall|x: int, y: int|
            0 <= x < BOARD_W && 0 <= y < BOARD_H ==> #[trigger] final(board)[y][x] == if exists|i: int|
                0 <= i < 4 && cell_at(*piece, i) == (x, y) {
                Some(piece.kind)
            } else {
                old(board)[y][x]
            },
{
    proof {
        crate::laws::law_merge_fills_exactly_piece_cells(grid(*board), *piece);
    }
    let cells = piece.occupied();
    proof {
        lemma_visible_prefix(*piece, 4);
    }
    let ghost g0 = grid(*board);
    let mut i: usize = 0;
    while i < cells.len()
        invariant
            0 <= i <= cells.len(),
            cells@ == visible_cells(*piece),
            g0 == grid(*old(board)),
            forall|k: int| 0 <= k < cells@.len() ==> (#[trigger] cells@[k]).0 < BOARD_W && cells@[k].1 < BOARD_H,
            forall|x: int, y: int|
                0 <= x < BOARD_W && 0 <= y < BOARD_H ==> #[trigger] board[y][x] == if cells@.take(
                    i as int,
                ).contains((x as usize, y as usize)) {
                    Some(piece.kind)
                } else {
                    g0[y][x]
                },
        decreases cells.len() - i,
    {
        let (x, y) = cells[i];
        let ghost before = *board;
        if y < BOARD_H && x < BOARD_W {
            board[y][x] = Some(piece.kind);
        }
        assert(board[y as int][x as int] == Some(piece.kind));
        assert forall|xx: int, yy: int|
            0 <= xx < BOARD_W && 0 <= yy < BOARD_H && (xx != x || yy != y) implies #[trigger] board[yy][xx]
            == before[yy][xx] by {
            if yy == y {
                assert(board[yy]@ == before[yy]@.update(x as int, Some(piece.kind)));
            }
        }
        assert forall|xx: int, yy: int|
            0 <= xx < BOARD_W && 0 <= yy < BOARD_H implies #[trigger] board[yy][xx] == if cells@.take(
                i + 1,
            ).contains((xx as usize, yy as usize)) {
                Some(piece.kind)
            } else {
                g0[yy][xx]
            } by {
            let z = (xx as usize, yy as usize);
            let t1 = cells@.take(i + 1);
            let t0 = cells@.take(i as int);
            assert(t1 == t0.push(cells@[i as int]));
            assert(t1.contains(z) <==> (t0.contains(z) || cells@[i as int] == z)) by {
                if t1.contains(z) && !(cells@[i as int] == z) {
                    let k = choose|k: int| 0 <= k < t1.len() && t1[k] == z;
                    assert(t0[k] == z);
                }
                if t0.contains(z) {
                    let k = choose|k: int| 0 <= k < t0.len() && t0[k] == z;
                    assert(t1[k] == z);
                }
                if cells@[i as int] == z {
                    assert(t1[i as int] == z);
                }
            }
            if xx == x && yy == y {
            } else {
                assert(board[yy][xx] == before[yy][xx]);
            }
        }
        i = i + 1;
    }
    assert(cells@.take(cells@.len() as int) == cells@);
    let ghost m = merged(g0, *piece);
    assert forall|y: int| 0 <= y < BOARD_H implies #[trigger] grid(*board)[y] =~= m[y] by {
        assert forall|x: int| 0 <= x < BOARD_W implies grid(*board)[y][x] == m[y][x] by {
            assert(board[y][x] == grid(*board)[y][x]);
            if covers(*piece, x, y) {
                assert(exists|i: int| 0 <= i < 4 && #[trigger] cell_at(*piece, i) == (x, y));
            }
        }
    }
    assert(grid(*board) =~= m);
    assert forall|x: int, y: int| 0 <= x < BOARD_W && 0 <= y < BOARD_H implies #[trigger] board[y][x] == if exists|
        i: int,
    | 0 <= i < 4 && cell_at(*piece, i) == (x, y) {
        Some(piece.kind)
    } else {
        old(board)[y][x]
    } by {
        assert(board[y][x] == grid(*board)[y][x]);
        assert(old(board)[y][x] == g0[y][x]);
    }
}


/// Every row of the board has at least one cell without a block.
pub open spec fn every_row_has_hole(b: Board) -> bool {
    forall|y: int|
        #![trigger b[y]]
        0 <= y < BOARD_H ==> exists|x: int| 0 <= x < BOARD_W && (#[trigger] b[y][x]) is None
}

/// Whether every cell of the row holds a block.
fn row_is_full(row: &Row) -> (full: bool)
    ensures
        full == row_full(row@),
{
    let mut x: usize = 0;
    while x < BOARD_W
        invariant
            0 <= x <= BOARD_W,
            forall|k: int| 0 <= k < x ==> (#[trigger] row@[k]) is Some,
        decreases BOARD_W - x,
    {
        if row[x].is_none() {
            return false;
        }
        x = x + 1;
    }
    true
}

/// One step of the scan in `clear_lines`: the rows still to be scanned,
/// `g[..j]`, sit below `c` cleared rows and above the settled rows.
proof fn lemma_scan_step(g: Seq<Seq<Option<Kind>>>, j: int)
    requires
        0 < j <= g.len(),
    ensures
        g.subrange(j - 1, g.len() as int).drop_first() == g.subrange(j, g.len() as int),
        g.subrange(j - 1, g.len() as int)[0] == g[j - 1],
        kept_rows(g.subrange(j - 1, g.len() as int)) == if row_full(g[j - 1]) {
            kept_rows(g.subrange(j, g.len() as int))
        } else {
            seq![g[j - 1]] + kept_rows(g.subrange(j, g.len() as int))
        },
        full_count(g.subrange(j - 1, g.len() as int)) == full_count(g.subrange(j, g.len() as int)) + if row_full(
            g[j - 1],
        ) {
            1int
        } else {
            0int
        },
{
    assert(g.subrange(j - 1, g.len() as int).drop_first() =~= g.subrange(j, g.len() as int));
}

/// Removes every full row: the rows above each one move down, and empty rows
/// fill in at the top. Returns how many rows were removed.
pub fn clear_lines(board: &mut Board) -> (n: usize)
    ensures
        n == full_count(grid(*old(board))),
        grid(*final(board)) == cleared(grid(*old(board))),
        every_row_has_hole(*old(board)) ==> n == 0 && *final(board) == *old(board),
{
    let ghost g0 = grid(*board);
    let ghost mut j: int = BOARD_H as int;
    let mut n: usize = 0;
    let mut y: usize = BOARD_H;
    assert(g0.subrange(BOARD_H as int, BOARD_H as int) =~= seq![]);
    assert(g0.subrange(0, BOARD_H as int) =~= g0);
    assert(grid(*board) =~= blank_rows(0) + g0.subrange(0, j) + kept_rows(g0.subrange(j, BOARD_H as int)));
    while y > 0
        invariant
            0 <= j <= BOARD_H,
            0 <= y <= BOARD_H,
            g0.len() == BOARD_H,
            forall|k: int| 0 <= k < BOARD_H ==> (#[trigger] g0[k]).len() == BOARD_W,
            n == full_count(g0.subrange(j, BOARD_H as int)),
            grid(*board) == blank_rows(n as nat) + g0.subrange(0, j) + kept_rows(
                g0.subrange(j, BOARD_H as int),
            ),
            j > 0 ==> y == n + j,
            j == 0 ==> y <= n,
        decreases y + j,
    {
        proof {
            lemma_kept_full_len(g0.subrange(j, BOARD_H as int));
        }
        y = y - 1;
        let ghost g = grid(*board);
        proof {
            if j > 0 {
                assert(g[y as int] == g0[j - 1]);
            } else {
                assert(g[y as int] == blank_row());
                assert(!row_full(g[y as int])) by {
                    assert(g[y as int][0] is None);
                }
            }
        }
        if row_is_full(&board[y]) {
            assert(j > 0);
            proof {
                lemma_scan_step(g0, j);
            }
            let ghost before = *board;
            let mut yy: usize = y;
            while yy > 0
                invariant
                    yy <= y < BOARD_H,
                    forall|k: int| 0 <= k <= yy ==> #[trigger] board[k] == before[k],
                    forall|k: int| yy < k <= y ==> #[trigger] board[k] == before[k - 1],
                    forall|k: int| y < k < BOARD_H ==> #[trigger] board[k] == before[k],
                decreases yy,
            {
                board[yy] = board[yy - 1];
                yy = yy - 1;
            }
            board[0] = [None; 10];
            n = n + 1;
            y = y + 1;
            let ghost target = blank_rows(n as nat) + g0.subrange(0, j - 1) + kept_rows(
                g0.subrange(j - 1, BOARD_H as int),
            );
            assert forall|k: int| 0 <= k < BOARD_H implies #[trigger] grid(*board)[k] =~= target[k] by {
                if k == 0 {
                    assert(grid(*board)[k] =~= blank_row());
                } else if k <= y - 1 {
                    assert(board[k] == before[k - 1]);
                    assert(grid(*board)[k] == g[k - 1]);
                } else {
                    assert(board[k] == before[k]);
                    assert(grid(*board)[k] == g[k]);
                }
            }
            assert(grid(*board) =~= target);
            proof {
                j = j - 1;
            }
        } else {
            proof {
                if j > 0 {
                    lemma_scan_step(g0, j);
                    assert(grid(*board) =~= blank_rows(n as nat) + g0.subrange(0, j - 1) + kept_rows(
                        g0.subrange(j - 1, BOARD_H as int),
                    ));
                    j = j - 1;
                }
            }
        }
    }
    assert(g0.subrange(0, 0) =~= seq![]);
    assert(g0.subrange(0, BOARD_H as int) =~= g0);
    assert(grid(*board) =~= cleared(g0));
    proof {
        if every_row_has_hole(*old(board)) {
            assert forall|y: int| 0 <= y < g0.len() implies !row_full(#[trigger] g0[y]) by {
                crate::laws::law_full_row_has_every_cell(g0[y]);
                let x = choose|x: int| 0 <= x < BOARD_W && (#[trigger] old(board)[y][x]) is None;
                assert(g0[y][x] is None);
            }
            crate::laws::lemma_no_full_row_kept(g0);
            assert(cleared(g0) =~= g0);
            assert forall|y: int| 0 <= y < BOARD_H implies #[trigger] board[y] =~= old(board)[y] by {
                assert(board[y]@ == grid(*board)[y]);
                assert(old(board)[y]@ == g0[y]);
            }
            assert(*board =~= *old(board));
        }
    }
    n
}


/// The anchor row where the piece would come to rest if dropped straight
/// down (the "ghost" position drawn under the falling piece).
pub fn landing_row(board: &Board, piece: &Active) -> (y: i32)
    requires
        fits(grid(*board), *piece),
    ensures
        y == landing_y(grid(*board), *piece),
        fits(grid(*board), Active { y, ..*piece }),
        piece.y <= y,
{
    let ghost g = grid(*board);
    let mut gy = piece.y;
    loop
        invariant
            g == grid(*board),
            piece.y <= gy,
            fits(g, Active { y: gy, ..*piece }),
            landing_y(g, Active { y: gy, ..*piece }) == landing_y(g, *piece),
        ensures
            landing_y(g, Active { y: gy, ..*piece }) == gy,
        decreases BOARD_H - gy,
    {
        let ghost cur = Active { y: gy, ..*piece };
        proof {
            lemma_fits_bounds(g, cur);
        }
        let trial = Active { kind: piece.kind, rot: piece.rot, x: piece.x, y: gy + 1 };
        assert(trial == shifted(cur, 0, 1));
        proof {
            lemma_shape_bounds(trial.kind, trial.rot as int);
        }
        if valid_placement(board, &trial) {
            proof {
                lemma_fits_bounds(g, trial);
            }
            gy = gy + 1;
        } else {
            assert(landing_y(g, cur) == gy);
            break;
        }
    }
    gy
}

} // verus!
