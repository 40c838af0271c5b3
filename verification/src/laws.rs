//! Properties that hold across the game's operations.

use vstd::prelude::*;
use crate::board::{
    blank_row, blank_rows, cell_free, cleared, fits, full_count, kept_rows, landing_y, lemma_kept_full_len,
    merged, placement_computable, row_full, BOARD_H, BOARD_W,
};
use crate::game::{
    dropped, frame, gravity, hard_dropped, input, keyed, lock_spawned, locked, moved, released, rotated,
    spawned, turned, wf, GameView, Key,
};
use crate::piece::{at_row, cell_at, covers, shape, shifted, visible_cells, visible_prefix, Active, Kind};

verus! {

/// A move that succeeded is undone by the opposite move: `try_move(-dx, -dy)`
/// may be called right after (its `requires` holds), succeeds, and brings
/// back the piece and the whole state. The `requires` on the first move is
/// `try_move`'s own: its coordinates do not overflow.
pub proof fn law_move_undone_by_opposite(v: GameView, dx: int, dy: int)
    requires
        wf(v),
        v.active matches Some(p) ==> i32::MIN <= p.x + dx <= i32::MAX && i32::MIN <= p.y + dy <= i32::MAX,
        moved(v, dx, dy).1,
    ensures
        moved(v, dx, dy).0.active == Some(
            Active { kind: v.active->0.kind, rot: v.active->0.rot, x: (v.active->0.x + dx) as i32, y: (v.active->0.y
                + dy) as i32 },
        ),
        moved(v, dx, dy).0.board == v.board && moved(v, dx, dy).0.score == v.score,
        wf(moved(v, dx, dy).0),
        moved(v, dx, dy).0.active matches Some(q) && i32::MIN <= q.x - dx <= i32::MAX && i32::MIN <= q.y - dy
            <= i32::MAX && placement_computable(v.board, shifted(q, -dx, -dy)),
        moved(moved(v, dx, dy).0, -dx, -dy) == (v, true),
{
    let p = v.active->0;
    assert(shifted(shifted(p, dx, dy), -dx, -dy) == p);
    crate::board::lemma_fits_bounds(v.board, p);
}

/// A piece fits exactly when each of its four cells is inside the well
/// (columns `0..10`, rows `0..30`) and that cell holds no block.
pub proof fn law_fits_iff_cells_free(g: Seq<Seq<Option<Kind>>>, p: Active)
    ensures
        fits(g, p) <==> (forall|i: int|
            0 <= i < 4 ==> 0 <= #[trigger] cell_at(p, i).0 < BOARD_W && 0 <= cell_at(p, i).1 < BOARD_H
                && g[cell_at(p, i).1][cell_at(p, i).0] is None),
{
    if fits(g, p) {
        assert forall|i: int| 0 <= i < 4 implies 0 <= #[trigger] cell_at(p, i).0 < BOARD_W && 0 <= cell_at(p, i).1
            < BOARD_H && g[cell_at(p, i).1][cell_at(p, i).0] is None by {
            assert(cell_free(g, p, i));
        }
    }
    if forall|i: int|
        0 <= i < 4 ==> 0 <= #[trigger] cell_at(p, i).0 < BOARD_W && 0 <= cell_at(p, i).1 < BOARD_H && g[cell_at(
            p,
            i,
        ).1][cell_at(p, i).0] is None {
        assert(cell_at(p, 0).0 >= 0);
        assert(cell_at(p, 1).0 >= 0);
        assert(cell_at(p, 2).0 >= 0);
        assert(cell_at(p, 3).0 >= 0);
    }
}

/// A row of the well counts as full exactly when every one of its ten cells
/// holds a block.
pub proof fn law_full_row_has_every_cell(r: Seq<Option<Kind>>)
    requires
        r.len() == BOARD_W,
    ensures
        row_full(r) <==> (forall|x: int| 0 <= x < BOARD_W ==> (#[trigger] r[x]) is Some),
{
}

/// A rotation turns the piece a quarter in place if it fits there;
/// otherwise it takes the first of the column kicks -1, +1, -2, +2 at which
/// the turned piece fits, and fails, leaving everything as it was, only
/// when none of them fits.
pub proof fn law_rotation_takes_first_fitting_kick(v: GameView)
    ensures
        v.active is None ==> rotated(v) == (v, false),
        v.active matches Some(p) ==> {
            let b = v.board;
            let r = rotated(v);
            &&& r.1 == (fits(b, turned(p, 0)) || fits(b, turned(p, -1)) || fits(b, turned(p, 1)) || fits(
                b,
                turned(p, -2),
            ) || fits(b, turned(p, 2)))
            &&& !r.1 ==> r.0 == v
            &&& r.0.board == v.board && r.0.score == v.score && r.0.next == v.next
            &&& fits(b, turned(p, 0)) ==> r.0.active == Some(turned(p, 0))
            &&& !fits(b, turned(p, 0)) && fits(b, turned(p, -1)) ==> r.0.active == Some(turned(p, -1))
            &&& !fits(b, turned(p, 0)) && !fits(b, turned(p, -1)) && fits(b, turned(p, 1)) ==> r.0.active == Some(
                turned(p, 1),
            )
            &&& !fits(b, turned(p, 0)) && !fits(b, turned(p, -1)) && !fits(b, turned(p, 1)) && fits(
                b,
                turned(p, -2),
            ) ==> r.0.active == Some(turned(p, -2))
            &&& !fits(b, turned(p, 0)) && !fits(b, turned(p, -1)) && !fits(b, turned(p, 1)) && !fits(
                b,
                turned(p, -2),
            ) && fits(b, turned(p, 2)) ==> r.0.active == Some(turned(p, 2))
        },
{
}

/// Locking scores exactly 100 for each row it clears, that is for each row
/// of the well with the piece added in which all ten cells hold a block;
/// spawning afterwards adds nothing.
pub proof fn law_lock_scores_per_cleared_row(v: GameView, f: Kind)
    ensures
        v.active matches Some(p) ==> locked(v).score == v.score + 100 * full_count(merged(v.board, p)),
        v.active matches Some(p) ==> lock_spawned(v, f).score == v.score + 100 * full_count(merged(v.board, p)),
        v.active is None ==> lock_spawned(v, f).score == v.score,
{
}

/// Locking a piece fills with its kind exactly the cells of the well that
/// one of its four cells lies on, and leaves every other cell as it was.
pub proof fn law_merge_fills_exactly_piece_cells(g: Seq<Seq<Option<Kind>>>, p: Active)
    requires
        g.len() == BOARD_H,
        forall|y: int| 0 <= y < BOARD_H ==> (#[trigger] g[y]).len() == BOARD_W,
    ensures
        forall|x: int, y: int|
            0 <= x < BOARD_W && 0 <= y < BOARD_H ==> #[trigger] merged(g, p)[y][x] == if exists|i: int|
                0 <= i < 4 && cell_at(p, i) == (x, y) {
                Some(p.kind)
            } else {
                g[y][x]
            },
{
    assert forall|x: int, y: int| 0 <= x < BOARD_W && 0 <= y < BOARD_H implies #[trigger] merged(g, p)[y][x]
        == if exists|i: int| 0 <= i < 4 && cell_at(p, i) == (x, y) {
        Some(p.kind)
    } else {
        g[y][x]
    } by {
        if exists|i: int| 0 <= i < 4 && cell_at(p, i) == (x, y) {
            let i = choose|i: int| 0 <= i < 4 && cell_at(p, i) == (x, y);
            assert(i == 0 || i == 1 || i == 2 || i == 3);
        } else {
            assert(cell_at(p, 0) != (x, y));
            assert(cell_at(p, 1) != (x, y));
            assert(cell_at(p, 2) != (x, y));
            assert(cell_at(p, 3) != (x, y));
        }
    }
}

/// No row of a cleared well is full.
pub proof fn law_cleared_has_no_full_row(g: Seq<Seq<Option<Kind>>>)
    requires
        forall|y: int| 0 <= y < g.len() ==> (#[trigger] g[y]).len() == BOARD_W,
    ensures
        forall|y: int| 0 <= y < cleared(g).len() ==> !row_full(#[trigger] cleared(g)[y]),
{
    lemma_kept_not_full(g);
    assert forall|y: int| 0 <= y < cleared(g).len() implies !row_full(#[trigger] cleared(g)[y]) by {
        if y < full_count(g) {
            assert(cleared(g)[y] == blank_row());
            assert(blank_row()[0] is None);
        } else {
            assert(cleared(g)[y] == kept_rows(g)[y - full_count(g)]);
        }
    }
}

/// Kept rows are not full.
proof fn lemma_kept_not_full(rows: Seq<Seq<Option<Kind>>>)
    ensures
        forall|y: int| 0 <= y < kept_rows(rows).len() ==> !row_full(#[trigger] kept_rows(rows)[y]),
    decreases rows.len(),
{
    if rows.len() > 0 {
        lemma_kept_not_full(rows.drop_first());
        if !row_full(rows[0]) {
            assert forall|y: int| 0 <= y < kept_rows(rows).len() implies !row_full(
                #[trigger] kept_rows(rows)[y],
            ) by {
                if y > 0 {
                    assert(kept_rows(rows)[y] == kept_rows(rows.drop_first())[y - 1]);
                }
            }
        }
    }
}

/// A well with no full row is kept as it is.
pub proof fn lemma_no_full_row_kept(rows: Seq<Seq<Option<Kind>>>)
    requires
        forall|y: int| 0 <= y < rows.len() ==> !row_full(#[trigger] rows[y]),
    ensures
        kept_rows(rows) == rows,
        full_count(rows) == 0,
    decreases rows.len(),
{
    if rows.len() > 0 {
        let rest = rows.drop_first();
        assert forall|y: int| 0 <= y < rest.len() implies !row_full(#[trigger] rest[y]) by {
            assert(rest[y] == rows[y + 1]);
        }
        lemma_no_full_row_kept(rest);
        assert(!row_full(rows[0]));
        assert(kept_rows(rows) =~= rows);
    }
}

/// Clearing twice clears nothing more: a cleared well has no full row to
/// remove and stays as it is.
pub proof fn law_clear_idempotent(g: Seq<Seq<Option<Kind>>>)
    requires
        forall|y: int| 0 <= y < g.len() ==> (#[trigger] g[y]).len() == BOARD_W,
    ensures
        full_count(cleared(g)) == 0,
        cleared(cleared(g)) == cleared(g),
{
    law_cleared_has_no_full_row(g);
    lemma_no_full_row_kept(cleared(g));
    assert(blank_rows(0) + cleared(g) =~= cleared(g));
}

/// Clearing keeps the number of rows: each full row removed is replaced by
/// an empty row on top.
pub proof fn law_clear_keeps_height(g: Seq<Seq<Option<Kind>>>)
    ensures
        cleared(g).len() == g.len(),
        forall|y: int| 0 <= y < full_count(g) ==> #[trigger] cleared(g)[y] == blank_row(),
{
    lemma_kept_full_len(g);
}

/// A piece that fits has all four of its cells inside the well, so none is
/// left out when it is locked or drawn (checking every cell is what keeps a
/// piece from slipping through a side wall).
pub proof fn law_fitting_piece_fully_inside(g: Seq<Seq<Option<Kind>>>, p: Active)
    requires
        fits(g, p),
    ensures
        visible_cells(p).len() == 4,
{
    assert(cell_free(g, p, 0) && cell_free(g, p, 1) && cell_free(g, p, 2) && cell_free(g, p, 3));
    assert(visible_prefix(p, 0).len() == 0);
    assert(visible_prefix(p, 1).len() == 1);
    assert(visible_prefix(p, 2).len() == 2);
    assert(visible_prefix(p, 3).len() == 3);
    assert(visible_prefix(p, 4).len() == 4);
}

/// Locking a fitting piece fills its four cells with its kind, so the same
/// piece no longer fits there.
pub proof fn law_locked_piece_occupies_its_cells(g: Seq<Seq<Option<Kind>>>, p: Active)
    requires
        fits(g, p),
        g.len() == BOARD_H,
        forall|y: int| 0 <= y < BOARD_H ==> (#[trigger] g[y]).len() == BOARD_W,
    ensures
        forall|i: int|
            0 <= i < 4 ==> merged(g, p)[#[trigger] cell_at(p, i).1][cell_at(p, i).0] == Some(p.kind),
        !fits(merged(g, p), p),
{
    assert forall|i: int| 0 <= i < 4 implies merged(g, p)[#[trigger] cell_at(p, i).1][cell_at(p, i).0] == Some(
        p.kind,
    ) by {
        assert(cell_free(g, p, i));
        assert(covers(p, cell_at(p, i).0, cell_at(p, i).1));
    }
    assert(!cell_free(merged(g, p), p, 0));
}

/// The landing row is where a straight drop ends: the piece fits on every
/// row from its own down to the landing row, and not one row further.
pub proof fn law_landing_is_resting_place(g: Seq<Seq<Option<Kind>>>, p: Active)
    requires
        fits(g, p),
    ensures
        p.y <= landing_y(g, p),
        forall|y: int| p.y <= y <= landing_y(g, p) ==> fits(g, #[trigger] at_row(p, y)),
        landing_y(g, p) + 1 < BOARD_H ==> !fits(g, at_row(p, landing_y(g, p) + 1)),
    decreases BOARD_H - p.y,
{
    crate::board::lemma_fits_bounds(g, p);
    if p.y + 1 < BOARD_H && fits(g, shifted(p, 0, 1)) {
        let q = shifted(p, 0, 1);
        law_landing_is_resting_place(g, q);
        assert(at_row(p, p.y as int) == p);
        assert forall|y: int| p.y <= y <= landing_y(g, p) implies fits(g, #[trigger] at_row(p, y)) by {
            if y > p.y {
                assert(at_row(q, y) == at_row(p, y));
            }
        }
        assert(at_row(q, landing_y(g, p) + 1) == at_row(p, landing_y(g, p) + 1));
    } else {
        assert(at_row(p, p.y as int) == p);
        assert(shifted(p, 0, 1) == at_row(p, p.y + 1));
    }
}

/// The score never goes down: not by spawning, moving, rotating, locking,
/// hard-dropping, gravity or a frame's input.
pub proof fn law_score_never_decreases(v: GameView, key: Option<Key>, due: bool, f1: Kind, f2: Kind, dx: int, dy: int)
    ensures
        spawned(v, f1).score == v.score,
        moved(v, dx, dy).0.score == v.score,
        rotated(v).0.score == v.score,
        locked(v).score >= v.score,
        lock_spawned(v, f1).score >= v.score,
        hard_dropped(v, f1).score >= v.score,
        gravity(v, due, f1).0.score >= v.score,
        input(v, key, f1, f2).0.score >= v.score,
{
    lemma_hard_drop_score(v, f1);
    let v1 = if v.active is None {
        spawned(v, f1)
    } else {
        v
    };
    let w = GameView { keys: crate::game::KeyLatch { space: true, ..v1.keys }, ..v1 };
    lemma_hard_drop_score(w, f2);
}

/// A drop never moves a piece up.
proof fn lemma_landing_not_above(g: Seq<Seq<Option<Kind>>>, p: Active)
    ensures
        landing_y(g, p) >= p.y,
    decreases BOARD_H - p.y,
{
    if p.y + 1 < BOARD_H && fits(g, shifted(p, 0, 1)) {
        lemma_landing_not_above(g, shifted(p, 0, 1));
    }
}

/// A hard drop does not lower the score.
proof fn lemma_hard_drop_score(v: GameView, f: Kind)
    ensures
        hard_dropped(v, f).score >= v.score,
{
    if let Some(p) = v.active {
        lemma_landing_not_above(v.board, p);
    }
}

/// A finished game stays as it is: input only answers Escape, and gravity
/// does nothing.
pub proof fn law_game_over_is_final(v: GameView, key: Option<Key>, due: bool, f1: Kind, f2: Kind)
    requires
        v.game_over,
    ensures
        input(v, key, f1, f2).0 == v,
        gravity(v, due, f1) == (v, false),
{
}

/// A held key acts once: pressed again in the next frame without being
/// released, it changes nothing (as long as a piece is falling or the game
/// is over). Releasing every key is what a frame without a key does.
pub proof fn law_held_key_acts_once(v: GameView, key: Key, f1: Kind, f2: Kind, f3: Kind, f4: Kind)
    requires
        ({
            let w = input(v, Some(key), f1, f2).0;
            w.active is Some || w.game_over
        }),
    ensures
        input(input(v, Some(key), f1, f2).0, Some(key), f3, f4).0 == input(v, Some(key), f1, f2).0,
        !v.game_over ==> input(v, None, f1, f2).0.keys == released(),
{
}

/// Every kind's shape repeats every four rotations; the O piece looks the
/// same in every rotation, and S and Z look the same after half a turn.
pub proof fn law_rotation_period(kind: Kind, rot: int)
    requires
        0 <= rot,
    ensures
        shape(kind, rot + 4) == shape(kind, rot),
        shape(Kind::O, rot) == shape(Kind::O, 0),
        shape(Kind::S, rot + 2) == shape(Kind::S, rot),
        shape(Kind::Z, rot + 2) == shape(Kind::Z, rot),
{
    assert((rot + 4) % 4 == rot % 4);
    assert((rot + 2) % 4 == 0 || (rot + 2) % 4 == 2 <==> rot % 4 == 0 || rot % 4 == 2);
}

/// A cell turned a quarter clockwise inside an `n` by `n` box.
pub open spec fn turn_cw(c: (i32, i32), n: int) -> (i32, i32) {
    ((n - 1 - c.1) as i32, c.0)
}

/// The box a kind turns in: four wide for I, three for the others.
pub open spec fn box_size(kind: Kind) -> int {
    if kind == Kind::I {
        4
    } else {
        3
    }
}

/// The cells of a shape turned a quarter clockwise in its box.
pub open spec fn turned_cells(kind: Kind, rot: int) -> Set<(i32, i32)> {
    shape(kind, rot).map_values(|c: (i32, i32)| turn_cw(c, box_size(kind))).to_set()
}

proof fn lemma_four_to_set(s: Seq<(i32, i32)>)
    requires
        s.len() == 4,
    ensures
        s.to_set() == set![s[0], s[1], s[2], s[3]],
{
    assert forall|c: (i32, i32)| s.to_set().contains(c) <==> set![s[0], s[1], s[2], s[3]].contains(c) by {
        if s.contains(c) {
            let i = choose|i: int| 0 <= i < s.len() && s[i] == c;
            assert(i == 0 || i == 1 || i == 2 || i == 3);
        }
        if c == s[0] || c == s[1] || c == s[2] || c == s[3] {
            if c == s[0] {
                assert(s[0] == c);
            } else if c == s[1] {
                assert(s[1] == c);
            } else if c == s[2] {
                assert(s[2] == c);
            } else {
                assert(s[3] == c);
            }
        }
    }
    assert(s.to_set() =~= set![s[0], s[1], s[2], s[3]]);
}

/// Each rotation of I, T, J and L is the previous one turned a quarter
/// clockwise inside its box (4 by 4 for I, 3 by 3 for the others); the
/// first rotation of S and Z is their unrotated shape turned the same way,
/// and their next rotation is the unrotated shape again.
pub proof fn law_rotation_is_quarter_turn(kind: Kind, rot: int)
    requires
        0 <= rot,
    ensures
        (kind == Kind::I || kind == Kind::T || kind == Kind::J || kind == Kind::L) ==> shape(kind, rot + 1).to_set()
            == turned_cells(kind, rot),
        shape(Kind::S, 1).to_set() == turned_cells(Kind::S, 0),
        shape(Kind::Z, 1).to_set() == turned_cells(Kind::Z, 0),
        shape(Kind::S, 2) == shape(Kind::S, 0),
        shape(Kind::Z, 2) == shape(Kind::Z, 0),
{
    assert((rot + 1) % 4 == (rot % 4 + 1) % 4);
    lemma_quarter_turn_case(kind, rot);
    lemma_quarter_turn_case(Kind::S, 0);
    lemma_quarter_turn_case(Kind::Z, 0);
}

proof fn lemma_quarter_turn_case(kind: Kind, rot: int)
    requires
        0 <= rot,
    ensures
        shape(kind, rot + 1).to_set() == turned_cells(kind, rot) <== (kind == Kind::I || kind == Kind::T
            || kind == Kind::J || kind == Kind::L || ((kind == Kind::S || kind == Kind::Z) && rot == 0)),
{
    let a = shape(kind, rot + 1);
    let m = shape(kind, rot).map_values(|c: (i32, i32)| turn_cw(c, box_size(kind)));
    crate::piece::lemma_shape_bounds(kind, rot + 1);
    crate::piece::lemma_shape_bounds(kind, rot);
    assert((rot + 1) % 4 == (rot % 4 + 1) % 4);
    lemma_four_to_set(a);
    lemma_four_to_set(m);
    if kind == Kind::I || kind == Kind::T || kind == Kind::J || kind == Kind::L || ((kind == Kind::S || kind
        == Kind::Z) && rot == 0) {
        assert(set![a[0], a[1], a[2], a[3]] =~= set![m[0], m[1], m[2], m[3]]);
    }
}

/// Four quarter turns that each fit in place bring the piece back to where
/// it started.
pub proof fn law_four_turns_return(v: GameView)
    requires
        wf(v),
        v.active matches Some(p) && {
            &&& fits(v.board, turned(p, 0))
            &&& fits(v.board, turned(turned(p, 0), 0))
            &&& fits(v.board, turned(turned(turned(p, 0), 0), 0))
            &&& fits(v.board, turned(turned(turned(turned(p, 0), 0), 0), 0))
        },
    ensures
        rotated(rotated(rotated(rotated(v).0).0).0).0 == v,
{
    let p = v.active->0;
    assert(turned(turned(turned(turned(p, 0), 0), 0), 0) == p);
}

/// The game ends only by a piece failing to enter, and a finished game has
/// no falling piece: if that held before a frame, it holds after it.
pub proof fn law_finished_game_has_no_piece(v: GameView, key: Option<Key>, due: bool, f1: Kind, f2: Kind)
    requires
        v.game_over ==> v.active is None,
    ensures
        input(v, key, f1, f2).0.game_over ==> input(v, key, f1, f2).0.active is None,
        gravity(v, due, f1).0.game_over ==> gravity(v, due, f1).0.active is None,
{
}

/// A playable state: the well has its size, the falling piece (if any)
/// fits in a quarter-turn rotation, and a finished game has no falling piece.
pub open spec fn playable(v: GameView) -> bool {
    &&& v.board.len() == BOARD_H
    &&& forall|y: int| 0 <= y < BOARD_H ==> (#[trigger] v.board[y]).len() == BOARD_W
    &&& (v.active matches Some(p) ==> p.rot < 4 && fits(v.board, p))
    &&& (v.game_over ==> v.active is None)
}

/// No row of the well is full.
pub open spec fn no_full_row(g: Seq<Seq<Option<Kind>>>) -> bool {
    forall|y: int| 0 <= y < BOARD_H ==> !row_full(#[trigger] g[y])
}

/// A playable state with no full row standing.
pub open spec fn settled(v: GameView) -> bool {
    playable(v) && no_full_row(v.board)
}

/// A piece is in play unless the game is over.
pub open spec fn in_play(v: GameView) -> bool {
    v.game_over || v.active is Some
}

/// A new game is settled.
pub proof fn law_new_game_settled(v: GameView)
    requires
        v.board == crate::board::empty_grid(),
        v.active is None,
        !v.game_over,
    ensures
        settled(v),
{
    assert forall|y: int| 0 <= y < BOARD_H implies !row_full(#[trigger] v.board[y]) by {
        assert(v.board[y][0] is None);
    }
}

proof fn lemma_spawned_playable(v: GameView, f: Kind)
    requires
        playable(v),
        !v.game_over,
    ensures
        playable(spawned(v, f)),
        in_play(spawned(v, f)),
        spawned(v, f).board == v.board,
        spawned(v, f).score == v.score,
{
}

proof fn lemma_lock_spawned_playable(v: GameView, f: Kind)
    requires
        playable(v),
        v.active is Some,
    ensures
        playable(lock_spawned(v, f)),
        in_play(lock_spawned(v, f)),
        no_full_row(lock_spawned(v, f).board),
        lock_spawned(v, f).score >= v.score,
{
    let p = v.active->0;
    let m = merged(v.board, p);
    crate::game::lemma_cleared_shape(m);
    law_cleared_has_no_full_row(m);
    let l = locked(v);
    assert(playable(l));
    lemma_spawned_playable(l, f);
}

proof fn lemma_dropped_playable(v: GameView)
    requires
        playable(v),
        v.active is Some,
    ensures
        playable(dropped(v)),
        dropped(v).active is Some,
        dropped(v).board == v.board,
        dropped(v).game_over == v.game_over,
        dropped(v).score >= v.score,
{
    let p = v.active->0;
    law_landing_is_resting_place(v.board, p);
    assert(fits(v.board, at_row(p, landing_y(v.board, p))));
}

proof fn lemma_rotated_playable(v: GameView)
    requires
        playable(v),
    ensures
        playable(rotated(v).0),
        rotated(v).0.active is Some <==> v.active is Some,
        rotated(v).0.board == v.board,
        rotated(v).0.score == v.score,
        rotated(v).0.game_over == v.game_over,
{
    if let Some(p) = v.active {
        assert((p.rot + 1) % 4 < 4);
    }
}

proof fn lemma_keyed_playable(v: GameView, key: Option<Key>, f: Kind)
    requires
        playable(v),
        in_play(v),
    ensures
        playable(keyed(v, key, f).0),
        in_play(keyed(v, key, f).0),
        keyed(v, key, f).0.score >= v.score,
        keyed(v, key, f).1 != crate::game::Action::HardDrop ==> keyed(v, key, f).0.board == v.board,
        keyed(v, key, f).1 == crate::game::Action::HardDrop ==> no_full_row(keyed(v, key, f).0.board),
{
    let k = v.keys;
    match key {
        Some(Key::Up) => {
            lemma_rotated_playable(crate::game::GameView { keys: crate::game::KeyLatch { up: true, ..k }, ..v });
        },
        Some(Key::Space) => {
            let w = crate::game::GameView { keys: crate::game::KeyLatch { space: true, ..k }, ..v };
            if !k.space && w.active is Some {
                lemma_dropped_playable(w);
                lemma_lock_spawned_playable(dropped(w), f);
            }
        },
        _ => {},
    }
}

proof fn lemma_input_playable(v: GameView, key: Option<Key>, f1: Kind, f2: Kind)
    requires
        playable(v),
    ensures
        playable(input(v, key, f1, f2).0),
        in_play(input(v, key, f1, f2).0),
        input(v, key, f1, f2).0.score >= v.score,
        input(v, key, f1, f2).1 != crate::game::Action::HardDrop ==> input(v, key, f1, f2).0.board == v.board,
        input(v, key, f1, f2).1 == crate::game::Action::HardDrop ==> no_full_row(input(v, key, f1, f2).0.board),
        v.game_over ==> input(v, key, f1, f2).0 == v,
{
    if !v.game_over {
        let v1 = if v.active is None {
            spawned(v, f1)
        } else {
            v
        };
        if v.active is None {
            lemma_spawned_playable(v, f1);
        }
        lemma_keyed_playable(v1, key, f2);
    }
}

proof fn lemma_gravity_playable(v: GameView, due: bool, f: Kind)
    requires
        playable(v),
    ensures
        playable(gravity(v, due, f).0),
        in_play(gravity(v, due, f).0),
        gravity(v, due, f).0.score >= v.score,
        !gravity(v, due, f).1 ==> gravity(v, due, f).0.board == v.board,
        gravity(v, due, f).1 ==> no_full_row(gravity(v, due, f).0.board),
        v.game_over ==> gravity(v, due, f) == (v, false),
{
    if v.game_over || v.active is None {
        if v.active is None && !v.game_over {
            lemma_spawned_playable(v, f);
        }
    } else if due {
        if !moved(v, 0, 1).1 {
            lemma_lock_spawned_playable(v, f);
        }
    }
}

/// Over a whole frame (the key, then gravity), from any playable state: the
/// falling piece never leaves the well or overlaps a block, a finished game
/// has no piece, and after the frame a piece is in play unless the game is
/// over.
pub proof fn law_frame_keeps_piece_in_play(
    v: GameView,
    key: Option<Key>,
    due: bool,
    f1: Kind,
    f2: Kind,
    f3: Kind,
)
    requires
        playable(v),
    ensures
        playable(frame(v, key, due, f1, f2, f3).0),
        in_play(frame(v, key, due, f1, f2, f3).0),
{
    lemma_input_playable(v, key, f1, f2);
    lemma_gravity_playable(input(v, key, f1, f2).0, due, f3);
}

/// Over a whole frame no full row is left standing: a well without one
/// stays without one, as every lock clears the rows it fills.
pub proof fn law_frame_keeps_play_settled(
    v: GameView,
    key: Option<Key>,
    due: bool,
    f1: Kind,
    f2: Kind,
    f3: Kind,
)
    requires
        settled(v),
    ensures
        settled(frame(v, key, due, f1, f2, f3).0),
        in_play(frame(v, key, due, f1, f2, f3).0),
{
    lemma_input_playable(v, key, f1, f2);
    lemma_gravity_playable(input(v, key, f1, f2).0, due, f3);
}

/// Over a whole frame the well changes only by locking a piece (a hard drop,
/// or gravity finding the piece blocked); otherwise it is as before.
pub proof fn law_frame_changes_well_only_by_locking(
    v: GameView,
    key: Option<Key>,
    due: bool,
    f1: Kind,
    f2: Kind,
    f3: Kind,
)
    requires
        playable(v),
        frame(v, key, due, f1, f2, f3).1 != crate::game::Action::HardDrop,
        !frame(v, key, due, f1, f2, f3).2,
    ensures
        frame(v, key, due, f1, f2, f3).0.board == v.board,
{
    lemma_input_playable(v, key, f1, f2);
    lemma_gravity_playable(input(v, key, f1, f2).0, due, f3);
}

/// Over a whole frame the score never falls, and a finished game stays
/// finished with its well and score unchanged.
pub proof fn law_frame_score_and_game_over(
    v: GameView,
    key: Option<Key>,
    due: bool,
    f1: Kind,
    f2: Kind,
    f3: Kind,
)
    requires
        playable(v),
    ensures
        frame(v, key, due, f1, f2, f3).0.score >= v.score,
        v.game_over ==> frame(v, key, due, f1, f2, f3).0 == v,
{
    lemma_input_playable(v, key, f1, f2);
    lemma_gravity_playable(input(v, key, f1, f2).0, due, f3);
}

} // verus!
