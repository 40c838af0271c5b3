//! The game: its state, the moves a player can make, gravity, locking and
//! spawning, and how one frame's key press is handled.

use vstd::prelude::*;
use crate::board::{
    blank_row, clear_lines, cleared, empty_grid, fits, full_count, grid, kept_rows, landing_row, landing_y,
    lemma_fits_bounds, lemma_kept_full_len, merge, merged, placement_computable, row_full, valid_placement,
    Board, BOARD_H, BOARD_W,
};
use crate::piece::{coords_in_range, lemma_shape_bounds, shifted, Active, Kind};
use crate::rng::new_generator;

verus! {

/// Which arrow keys and the space bar have already acted since they were
/// last released; a held key acts once.
#[derive(Clone, Copy, PartialEq, Eq, Debug, Structural)]
pub struct KeyLatch {
    pub left: bool,
    pub right: bool,
    pub down: bool,
    pub up: bool,
    pub space: bool,
}

/// All keys released.
pub open spec fn released() -> KeyLatch {
    KeyLatch { left: false, right: false, down: false, up: false, space: false }
}

/// A key the game reacts to, as the front end reports it for one frame.
#[derive(Clone, Copy, PartialEq, Eq, Debug, Structural)]
pub enum Key {
    Left,
    Right,
    Down,
    Up,
    Space,
    Escape,
    /// Any other key: it changes nothing, but does not count as a release.
    Other,
}

/// What the front end has to do after a frame's input.
#[derive(Clone, Copy, PartialEq, Eq, Debug, Structural)]
pub enum Action {
    /// Nothing beyond drawing the frame.
    Continue,
    /// The player asked to quit.
    Quit,
    /// A hard drop locked the piece: restart the fall timer and recompute the
    /// fall interval from the new score.
    HardDrop,
}

/// The game's state as mathematical values.
pub struct GameView {
    pub origin_x: i32,
    pub origin_y: i32,
    pub board: Seq<Seq<Option<Kind>>>,
    pub active: Option<Active>,
    pub next: Kind,
    pub score: int,
    pub game_over: bool,
    pub keys: KeyLatch,
}

/// One game of falling blocks.
pub struct Game {
    /// Screen column of the well's left frame.
    pub origin_x: i32,
    /// Screen row of the well's top frame.
    pub origin_y: i32,
    pub board: Board,
    /// The falling piece, if one is in play.
    pub active: Option<Active>,
    /// The kind that will be spawned next (shown in the preview).
    pub next: Kind,
    /// The generator that picks each announced kind.
    pub rng: rltk::RandomNumberGenerator,
    pub score: u32,
    pub game_over: bool,
    pub keys: KeyLatch,
}

impl View for Game {
    type V = GameView;

    open spec fn view(&self) -> GameView {
        GameView {
            origin_x: self.origin_x,
            origin_y: self.origin_y,
            board: grid(self.board),
            active: self.active,
            next: self.next,
            score: self.score as int,
            game_over: self.game_over,
            keys: self.keys,
        }
    }
}

/// The state invariant: the well has its size, a falling piece is in a
/// quarter-turn rotation and fits where it stands, and the score is a `u32`.
pub open spec fn wf(v: GameView) -> bool {
    &&& v.board.len() == BOARD_H
    &&& forall|y: int| 0 <= y < BOARD_H ==> (#[trigger] v.board[y]).len() == BOARD_W
    &&& (v.active matches Some(p) ==> p.rot < 4 && fits(v.board, p))
    &&& 0 <= v.score <= u32::MAX
}

/// A new piece of `kind`: unrotated, anchored at column 3 of the top row.
pub open spec fn spawn_piece(kind: Kind) -> Active {
    Active { kind, rot: 0, x: 3, y: 0 }
}

/// Spawning: the announced kind enters at the top and `fresh` is announced
/// next; if the new piece does not fit, the game is over instead.
pub open spec fn spawned(v: GameView, fresh: Kind) -> GameView {
    let p = spawn_piece(v.next);
    if fits(v.board, p) {
        GameView { active: Some(p), next: fresh, ..v }
    } else {
        GameView { active: None, next: fresh, game_over: true, ..v }
    }
}

/// Moving the falling piece by `(dx, dy)`: done, and reported, only if the
/// piece fits at the new place.
pub open spec fn moved(v: GameView, dx: int, dy: int) -> (GameView, bool) {
    match v.active {
        None => (v, false),
        Some(p) => {
            let np = shifted(p, dx, dy);
            if fits(v.board, np) {
                (GameView { active: Some(np), ..v }, true)
            } else {
                (v, false)
            }
        },
    }
}

/// The piece turned a quarter clockwise and shifted `kick` columns.
pub open spec fn turned(p: Active, kick: int) -> Active {
    Active { kind: p.kind, rot: ((p.rot + 1) % 4) as usize, x: (p.x + kick) as i32, y: p.y }
}

/// Where a rotation puts the piece: turned in place if it fits there,
/// otherwise the first of the kicks -1, +1, -2, +2 columns that fits; none if
/// no kick fits.
pub open spec fn rotation_target(g: Seq<Seq<Option<Kind>>>, p: Active) -> Option<Active> {
    if fits(g, turned(p, 0)) {
        Some(turned(p, 0))
    } else if fits(g, turned(p, -1)) {
        Some(turned(p, -1))
    } else if fits(g, turned(p, 1)) {
        Some(turned(p, 1))
    } else if fits(g, turned(p, -2)) {
        Some(turned(p, -2))
    } else if fits(g, turned(p, 2)) {
        Some(turned(p, 2))
    } else {
        None
    }
}

/// Rotating the falling piece, with wall kicks.
pub open spec fn rotated(v: GameView) -> (GameView, bool) {
    match v.active {
        None => (v, false),
        Some(p) => match rotation_target(v.board, p) {
            Some(q) => (GameView { active: Some(q), ..v }, true),
            None => (v, false),
        },
    }
}

/// Locking the falling piece: it becomes part of the well, full rows are
/// cleared, and each cleared row scores 100.
pub open spec fn locked(v: GameView) -> GameView {
    match v.active {
        None => v,
        Some(p) => {
            let m = merged(v.board, p);
            GameView { board: cleared(m), active: None, score: v.score + 100 * full_count(m), ..v }
        },
    }
}

/// Locking, then spawning the next piece unless the game is over.
pub open spec fn lock_spawned(v: GameView, fresh: Kind) -> GameView {
    let l = locked(v);
    if l.game_over {
        l
    } else {
        spawned(l, fresh)
    }
}

/// The falling piece moved straight down to where it lands, scoring 2 per
/// row fallen.
pub open spec fn dropped(v: GameView) -> GameView {
    match v.active {
        None => v,
        Some(p) => {
            let ly = landing_y(v.board, p);
            GameView { active: Some(Active { y: ly as i32, ..p }), score: v.score + 2 * (ly - p.y), ..v }
        },
    }
}

/// A hard drop: fall to the landing row, then lock and spawn.
pub open spec fn hard_dropped(v: GameView, fresh: Kind) -> GameView {
    lock_spawned(dropped(v), fresh)
}

/// One gravity check: with no falling piece (and the game still on) a piece
/// spawns; otherwise, when the fall timer is `due`, the piece moves down a
/// row, or locks if it cannot. The flag tells whether a piece locked.
pub open spec fn gravity(v: GameView, due: bool, fresh: Kind) -> (GameView, bool) {
    if v.game_over || v.active is None {
        if v.active is None && !v.game_over {
            (spawned(v, fresh), false)
        } else {
            (v, false)
        }
    } else if !due {
        (v, false)
    } else {
        let m = moved(v, 0, 1);
        if m.1 {
            (m.0, false)
        } else {
            (lock_spawned(v, fresh), true)
        }
    }
}

/// One frame's key, acting on a game that is on: an arrow key or the space
/// bar acts once until it is released: left and right shift the piece, down
/// moves it a row (scoring 1 when it moves), up rotates it, and space
/// hard-drops it (announcing `fresh`). No key at all releases every key;
/// Escape quits.
pub open spec fn keyed(v: GameView, key: Option<Key>, fresh: Kind) -> (GameView, Action) {
    let k = v.keys;
    match key {
        None => (GameView { keys: released(), ..v }, Action::Continue),
        Some(Key::Left) => if k.left {
            (v, Action::Continue)
        } else {
            (moved(GameView { keys: KeyLatch { left: true, ..k }, ..v }, -1, 0).0, Action::Continue)
        },
        Some(Key::Right) => if k.right {
            (v, Action::Continue)
        } else {
            (moved(GameView { keys: KeyLatch { right: true, ..k }, ..v }, 1, 0).0, Action::Continue)
        },
        Some(Key::Down) => if k.down {
            (v, Action::Continue)
        } else {
            let m = moved(GameView { keys: KeyLatch { down: true, ..k }, ..v }, 0, 1);
            (if m.1 {
                GameView { score: m.0.score + 1, ..m.0 }
            } else {
                m.0
            }, Action::Continue)
        },
        Some(Key::Up) => if k.up {
            (v, Action::Continue)
        } else {
            (rotated(GameView { keys: KeyLatch { up: true, ..k }, ..v }).0, Action::Continue)
        },
        Some(Key::Space) => if k.space {
            (v, Action::Continue)
        } else {
            let w = GameView { keys: KeyLatch { space: true, ..k }, ..v };
            if w.active is Some {
                (hard_dropped(w, fresh), Action::HardDrop)
            } else {
                (w, Action::Continue)
            }
        },
        Some(Key::Escape) => (v, Action::Quit),
        Some(Key::Other) => (v, Action::Continue),
    }
}

/// One frame's input. A finished game only listens for Escape. Otherwise a
/// piece is spawned first if none is falling (announcing `fresh_spawn`),
/// then the key acts as `keyed` says (a hard drop announcing `fresh_drop`).
pub open spec fn input(v: GameView, key: Option<Key>, fresh_spawn: Kind, fresh_drop: Kind) -> (
    GameView,
    Action,
) {
    if v.game_over {
        (v, if key == Some(Key::Escape) {
            Action::Quit
        } else {
            Action::Continue
        })
    } else {
        let v1 = if v.active is None {
            spawned(v, fresh_spawn)
        } else {
            v
        };
        keyed(v1, key, fresh_drop)
    }
}

/// One frame as the front end runs it: the frame's key, then a gravity
/// check that is `due` when the fall timer ran out. Gives the new state, the
/// input's action, and whether gravity locked a piece.
pub open spec fn frame(
    v: GameView,
    key: Option<Key>,
    due: bool,
    fresh_spawn: Kind,
    fresh_drop: Kind,
    fresh_fall: Kind,
) -> (GameView, Action, bool) {
    let a = input(v, key, fresh_spawn, fresh_drop);
    let g = gravity(a.0, due, fresh_fall);
    (g.0, a.1, g.1)
}

/// Clearing keeps the well's shape.
pub proof fn lemma_cleared_shape(g: Seq<Seq<Option<Kind>>>)
    requires
        g.len() == BOARD_H,
        forall|y: int| 0 <= y < BOARD_H ==> (#[trigger] g[y]).len() == BOARD_W,
    ensures
        cleared(g).len() == BOARD_H,
        forall|y: int| 0 <= y < BOARD_H ==> (#[trigger] cleared(g)[y]).len() == BOARD_W,
        full_count(g) <= BOARD_H,
{
    lemma_kept_full_len(g);
    lemma_kept_rows_width(g);
    assert forall|y: int| 0 <= y < BOARD_H implies (#[trigger] cleared(g)[y]).len() == BOARD_W by {
        if y >= full_count(g) {
            assert(cleared(g)[y] == kept_rows(g)[y - full_count(g)]);
        }
    }
}

/// Kept rows are rows of the well, so they have its width.
pub proof fn lemma_kept_rows_width(rows: Seq<Seq<Option<Kind>>>)
    requires
        forall|y: int| 0 <= y < rows.len() ==> (#[trigger] rows[y]).len() == BOARD_W,
    ensures
        forall|y: int| 0 <= y < kept_rows(rows).len() ==> (#[trigger] kept_rows(rows)[y]).len() == BOARD_W,
    decreases rows.len(),
{
    if rows.len() > 0 {
        let rest = rows.drop_first();
        assert forall|y: int| 0 <= y < rest.len() implies (#[trigger] rest[y]).len() == BOARD_W by {
            assert(rest[y] == rows[y + 1]);
        }
        lemma_kept_rows_width(rest);
        if !row_full(rows[0]) {
            assert forall|y: int| 0 <= y < kept_rows(rows).len() implies (#[trigger] kept_rows(
                rows,
            )[y]).len() == BOARD_W by {
                if y > 0 {
                    assert(kept_rows(rows)[y] == kept_rows(rest)[y - 1]);
                }
            }
        }
    }
}

impl Game {
    /// The state invariant of this game.
    pub open spec fn wf(&self) -> bool {
        wf(self@)
    }

    /// A fresh game whose well's frame has its top-left corner at
    /// `(origin_x, origin_y)`: empty well, no falling piece, score 0, keys
    /// released, and a random kind announced.
    pub fn new(origin_x: i32, origin_y: i32) -> (game: Game)
        ensures
            game.wf(),
            game@.origin_x == origin_x,
            game@.origin_y == origin_y,
            game@.board == empty_grid(),
            game@.active is None,
            game@.score == 0,
            !game@.game_over,
            game@.keys == released(),
    {
        let mut rng = new_generator();
        let next = Kind::random(&mut rng);
        let game = Game {
            origin_x,
            origin_y,
            board: [[None; 10]; 30],
            active: None,
            next,
            rng,
            score: 0,
            game_over: false,
            keys: KeyLatch { left: false, right: false, down: false, up: false, space: false },
        };
        assert forall|y: int| 0 <= y < BOARD_H implies #[trigger] grid(game.board)[y] =~= blank_row() by {
            assert(game.board[y]@.len() == BOARD_W);
        }
        assert(grid(game.board) =~= empty_grid());
        game
    }

    /// The screen column where the side panel starts, two columns right of
    /// the well's frame.
    pub fn panel_x(&self) -> (px: i32)
        requires
            self.origin_x + crate::layout::BOARD_PX_W + 2 <= i32::MAX,
        ensures
            px == self.origin_x + crate::layout::BOARD_PX_W + 2,
    {
        self.origin_x + crate::layout::BOARD_PX_W + 2
    }

    /// Spawns the announced kind at the top and announces `fresh`; ends the
    /// game if the new piece does not fit.
    pub fn spawn_with(&mut self, fresh: Kind)
        requires
            old(self).wf(),
        ensures
            final(self).wf(),
            final(self)@ == spawned(old(self)@, fresh),
    {
        let kind = self.next;
        self.next = fresh;
        let piece = Active { kind, rot: 0, x: 3, y: 0 };
        proof {
            lemma_shape_bounds(kind, 0);
        }
        if !valid_placement(&self.board, &piece) {
            self.game_over = true;
            self.active = None;
            return;
        }
        self.active = Some(piece);
    }

    /// Spawns the announced kind at the top and announces a random kind;
    /// ends the game if the new piece does not fit.
    pub fn spawn(&mut self)
        requires
            old(self).wf(),
        ensures
            final(self).wf(),
            final(self)@ == spawned(old(self)@, final(self)@.next),
    {
        let fresh = Kind::random(&mut self.rng);
        self.spawn_with(fresh);
    }

    /// Moves the falling piece by `(dx, dy)` if it fits there; returns
    /// whether it moved. Without a falling piece nothing happens.
    pub fn try_move(&mut self, dx: i32, dy: i32) -> (ok: bool)
        requires
            old(self).wf(),
            old(self).active matches Some(p) ==> i32::MIN <= p.x + dx <= i32::MAX && i32::MIN <= p.y + dy
                <= i32::MAX && placement_computable(old(self)@.board, shifted(p, dx as int, dy as int)),
        ensures
            final(self).wf(),
            (final(self)@, ok) == moved(old(self)@, dx as int, dy as int),
            !ok ==> final(self)@ == old(self)@,
    {
        match self.active {
            None => false,
            Some(p) => {
                let np = Active { kind: p.kind, rot: p.rot, x: p.x + dx, y: p.y + dy };
                assert(np == shifted(p, dx as int, dy as int));
                if valid_placement(&self.board, &np) {
                    self.active = Some(np);
                    true
                } else {
                    false
                }
            },
        }
    }

    /// Turns the falling piece a quarter clockwise, in place or with the
    /// first wall kick (-1, +1, -2, +2 columns) that fits; returns whether it
    /// turned. Without a falling piece nothing happens.
    pub fn try_rotate(&mut self) -> (ok: bool)
        requires
            old(self).wf(),
        ensures
            final(self).wf(),
            (final(self)@, ok) == rotated(old(self)@),
            !ok ==> final(self)@ == old(self)@,
            old(self)@.active is None ==> !ok,
            old(self)@.active matches Some(p) ==> {
                let b = old(self)@.board;
                &&& ok == (fits(b, turned(p, 0)) || fits(b, turned(p, -1)) || fits(b, turned(p, 1)) || fits(
                    b,
                    turned(p, -2),
                ) || fits(b, turned(p, 2)))
                &&& fits(b, turned(p, 0)) ==> final(self)@.active == Some(turned(p, 0))
                &&& !fits(b, turned(p, 0)) && fits(b, turned(p, -1)) ==> final(self)@.active == Some(turned(p, -1))
                &&& !fits(b, turned(p, 0)) && !fits(b, turned(p, -1)) && fits(b, turned(p, 1))
                    ==> final(self)@.active == Some(turned(p, 1))
                &&& !fits(b, turned(p, 0)) && !fits(b, turned(p, -1)) && !fits(b, turned(p, 1)) && fits(
                    b,
                    turned(p, -2),
                ) ==> final(self)@.active == Some(turned(p, -2))
                &&& !fits(b, turned(p, 0)) && !fits(b, turned(p, -1)) && !fits(b, turned(p, 1)) && !fits(
                    b,
                    turned(p, -2),
                ) && fits(b, turned(p, 2)) ==> final(self)@.active == Some(turned(p, 2))
            },
    {
        proof {
            crate::laws::law_rotation_takes_first_fitting_kick(self@);
        }
        let p = match self.active {
            None => {
                return false;
            },
            Some(p) => p,
        };
        proof {
            lemma_fits_bounds(self@.board, p);
            lemma_shape_bounds(p.kind, ((p.rot + 1) % 4) as int);
        }
        let new_rot = (p.rot + 1) % 4;
        let np = Active { kind: p.kind, rot: new_rot, x: p.x, y: p.y };
        assert(np == turned(p, 0));
        if valid_placement(&self.board, &np) {
            self.active = Some(np);
            return true;
        }
        let kicks: [i32; 4] = [-1, 1, -2, 2];
        let ghost ks = seq![-1int, 1, -2, 2];
        assert(kicks@ =~= seq![-1i32, 1i32, -2i32, 2i32]);
        let mut i: usize = 0;
        while i < 4
            invariant
                0 <= i <= 4,
                kicks@ == seq![-1i32, 1i32, -2i32, 2i32],
                ks == seq![-1int, 1, -2, 2],
                self@ == old(self)@,
                self.wf(),
                self.active == Some(p),
                new_rot == (p.rot + 1) % 4,
                -3 <= p.x < BOARD_W,
                -3 <= p.y < BOARD_H,
                !fits(self@.board, turned(p, 0)),
                forall|j: int| 0 <= j < i ==> !fits(self@.board, #[trigger] turned(p, ks[j])),
            decreases 4 - i,
        {
            proof {
                lemma_shape_bounds(p.kind, ((p.rot + 1) % 4) as int);
            }
            let np = Active { kind: p.kind, rot: new_rot, x: p.x + kicks[i], y: p.y };
            assert(np == turned(p, ks[i as int]));
            if valid_placement(&self.board, &np) {
                self.active = Some(np);
                return true;
            }
            i = i + 1;
        }
        assert(!fits(self@.board, turned(p, ks[0])));
        assert(!fits(self@.board, turned(p, ks[1])));
        assert(!fits(self@.board, turned(p, ks[2])));
        assert(!fits(self@.board, turned(p, ks[3])));
        false
    }

    /// Locks the falling piece into the well, clears full rows (100 points
    /// each), then spawns the next piece unless the game is over. Returns
    /// whether a piece was locked.
    pub fn lock_and_spawn(&mut self) -> (was_locked: bool)
        requires
            old(self).wf(),
            locked(old(self)@).score <= u32::MAX,
        ensures
            final(self).wf(),
            was_locked == old(self)@.active is Some,
            final(self)@ == lock_spawned(old(self)@, final(self)@.next),
            old(self)@.active matches Some(p) ==> final(self)@.score == old(self)@.score + 100 * full_count(
                merged(old(self)@.board, p),
            ),
            old(self)@.active is None ==> final(self)@.score == old(self)@.score,
    {
        proof {
            crate::laws::law_lock_scores_per_cleared_row(self@, self@.next);
        }
        let mut was_locked = false;
        let ghost v0 = self@;
        if let Some(p) = self.active.take() {
            proof {
                lemma_fits_bounds(v0.board, p);
            }
            merge(&mut self.board, &p);
            proof {
                lemma_cleared_shape(grid(self.board));
            }
            let n = clear_lines(&mut self.board);
            self.score = self.score + (n as u32) * 100;
            was_locked = true;
            assert(self@ == locked(v0));
        } else {
            assert(self@ == locked(v0));
        }
        if !self.game_over {
            self.spawn();
        }
        was_locked
    }

    /// Drops the falling piece straight to its landing row (2 points per row
    /// fallen), then locks it and spawns the next piece.
    pub fn hard_drop(&mut self)
        requires
            old(self).wf(),
            locked(dropped(old(self)@)).score <= u32::MAX,
        ensures
            final(self).wf(),
            final(self)@ == hard_dropped(old(self)@, final(self)@.next),
    {
        let ghost v0 = self@;
        let mut fallen: u32 = 0;
        loop
            invariant
                self.wf(),
                v0 == old(self)@,
                wf(v0),
                fallen <= 33,
                locked(dropped(v0)).score <= u32::MAX,
                v0.active is None ==> self@ == v0 && fallen == 0,
                v0.active matches Some(p) ==> {
                    let cur = Active { y: (p.y + fallen) as i32, ..p };
                    &&& p.y + fallen <= i32::MAX
                    &&& self@ == GameView { active: Some(cur), ..v0 }
                    &&& landing_y(v0.board, cur) == landing_y(v0.board, p)
                },
            ensures
                v0.active matches Some(p) ==> landing_y(v0.board, p) == p.y + fallen,
            decreases 33 - fallen,
        {
            proof {
                if let Some(p) = v0.active {
                    let cur = Active { y: (p.y + fallen) as i32, ..p };
                    lemma_fits_bounds(v0.board, p);
                    lemma_fits_bounds(v0.board, cur);
                    lemma_shape_bounds(p.kind, p.rot as int);
                }
            }
            let ghost before = self@;
            if !self.try_move(0, 1) {
                proof {
                    if let Some(p) = v0.active {
                        let cur = Active { y: (p.y + fallen) as i32, ..p };
                        assert(shifted(cur, 0, 1) == Active { y: (cur.y + 1) as i32, ..cur });
                        assert(landing_y(v0.board, cur) == cur.y);
                    }
                }
                break;
            }
            proof {
                if let Some(p) = v0.active {
                    let cur = Active { y: (p.y + fallen) as i32, ..p };
                    let nxt = Active { y: (p.y + fallen + 1) as i32, ..p };
                    assert(shifted(cur, 0, 1) == nxt);
                    lemma_fits_bounds(v0.board, nxt);
                    assert(landing_y(v0.board, cur) == landing_y(v0.board, nxt));
                }
            }
            fallen = fallen + 1;
        }
        let bonus = match fallen.checked_mul(2) {
            Some(b) => b,
            None => u32::MAX,
        };
        self.score = self.score + bonus;
        assert(self@ == dropped(v0));
        self.lock_and_spawn();
    }

    /// One gravity check. With no falling piece (and the game still on) the
    /// next piece spawns; otherwise, when `due` (the fall timer ran out), the
    /// piece moves down a row, or locks if it cannot, and the next piece
    /// spawns. Returns whether a piece locked.
    pub fn tick_gravity(&mut self, due: bool) -> (was_locked: bool)
        requires
            old(self).wf(),
            (!old(self)@.game_over && old(self)@.active is Some && due && !moved(old(self)@, 0, 1).1)
                ==> locked(old(self)@).score <= u32::MAX,
        ensures
            final(self).wf(),
            (final(self)@, was_locked) == gravity(old(self)@, due, final(self)@.next),
    {
        if self.game_over || self.active.is_none() {
            if self.active.is_none() && !self.game_over {
                self.spawn();
            }
            return false;
        }
        if due {
            let p = self.active.unwrap();
            proof {
                lemma_fits_bounds(self@.board, p);
                lemma_shape_bounds(p.kind, p.rot as int);
            }
            if !self.try_move(0, 1) {
                self.lock_and_spawn();
                return true;
            }
        }
        false
    }

    /// Handles one frame's key (or its absence). A finished game only
    /// answers Escape with `Quit`. Otherwise the next piece spawns first if
    /// none is falling; then arrow keys and space act once per press (left,
    /// right: shift; down: fall a row, 1 point if it moved; up: rotate;
    /// space: hard drop, answered with `HardDrop`), no key releases them all,
    /// and Escape answers `Quit`.
    pub fn handle_input(&mut self, key: Option<Key>) -> (action: Action)
        requires
            old(self).wf(),
            forall|f1: Kind, f2: Kind| #[trigger] input(old(self)@, key, f1, f2).0.score <= u32::MAX,
        ensures
            final(self).wf(),
            exists|f1: Kind| (final(self)@, action) == #[trigger] input(old(self)@, key, f1, final(self)@.next),
    {
        let ghost v0 = self@;
        if self.game_over {
            let action = match key {
                Some(Key::Escape) => Action::Quit,
                _ => Action::Continue,
            };
            assert((self@, action) == input(v0, key, v0.next, self@.next));
            return action;
        }
        if self.active.is_none() {
            self.spawn();
        }
        let ghost f1 = self.next;
        let ghost v1 = self@;
        assert(v1 == if v0.active is None { spawned(v0, f1) } else { v0 });
        assert forall|f2: Kind| #[trigger] keyed(v1, key, f2).0.score <= u32::MAX by {
            assert(input(v0, key, f1, f2) == keyed(v1, key, f2));
        }
        let action = self.apply_key(key);
        assert((self@, action) == input(v0, key, f1, self@.next));
        action
    }

    /// Applies one frame's key to a game that is on.
    #[verifier::rlimit(50)]
    fn apply_key(&mut self, key: Option<Key>) -> (action: Action)
        requires
            old(self).wf(),
            forall|f2: Kind| #[trigger] keyed(old(self)@, key, f2).0.score <= u32::MAX,
        ensures
            final(self).wf(),
            (final(self)@, action) == keyed(old(self)@, key, final(self)@.next),
    {
        let ghost v1 = self@;
        match key {
            None => {
                self.keys = KeyLatch { left: false, right: false, down: false, up: false, space: false };
                Action::Continue
            },
            Some(Key::Left) => {
                if !self.keys.left {
                    self.keys.left = true;
                    self.move_by_one(-1, 0);
                }
                Action::Continue
            },
            Some(Key::Right) => {
                if !self.keys.right {
                    self.keys.right = true;
                    self.move_by_one(1, 0);
                }
                Action::Continue
            },
            Some(Key::Down) => {
                if !self.keys.down {
                    self.keys.down = true;
                    let ghost w = self@;
                    if self.move_by_one(0, 1) {
                        assert(keyed(v1, key, Kind::I).0.score == moved(w, 0, 1).0.score + 1);
                        self.score = self.score + 1;
                    }
                }
                Action::Continue
            },
            Some(Key::Up) => {
                if !self.keys.up {
                    self.keys.up = true;
                    self.try_rotate();
                }
                Action::Continue
            },
            Some(Key::Space) => {
                if !self.keys.space {
                    self.keys.space = true;
                    if self.active.is_some() {
                        let ghost w = self@;
                        assert(keyed(v1, key, Kind::I).0 == hard_dropped(w, Kind::I));
                        assert(hard_dropped(w, Kind::I).score == locked(dropped(w)).score);
                        self.hard_drop();
                        return Action::HardDrop;
                    }
                }
                Action::Continue
            },
            Some(Key::Escape) => Action::Quit,
            Some(Key::Other) => Action::Continue,
        }
    }

    /// The score that this frame's key would leave, whichever kinds are
    /// drawn (so that a caller can refuse a key whose points would overflow
    /// the `u32` score).
    #[verifier::rlimit(30)]
    pub fn score_after_input(&self, key: Option<Key>) -> (s: u64)
        requires
            self.wf(),
        ensures
            forall|f1: Kind, f2: Kind| s == #[trigger] input(self@, key, f1, f2).0.score,
    {
        let score = self.score as u64;
        if self.game_over {
            return score;
        }
        let cur: Option<Active> = match self.active {
            Some(p) => Some(p),
            None => {
                let p = Active { kind: self.next, rot: 0, x: 3, y: 0 };
                proof {
                    lemma_shape_bounds(p.kind, 0);
                }
                if valid_placement(&self.board, &p) {
                    Some(p)
                } else {
                    None
                }
            },
        };
        assert(forall|f1: Kind| #[trigger] spawned(self@, f1).active == cur || self@.active is Some);
        match key {
            Some(Key::Down) => {
                if self.keys.down {
                    return score;
                }
                match cur {
                    Some(p) => {
                        proof {
                            lemma_fits_bounds(self@.board, p);
                            lemma_shape_bounds(p.kind, p.rot as int);
                        }
                        let np = Active { kind: p.kind, rot: p.rot, x: p.x, y: p.y + 1 };
                        assert(np == shifted(p, 0, 1));
                        if valid_placement(&self.board, &np) {
                            score + 1
                        } else {
                            score
                        }
                    },
                    None => score,
                }
            },
            Some(Key::Space) => {
                if self.keys.space {
                    return score;
                }
                match cur {
                    Some(p) => {
                        let ly = landing_row(&self.board, &p);
                        let landed = Active { kind: p.kind, rot: p.rot, x: p.x, y: ly };
                        proof {
                            lemma_fits_bounds(self@.board, p);
                            lemma_fits_bounds(self@.board, landed);
                            lemma_kept_full_len(merged(self@.board, landed));
                        }
                        let n = lines_if_locked(&self.board, &landed);
                        score + 2 * ((ly - p.y) as u64) + 100 * (n as u64)
                    },
                    None => score,
                }
            },
            _ => score,
        }
    }

    /// The score that a gravity check would leave, whichever kind is drawn.
    pub fn score_after_gravity(&self, due: bool) -> (s: u64)
        requires
            self.wf(),
        ensures
            forall|f: Kind| s == #[trigger] gravity(self@, due, f).0.score,
    {
        let score = self.score as u64;
        if self.game_over || !due {
            return score;
        }
        match self.active {
            None => score,
            Some(p) => {
                proof {
                    lemma_fits_bounds(self@.board, p);
                    lemma_shape_bounds(p.kind, p.rot as int);
                    lemma_kept_full_len(merged(self@.board, p));
                }
                let np = Active { kind: p.kind, rot: p.rot, x: p.x, y: p.y + 1 };
                assert(np == shifted(p, 0, 1));
                if valid_placement(&self.board, &np) {
                    score
                } else {
                    let n = lines_if_locked(&self.board, &p);
                    score + 100 * (n as u64)
                }
            },
        }
    }

    /// Moves the falling piece one column or row, as the arrow keys do.
    fn move_by_one(&mut self, dx: i32, dy: i32) -> (ok: bool)
        requires
            old(self).wf(),
            -1 <= dx <= 1,
            0 <= dy <= 1,
        ensures
            final(self).wf(),
            (final(self)@, ok) == moved(old(self)@, dx as int, dy as int),
    {
        if let Some(p) = self.active {
            proof {
                lemma_fits_bounds(self@.board, p);
                lemma_shape_bounds(p.kind, p.rot as int);
            }
        }
        self.try_move(dx, dy)
    }
}

/// How many rows locking `piece` into `board` would clear; `board` itself
/// is left as it is.
fn lines_if_locked(board: &Board, piece: &Active) -> (n: usize)
    requires
        coords_in_range(*piece),
    ensures
        n == full_count(merged(grid(*board), *piece)),
{
    let mut scratch: Board = *board;
    merge(&mut scratch, piece);
    clear_lines(&mut scratch)
}

} // verus!
