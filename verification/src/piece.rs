//! The seven tetromino kinds, their four rotations, and the falling piece.

use vstd::prelude::*;
use crate::board::{BOARD_H, BOARD_W};
use crate::rng::roll_dice;

verus! {

/// One of the seven tetromino shapes.
#[derive(Clone, Copy, PartialEq, Eq, Debug, Structural)]
pub enum Kind {
    I,
    O,
    T,
    S,
    Z,
    J,
    L,
}

/// The four `(dx, dy)` board offsets a kind covers in rotation `rot`,
/// measured from the piece's top-left anchor; only `rot % 4` matters.
pub open spec fn shape(kind: Kind, rot: int) -> Seq<(i32, i32)> {
    let r = rot % 4;
    match kind {
        Kind::I => if r == 0 {
            seq![(0i32, 1i32), (1, 1), (2, 1), (3, 1)]
        } else if r == 1 {
            seq![(2i32, 0i32), (2, 1), (2, 2), (2, 3)]
        } else if r == 2 {
            seq![(0i32, 2i32), (1, 2), (2, 2), (3, 2)]
        } else {
            seq![(1i32, 0i32), (1, 1), (1, 2), (1, 3)]
        },
        Kind::O => seq![(0i32, 0i32), (1, 0), (0, 1), (1, 1)],
        Kind::T => if r == 0 {
            seq![(1i32, 0i32), (0, 1), (1, 1), (2, 1)]
        } else if r == 1 {
            seq![(1i32, 0i32), (1, 1), (2, 1), (1, 2)]
        } else if r == 2 {
            seq![(0i32, 1i32), (1, 1), (2, 1), (1, 2)]
        } else {
            seq![(1i32, 0i32), (0, 1), (1, 1), (1, 2)]
        },
        Kind::S => if r == 0 || r == 2 {
            seq![(1i32, 0i32), (2, 0), (0, 1), (1, 1)]
        } else {
            seq![(1i32, 0i32), (1, 1), (2, 1), (2, 2)]
        },
        Kind::Z => if r == 0 || r == 2 {
            seq![(0i32, 0i32), (1, 0), (1, 1), (2, 1)]
        } else {
            seq![(2i32, 0i32), (1, 1), (2, 1), (1, 2)]
        },
        Kind::J => if r == 0 {
            seq![(0i32, 0i32), (0, 1), (1, 1), (2, 1)]
        } else if r == 1 {
            seq![(1i32, 0i32), (2, 0), (1, 1), (1, 2)]
        } else if r == 2 {
            seq![(0i32, 1i32), (1, 1), (2, 1), (2, 2)]
        } else {
            seq![(1i32, 0i32), (1, 1), (0, 2), (1, 2)]
        },
        Kind::L => if r == 0 {
            seq![(2i32, 0i32), (0, 1), (1, 1), (2, 1)]
        } else if r == 1 {
            seq![(1i32, 0i32), (1, 1), (1, 2), (2, 2)]
        } else if r == 2 {
            seq![(0i32, 1i32), (1, 1), (2, 1), (0, 2)]
        } else {
            seq![(0i32, 0i32), (1, 0), (1, 1), (1, 2)]
        },
    }
}

/// The display colour of each kind, as red, green and blue.
pub open spec fn kind_color(kind: Kind) -> (u8, u8, u8) {
    match kind {
        Kind::I => (80, 220, 250),
        Kind::O => (240, 220, 60),
        Kind::T => (180, 80, 200),
        Kind::S => (80, 200, 100),
        Kind::Z => (220, 80, 80),
        Kind::J => (80, 100, 220),
        Kind::L => (220, 140, 60),
    }
}

/// The kind a die roll names: 1 to 6 pick I, O, T, S, Z, J in that order;
/// any other value picks L.
pub open spec fn kind_of_roll(roll: int) -> Kind {
    if roll == 1 {
        Kind::I
    } else if roll == 2 {
        Kind::O
    } else if roll == 3 {
        Kind::T
    } else if roll == 4 {
        Kind::S
    } else if roll == 5 {
        Kind::Z
    } else if roll == 6 {
        Kind::J
    } else {
        Kind::L
    }
}

impl Kind {
    /// Draws a kind with a seven-sided die from `rng`.
    pub fn random(rng: &mut rltk::RandomNumberGenerator) -> (kind: Kind)
        ensures
            exists|roll: int| 1 <= roll <= 7 && kind == kind_of_roll(roll),
    {
        let roll = roll_dice(rng, 1, 7);
        Kind::from_roll(roll)
    }

    /// The kind that a roll of the seven-sided die selects.
    pub fn from_roll(roll: i32) -> (kind: Kind)
        ensures
            kind == kind_of_roll(roll as int),
    {
        match roll {
            1 => Kind::I,
            2 => Kind::O,
            3 => Kind::T,
            4 => Kind::S,
            5 => Kind::Z,
            6 => Kind::J,
            _ => Kind::L,
        }
    }

    /// The colour the kind is drawn in.
    pub fn color(self) -> (rgb: (u8, u8, u8))
        ensures
            rgb == kind_color(self),
    {
        match self {
            Kind::I => (80, 220, 250),
            Kind::O => (240, 220, 60),
            Kind::T => (180, 80, 200),
            Kind::S => (80, 200, 100),
            Kind::Z => (220, 80, 80),
            Kind::J => (80, 100, 220),
            Kind::L => (220, 140, 60),
        }
    }

    /// The four `(dx, dy)` offsets of this kind in rotation `rot` (taken
    /// modulo 4).
    pub fn cells(self, rot: usize) -> (offsets: [(i32, i32); 4])
        ensures
            offsets@ == shape(self, rot as int),
    {
        let r = rot % 4;
        let offsets: [(i32, i32); 4] = match self {
            Kind::I => if r == 0 {
                [(0, 1), (1, 1), (2, 1), (3, 1)]
            } else if r == 1 {
                [(2, 0), (2, 1), (2, 2), (2, 3)]
            } else if r == 2 {
                [(0, 2), (1, 2), (2, 2), (3, 2)]
            } else {
                [(1, 0), (1, 1), (1, 2), (1, 3)]
            },
            Kind::O => [(0, 0), (1, 0), (0, 1), (1, 1)],
            Kind::T => if r == 0 {
                [(1, 0), (0, 1), (1, 1), (2, 1)]
            } else if r == 1 {
                [(1, 0), (1, 1), (2, 1), (1, 2)]
            } else if r == 2 {
                [(0, 1), (1, 1), (2, 1), (1, 2)]
            } else {
                [(1, 0), (0, 1), (1, 1), (1, 2)]
            },
            Kind::S => if r == 0 || r == 2 {
                [(1, 0), (2, 0), (0, 1), (1, 1)]
            } else {
                [(1, 0), (1, 1), (2, 1), (2, 2)]
            },
            Kind::Z => if r == 0 || r == 2 {
                [(0, 0), (1, 0), (1, 1), (2, 1)]
            } else {
                [(2, 0), (1, 1), (2, 1), (1, 2)]
            },
            Kind::J => if r == 0 {
                [(0, 0), (0, 1), (1, 1), (2, 1)]
            } else if r == 1 {
                [(1, 0), (2, 0), (1, 1), (1, 2)]
            } else if r == 2 {
                [(0, 1), (1, 1), (2, 1), (2, 2)]
            } else {
                [(1, 0), (1, 1), (0, 2), (1, 2)]
            },
            Kind::L => if r == 0 {
                [(2, 0), (0, 1), (1, 1), (2, 1)]
            } else if r == 1 {
                [(1, 0), (1, 1), (1, 2), (2, 2)]
            } else if r == 2 {
                [(0, 1), (1, 1), (2, 1), (0, 2)]
            } else {
                [(0, 0), (1, 0), (1, 1), (1, 2)]
            },
        };
        assert(offsets@ =~= shape(self, rot as int));
        offsets
    }
}

} // verus!

verus! {

/// The falling piece: its kind, rotation, and the board position of its
/// top-left anchor.
#[derive(Clone, Copy, PartialEq, Eq, Debug, Structural)]
pub struct Active {
    pub kind: Kind,
    pub rot: usize,
    /// Anchor column; may be negative while the shape's cells are inside.
    pub x: i32,
    /// Anchor row.
    pub y: i32,
}

/// The board coordinates `(column, row)` of the piece's `i`-th cell.
pub open spec fn cell_at(p: Active, i: int) -> (int, int) {
    let off = shape(p.kind, p.rot as int)[i];
    (p.x + off.0, p.y + off.1)
}

/// Whether `(column, row)` lies inside the well.
pub open spec fn on_board(c: (int, int)) -> bool {
    0 <= c.0 < BOARD_W && 0 <= c.1 < BOARD_H
}

/// Whether the piece has a cell at `(x, y)`.
pub open spec fn covers(p: Active, x: int, y: int) -> bool {
    ||| cell_at(p, 0) == (x, y)
    ||| cell_at(p, 1) == (x, y)
    ||| cell_at(p, 2) == (x, y)
    ||| cell_at(p, 3) == (x, y)
}

/// Every cell coordinate of the piece can be computed in `i32`.
pub open spec fn coords_in_range(p: Active) -> bool {
    forall|i: int| 0 <= i < 4 ==> #[trigger] cell_at(p, i).0 <= i32::MAX && cell_at(p, i).1 <= i32::MAX
}

/// The piece moved by `(dx, dy)`.
pub open spec fn shifted(p: Active, dx: int, dy: int) -> Active {
    Active { kind: p.kind, rot: p.rot, x: (p.x + dx) as i32, y: (p.y + dy) as i32 }
}

/// The piece with its anchor moved to row `y`.
pub open spec fn at_row(p: Active, y: int) -> Active {
    Active { y: y as i32, ..p }
}

/// The in-board cells among the first `n` cells of the piece, in order, as
/// `(column, row)`.
pub open spec fn visible_prefix(p: Active, n: int) -> Seq<(usize, usize)>
    decreases n,
{
    if n <= 0 {
        seq![]
    } else {
        let prev = visible_prefix(p, n - 1);
        let c = cell_at(p, n - 1);
        if on_board(c) {
            prev.push((c.0 as usize, c.1 as usize))
        } else {
            prev
        }
    }
}

/// The piece's cells that lie inside the well, in shape order.
pub open spec fn visible_cells(p: Active) -> Seq<(usize, usize)> {
    visible_prefix(p, 4)
}

/// Every shape has four cells, each offset within `0..=3` on both axes.
pub proof fn lemma_shape_bounds(kind: Kind, rot: int)
    ensures
        shape(kind, rot).len() == 4,
        forall|i: int| 0 <= i < 4 ==> 0 <= #[trigger] shape(kind, rot)[i].0 <= 3 && 0 <= shape(kind, rot)[i].1 <= 3,
{
}

impl Active {
    /// The cells of the piece that are inside the well (for locking and
    /// drawing); cells beyond a wall are left out.
    pub fn occupied(&self) -> (cells: Vec<(usize, usize)>)
        requires
            coords_in_range(*self),
        ensures
            cells@ == visible_cells(*self),
    {
        let w = BOARD_W as i32;
        let h = BOARD_H as i32;
        let offsets = self.kind.cells(self.rot);
        let mut out: Vec<(usize, usize)> = Vec::new();
        let mut i: usize = 0;
        while i < 4
            invariant
                0 <= i <= 4,
                offsets@ == shape(self.kind, self.rot as int),
                coords_in_range(*self),
                w == BOARD_W,
                h == BOARD_H,
                out@ == visible_prefix(*self, i as int),
            decreases 4 - i,
        {
            proof {
                lemma_shape_bounds(self.kind, self.rot as int);
            }
            let (dx, dy) = offsets[i];
            assert((dx, dy) == shape(self.kind, self.rot as int)[i as int]);
            assert(cell_at(*self, i as int) == (self.x + dx, self.y + dy));
            assert(cell_at(*self, i as int).0 <= i32::MAX);
            let x = self.x + dx;
            let y = self.y + dy;
            if x >= 0 && x < w && y >= 0 && y < h {
                out.push((x as usize, y as usize));
            }
            i = i + 1;
        }
        out
    }
}

} // verus!
