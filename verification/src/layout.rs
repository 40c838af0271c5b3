//! Where things go on the terminal: the well's frame, its cells, the side
//! panel and the console size.

use vstd::prelude::*;
use crate::board::{in_i32, BOARD_H, BOARD_W};
use crate::piece::{coords_in_range, shape, visible_cells, Active, Kind};

verus! {

/// Screen columns per well column.
pub const CELL_W: usize = 2;

/// Screen width of the framed well: ten cells of two columns plus the two
/// frame columns.
pub const BOARD_PX_W: i32 = 22;

/// Screen height of the framed well: thirty rows plus the two frame rows.
pub const BOARD_PX_H: i32 = 32;

/// Columns of the side panel, including the gap right of the well.
pub const PANEL_COLS: i32 = 26;

/// Width of the framed well and the panel together.
pub const CLUSTER_W: i32 = BOARD_PX_W + 2 + PANEL_COLS;

/// Height from the top of the frame to the score line.
pub const CLUSTER_H: i32 = BOARD_PX_H + 2;

/// Smallest console width.
pub const MIN_VIEW_W: u32 = 80;

/// Smallest console height.
pub const MIN_VIEW_H: u32 = 48;

/// The screen position of the left half of well cell `(bx, by)` when the
/// frame's top-left corner is at `(origin_x, origin_y)`.
pub open spec fn screen_of(origin_x: int, origin_y: int, c: (int, int)) -> (int, int) {
    (origin_x + 1 + c.0 * CELL_W, origin_y + 1 + c.1)
}

/// The screen position of the left half of well cell `(bx, by)` (each cell
/// is two columns wide, inside the one-column frame).
pub fn cell_screen_pos(origin_x: i32, origin_y: i32, bx: usize, by: usize) -> (pos: (i32, i32))
    requires
        bx < BOARD_W,
        by < BOARD_H,
        origin_x + 1 + bx * CELL_W <= i32::MAX,
        origin_y + 1 + by <= i32::MAX,
    ensures
        (pos.0 as int, pos.1 as int) == screen_of(origin_x as int, origin_y as int, (bx as int, by as int)),
{
    let px = origin_x + 1 + (bx * CELL_W) as i32;
    let py = origin_y + 1 + by as i32;
    (px, py)
}

/// The screen positions of a piece's cells that are inside the well, in
/// shape order (cells beyond a wall are not drawn).
pub open spec fn piece_screen(p: Active, origin_x: int, origin_y: int) -> Seq<(int, int)> {
    visible_cells(p).map_values(|c: (usize, usize)| screen_of(origin_x, origin_y, (c.0 as int, c.1 as int)))
}

/// Where to draw a piece of `kind` in rotation `rot` anchored at
/// `(anchor_x, anchor_y)`: the screen positions of its in-well cells.
pub fn piece_screen_cells(
    kind: Kind,
    rot: usize,
    anchor_x: i32,
    anchor_y: i32,
    origin_x: i32,
    origin_y: i32,
) -> (cells: Vec<(i32, i32)>)
    requires
        coords_in_range(Active { kind, rot, x: anchor_x, y: anchor_y }),
        forall|k: int|
            0 <= k < visible_cells(Active { kind, rot, x: anchor_x, y: anchor_y }).len() ==> in_i32(
                #[trigger] piece_screen(Active { kind, rot, x: anchor_x, y: anchor_y }, origin_x as int, origin_y as int)[k],
            ),
    ensures
        cells@.len() == piece_screen(Active { kind, rot, x: anchor_x, y: anchor_y }, origin_x as int, origin_y as int).len(),
        forall|k: int| 0 <= k < cells@.len() ==> (cells@[k].0 as int, cells@[k].1 as int) == #[trigger] piece_screen(
            Active { kind, rot, x: anchor_x, y: anchor_y },
            origin_x as int,
            origin_y as int,
        )[k],
{
    let piece = Active { kind, rot, x: anchor_x, y: anchor_y };
    let inside = piece.occupied();
    proof {
        crate::board::lemma_visible_prefix(piece, 4);
    }
    let ghost want = piece_screen(piece, origin_x as int, origin_y as int);
    let mut out: Vec<(i32, i32)> = Vec::new();
    let mut i: usize = 0;
    while i < inside.len()
        invariant
            0 <= i <= inside.len(),
            inside@ == visible_cells(piece),
            want == piece_screen(piece, origin_x as int, origin_y as int),
            want.len() == inside@.len(),
            forall|k: int| 0 <= k < inside@.len() ==> (#[trigger] inside@[k]).0 < BOARD_W && inside@[k].1 < BOARD_H,
            forall|k: int| 0 <= k < inside@.len() ==> in_i32(#[trigger] want[k]),
            out@.len() == i,
            forall|k: int| 0 <= k < i ==> (out@[k].0 as int, out@[k].1 as int) == #[trigger] want[k],
        decreases inside.len() - i,
    {
        let (bx, by) = inside[i];
        assert(in_i32(want[i as int]));
        let pos = cell_screen_pos(origin_x, origin_y, bx, by);
        out.push(pos);
        i = i + 1;
    }
    out
}

/// Where the preview of the announced kind goes: its unrotated cells, two
/// columns per cell, from `(base_x, base_y)`.
pub open spec fn preview_screen(kind: Kind, base_x: int, base_y: int) -> Seq<(int, int)> {
    shape(kind, 0).map_values(|o: (i32, i32)| (base_x + o.0 * 2, base_y + o.1))
}

/// The screen positions of the preview of `kind` drawn from `(base_x, base_y)`.
pub fn preview_screen_cells(kind: Kind, base_x: i32, base_y: i32) -> (cells: Vec<(i32, i32)>)
    requires
        forall|k: int| 0 <= k < 4 ==> in_i32(#[trigger] preview_screen(kind, base_x as int, base_y as int)[k]),
    ensures
        cells@.len() == 4,
        forall|k: int| 0 <= k < 4 ==> (cells@[k].0 as int, cells@[k].1 as int) == #[trigger] preview_screen(
            kind,
            base_x as int,
            base_y as int,
        )[k],
{
    let offsets = kind.cells(0);
    let ghost want = preview_screen(kind, base_x as int, base_y as int);
    let mut out: Vec<(i32, i32)> = Vec::new();
    let mut i: usize = 0;
    while i < 4
        invariant
            0 <= i <= 4,
            offsets@ == shape(kind, 0),
            want == preview_screen(kind, base_x as int, base_y as int),
            forall|k: int| 0 <= k < 4 ==> in_i32(#[trigger] want[k]),
            out@.len() == i,
            forall|k: int| 0 <= k < i ==> (out@[k].0 as int, out@[k].1 as int) == #[trigger] want[k],
        decreases 4 - i,
    {
        proof {
            crate::piece::lemma_shape_bounds(kind, 0);
        }
        let (dx, dy) = offsets[i];
        assert((dx, dy) == shape(kind, 0)[i as int]);
        assert(in_i32(want[i as int]));
        out.push((base_x + dx * 2, base_y + dy));
        i = i + 1;
    }
    proof {
        crate::piece::lemma_shape_bounds(kind, 0);
    }
    out
}

/// The console width and height, and the frame's top-left corner. The
/// console is at least 80 by 48 and leaves 8 columns and 6 rows beside the
/// 50 by 34 block of well and panel, which is centred in it: 80 by 48, with
/// the frame at column 15, row 7.
pub fn console_layout() -> (layout: (u32, u32, i32, i32))
    ensures
        layout == (80u32, 48u32, 15i32, 7i32),
        layout.0 >= MIN_VIEW_W && layout.0 >= CLUSTER_W + 8,
        layout.1 >= MIN_VIEW_H && layout.1 >= CLUSTER_H + 6,
        layout.2 == (layout.0 - CLUSTER_W) / 2,
        layout.3 == (layout.1 - CLUSTER_H) / 2,
{
    let cluster_w: u32 = if CLUSTER_W < 1 {
        1
    } else {
        CLUSTER_W as u32
    };
    let cluster_h: u32 = if CLUSTER_H < 1 {
        1
    } else {
        CLUSTER_H as u32
    };
    let w = if MIN_VIEW_W >= cluster_w + 8 {
        MIN_VIEW_W
    } else {
        cluster_w + 8
    };
    let h = if MIN_VIEW_H >= cluster_h + 6 {
        MIN_VIEW_H
    } else {
        cluster_h + 6
    };
    let ox = (w as i32 - CLUSTER_W) / 2;
    let oy = (h as i32 - CLUSTER_H) / 2;
    let ox = if ox < 0 {
        0
    } else {
        ox
    };
    let oy = if oy < 0 {
        0
    } else {
        oy
    };
    (w, h, ox, oy)
}


/// Screen rows and columns of the texts around the well.
#[derive(Clone, Copy, PartialEq, Eq, Debug, Structural)]
pub struct Hud {
    /// Column where the side panel starts.
    pub panel_x: i32,
    /// Row of the "next piece" caption (the frame's top row).
    pub next_label_y: i32,
    /// Top row of the next-piece preview.
    pub preview_y: i32,
    /// Row of the controls caption; the five help lines follow below it.
    pub help_y: i32,
    /// Row of the score line, below the frame (starting at the frame's column).
    pub score_y: i32,
    /// Row of the centred game-over message.
    pub game_over_y: i32,
}

/// Where the texts around a well framed from `(origin_x, origin_y)` go.
pub fn hud_layout(origin_x: i32, origin_y: i32) -> (hud: Hud)
    requires
        origin_x + BOARD_PX_W + 2 <= i32::MAX,
        origin_y + BOARD_PX_H + 1 <= i32::MAX,
    ensures
        hud.panel_x == origin_x + BOARD_PX_W + 2,
        hud.next_label_y == origin_y,
        hud.preview_y == origin_y + 2,
        hud.help_y == origin_y + BOARD_PX_H - 7,
        hud.score_y == origin_y + BOARD_PX_H + 1,
        hud.game_over_y == origin_y + BOARD_PX_H / 2,
{
    Hud {
        panel_x: origin_x + BOARD_PX_W + 2,
        next_label_y: origin_y,
        preview_y: origin_y + 2,
        help_y: origin_y + BOARD_PX_H - 7,
        score_y: origin_y + BOARD_PX_H + 1,
        game_over_y: origin_y + BOARD_PX_H / 2,
    }
}

} // verus!
