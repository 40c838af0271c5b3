use tui_tetris::layout::{
    cell_screen_pos, console_layout, hud_layout, piece_screen_cells, preview_screen_cells, BOARD_PX_H,
    BOARD_PX_W, CLUSTER_H, CLUSTER_W,
};
use tui_tetris::piece::Kind;

#[test]
fn console_is_eighty_by_forty_eight_centred() {
    assert_eq!(CLUSTER_W, 50);
    assert_eq!(CLUSTER_H, 34);
    assert_eq!(console_layout(), (80, 48, 15, 7));
}

#[test]
fn cells_are_two_columns_wide_inside_the_frame() {
    assert_eq!(cell_screen_pos(15, 7, 0, 0), (16, 8));
    assert_eq!(cell_screen_pos(15, 7, 9, 29), (34, 37));
    assert_eq!(BOARD_PX_W, 22);
    assert_eq!(BOARD_PX_H, 32);
}

#[test]
fn piece_cells_outside_the_well_are_not_drawn() {
    assert_eq!(piece_screen_cells(Kind::I, 0, -1, 0, 15, 7), vec![(16, 9), (18, 9), (20, 9)]);
    assert_eq!(
        piece_screen_cells(Kind::O, 0, 4, 5, 0, 0),
        vec![(9, 6), (11, 6), (9, 7), (11, 7)]
    );
}

#[test]
fn preview_uses_unrotated_shape() {
    assert_eq!(preview_screen_cells(Kind::T, 39, 9), vec![(41, 9), (39, 10), (41, 10), (43, 10)]);
}

#[test]
fn hud_positions() {
    let h = hud_layout(15, 7);
    assert_eq!(h.panel_x, 39);
    assert_eq!(h.next_label_y, 7);
    assert_eq!(h.preview_y, 9);
    assert_eq!(h.help_y, 32);
    assert_eq!(h.score_y, 40);
    assert_eq!(h.game_over_y, 23);
}
