use tui_tetris::board::{clear_lines, landing_row, merge, Board, BOARD_H, BOARD_W};
use tui_tetris::piece::{Active, Kind};

fn empty() -> Board {
    [[None; BOARD_W]; BOARD_H]
}

fn fill_row(b: &mut Board, y: usize, k: Kind) {
    for x in 0..BOARD_W {
        b[y][x] = Some(k);
    }
}

#[test]
fn merge_fills_only_the_piece_cells() {
    let mut b = empty();
    merge(&mut b, &Active { kind: Kind::L, rot: 0, x: 2, y: 10 });
    assert_eq!(b[10][4], Some(Kind::L));
    assert_eq!(b[11][2], Some(Kind::L));
    assert_eq!(b[11][3], Some(Kind::L));
    assert_eq!(b[11][4], Some(Kind::L));
    let filled: usize = b.iter().map(|r| r.iter().filter(|c| c.is_some()).count()).sum();
    assert_eq!(filled, 4);
}

#[test]
fn merge_skips_cells_outside() {
    let mut b = empty();
    merge(&mut b, &Active { kind: Kind::I, rot: 0, x: 8, y: 0 });
    assert_eq!(b[1][8], Some(Kind::I));
    assert_eq!(b[1][9], Some(Kind::I));
    let filled: usize = b.iter().map(|r| r.iter().filter(|c| c.is_some()).count()).sum();
    assert_eq!(filled, 2);
}

#[test]
fn clear_lines_removes_full_rows_and_shifts_down() {
    let mut b = empty();
    fill_row(&mut b, 29, Kind::I);
    b[28][0] = Some(Kind::T);
    fill_row(&mut b, 27, Kind::O);
    b[26][5] = Some(Kind::S);
    let n = clear_lines(&mut b);
    assert_eq!(n, 2);
    assert_eq!(b[29][0], Some(Kind::T));
    assert_eq!(b[29][1], None);
    assert_eq!(b[28][5], Some(Kind::S));
    let filled: usize = b.iter().map(|r| r.iter().filter(|c| c.is_some()).count()).sum();
    assert_eq!(filled, 2);
}

#[test]
fn clear_lines_on_board_without_full_rows_changes_nothing() {
    let mut b = empty();
    b[29][3] = Some(Kind::J);
    let before = b;
    assert_eq!(clear_lines(&mut b), 0);
    assert_eq!(b, before);
}

#[test]
fn clear_lines_is_idempotent() {
    let mut b = empty();
    for y in 20..30 {
        fill_row(&mut b, y, Kind::Z);
    }
    b[25][0] = None;
    assert_eq!(clear_lines(&mut b), 9);
    let once = b;
    assert_eq!(clear_lines(&mut b), 0);
    assert_eq!(b, once);
    assert_eq!(b[29][1], Some(Kind::Z));
    assert_eq!(b[29][0], None);
}

#[test]
fn clear_lines_handles_a_full_well() {
    let mut b = empty();
    for y in 0..30 {
        fill_row(&mut b, y, Kind::L);
    }
    assert_eq!(clear_lines(&mut b), 30);
    assert_eq!(b, empty());
}

#[test]
fn landing_row_finds_the_floor() {
    let b = empty();
    assert_eq!(landing_row(&b, &Active { kind: Kind::I, rot: 0, x: 3, y: 0 }), 28);
    assert_eq!(landing_row(&b, &Active { kind: Kind::O, rot: 0, x: 3, y: 0 }), 28);
    assert_eq!(landing_row(&b, &Active { kind: Kind::I, rot: 1, x: 3, y: 5 }), 26);
}

#[test]
fn landing_row_stops_on_blocks() {
    let mut b = empty();
    b[20][4] = Some(Kind::T);
    // T unrotated at x=3 covers columns 3..=5 in its lower row
    assert_eq!(landing_row(&b, &Active { kind: Kind::T, rot: 0, x: 3, y: 0 }), 18);
    assert_eq!(landing_row(&b, &Active { kind: Kind::T, rot: 0, x: 3, y: 18 }), 18);
}
