use tui_tetris::board::{Board, BOARD_H, BOARD_W};
use tui_tetris::piece::{Active, Kind};

fn empty() -> Board {
    [[None; BOARD_W]; BOARD_H]
}

#[test]
fn from_roll_maps_each_face() {
    assert_eq!(Kind::from_roll(1), Kind::I);
    assert_eq!(Kind::from_roll(2), Kind::O);
    assert_eq!(Kind::from_roll(3), Kind::T);
    assert_eq!(Kind::from_roll(4), Kind::S);
    assert_eq!(Kind::from_roll(5), Kind::Z);
    assert_eq!(Kind::from_roll(6), Kind::J);
    assert_eq!(Kind::from_roll(7), Kind::L);
    assert_eq!(Kind::from_roll(0), Kind::L);
}

#[test]
fn random_draws_every_kind_eventually() {
    let mut rng = rltk::RandomNumberGenerator::seeded(7);
    let mut seen = Vec::new();
    for _ in 0..500 {
        let k = Kind::random(&mut rng);
        if !seen.contains(&k) {
            seen.push(k);
        }
    }
    assert_eq!(seen.len(), 7);
}

#[test]
fn colors_are_fixed() {
    assert_eq!(Kind::I.color(), (80, 220, 250));
    assert_eq!(Kind::O.color(), (240, 220, 60));
    assert_eq!(Kind::T.color(), (180, 80, 200));
    assert_eq!(Kind::S.color(), (80, 200, 100));
    assert_eq!(Kind::Z.color(), (220, 80, 80));
    assert_eq!(Kind::J.color(), (80, 100, 220));
    assert_eq!(Kind::L.color(), (220, 140, 60));
}

#[test]
fn cells_follow_rotation_modulo_four() {
    assert_eq!(Kind::I.cells(0), [(0, 1), (1, 1), (2, 1), (3, 1)]);
    assert_eq!(Kind::I.cells(1), [(2, 0), (2, 1), (2, 2), (2, 3)]);
    assert_eq!(Kind::I.cells(5), Kind::I.cells(1));
    assert_eq!(Kind::T.cells(3), [(1, 0), (0, 1), (1, 1), (1, 2)]);
    assert_eq!(Kind::O.cells(2), Kind::O.cells(0));
    assert_eq!(Kind::S.cells(2), Kind::S.cells(0));
    assert_eq!(Kind::Z.cells(3), Kind::Z.cells(1));
    assert_eq!(Kind::L.cells(2), [(0, 1), (1, 1), (2, 1), (0, 2)]);
    assert_eq!(Kind::J.cells(1), [(1, 0), (2, 0), (1, 1), (1, 2)]);
}

#[test]
fn occupied_leaves_out_cells_beyond_walls() {
    let p = Active { kind: Kind::I, rot: 0, x: -1, y: 0 };
    assert_eq!(p.occupied(), vec![(0, 1), (1, 1), (2, 1)]);
    let q = Active { kind: Kind::O, rot: 0, x: 4, y: 5 };
    assert_eq!(q.occupied(), vec![(4, 5), (5, 5), (4, 6), (5, 6)]);
    let below = Active { kind: Kind::O, rot: 0, x: 0, y: 29 };
    assert_eq!(below.occupied(), vec![(0, 29), (1, 29)]);
}

#[test]
fn placement_checks_all_four_cells() {
    let b = empty();
    assert!(tui_tetris::board::valid_placement(&b, &Active { kind: Kind::T, rot: 0, x: 3, y: 0 }));
    // one cell beyond the left wall is refused, although three are inside
    assert!(!tui_tetris::board::valid_placement(&b, &Active { kind: Kind::I, rot: 0, x: -1, y: 0 }));
    assert!(!tui_tetris::board::valid_placement(&b, &Active { kind: Kind::I, rot: 0, x: 7, y: 0 }));
    assert!(tui_tetris::board::valid_placement(&b, &Active { kind: Kind::I, rot: 0, x: 6, y: 0 }));
    assert!(!tui_tetris::board::valid_placement(&b, &Active { kind: Kind::O, rot: 0, x: 0, y: 29 }));
    let mut blocked = empty();
    blocked[1][4] = Some(Kind::Z);
    assert!(!tui_tetris::board::valid_placement(&blocked, &Active { kind: Kind::T, rot: 0, x: 3, y: 0 }));
}

fn turned_set(cells: [(i32, i32); 4], n: i32) -> Vec<(i32, i32)> {
    let mut v: Vec<(i32, i32)> = cells.iter().map(|&(dx, dy)| (n - 1 - dy, dx)).collect();
    v.sort();
    v
}

fn sorted(cells: [(i32, i32); 4]) -> Vec<(i32, i32)> {
    let mut v = cells.to_vec();
    v.sort();
    v
}

#[test]
fn each_rotation_is_a_clockwise_quarter_turn() {
    for rot in 0..8usize {
        assert_eq!(sorted(Kind::I.cells(rot + 1)), turned_set(Kind::I.cells(rot), 4));
        for k in [Kind::T, Kind::J, Kind::L] {
            assert_eq!(sorted(k.cells(rot + 1)), turned_set(k.cells(rot), 3));
        }
    }
    assert_eq!(sorted(Kind::S.cells(1)), turned_set(Kind::S.cells(0), 3));
    assert_eq!(sorted(Kind::Z.cells(1)), turned_set(Kind::Z.cells(0), 3));
    assert_eq!(Kind::S.cells(1), [(1, 0), (1, 1), (2, 1), (2, 2)]);
    assert_eq!(Kind::Z.cells(1), [(2, 0), (1, 1), (2, 1), (1, 2)]);
}
