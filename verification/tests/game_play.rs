use tui_tetris::board::{Board, BOARD_H, BOARD_W};
use tui_tetris::game::{Action, Game, Key, KeyLatch};
use tui_tetris::piece::{Active, Kind};

fn released() -> KeyLatch {
    KeyLatch { left: false, right: false, down: false, up: false, space: false }
}

fn game_with(board: Board, active: Option<Active>, next: Kind) -> Game {
    Game {
        origin_x: 15,
        origin_y: 7,
        board,
        active,
        next,
        rng: rltk::RandomNumberGenerator::seeded(42),
        score: 0,
        game_over: false,
        keys: released(),
    }
}

fn empty() -> Board {
    [[None; BOARD_W]; BOARD_H]
}

fn filled(b: &Board) -> usize {
    b.iter().map(|r| r.iter().filter(|c| c.is_some()).count()).sum()
}

#[test]
fn new_game_starts_empty() {
    let g = Game::new(15, 7);
    assert_eq!(g.origin_x, 15);
    assert_eq!(g.origin_y, 7);
    assert_eq!(g.board, empty());
    assert_eq!(g.active, None);
    assert_eq!(g.score, 0);
    assert!(!g.game_over);
    assert_eq!(g.keys, released());
    assert_eq!(g.panel_x(), 15 + 22 + 2);
}

#[test]
fn spawn_places_announced_kind_at_top() {
    let mut g = game_with(empty(), None, Kind::S);
    g.spawn_with(Kind::J);
    assert_eq!(g.active, Some(Active { kind: Kind::S, rot: 0, x: 3, y: 0 }));
    assert_eq!(g.next, Kind::J);
    assert!(!g.game_over);
}

#[test]
fn spawn_on_blocked_top_ends_game() {
    let mut b = empty();
    b[0][4] = Some(Kind::O);
    let mut g = game_with(b, None, Kind::O);
    g.spawn_with(Kind::T);
    assert_eq!(g.active, None);
    assert!(g.game_over);
    assert_eq!(g.next, Kind::T);
}

#[test]
fn random_spawn_announces_a_kind() {
    let mut g = game_with(empty(), None, Kind::L);
    g.spawn();
    assert_eq!(g.active, Some(Active { kind: Kind::L, rot: 0, x: 3, y: 0 }));
}

#[test]
fn try_move_respects_walls_and_undoes() {
    let mut g = game_with(empty(), Some(Active { kind: Kind::O, rot: 0, x: 0, y: 0 }), Kind::I);
    assert!(!g.try_move(-1, 0));
    assert_eq!(g.active, Some(Active { kind: Kind::O, rot: 0, x: 0, y: 0 }));
    assert!(g.try_move(1, 2));
    assert_eq!(g.active, Some(Active { kind: Kind::O, rot: 0, x: 1, y: 2 }));
    assert!(g.try_move(-1, -2));
    assert_eq!(g.active, Some(Active { kind: Kind::O, rot: 0, x: 0, y: 0 }));
    let mut none = game_with(empty(), None, Kind::I);
    assert!(!none.try_move(0, 1));
}

#[test]
fn rotate_in_place_in_open_space() {
    let mut g = game_with(empty(), Some(Active { kind: Kind::T, rot: 0, x: 4, y: 5 }), Kind::I);
    assert!(g.try_rotate());
    assert_eq!(g.active, Some(Active { kind: Kind::T, rot: 1, x: 4, y: 5 }));
    assert!(g.try_rotate());
    assert!(g.try_rotate());
    assert!(g.try_rotate());
    assert_eq!(g.active, Some(Active { kind: Kind::T, rot: 0, x: 4, y: 5 }));
}

#[test]
fn rotate_kicks_off_the_right_wall() {
    // vertical I in column 9 (x = 7, cells at dx = 2); turning it flat needs four columns
    let mut g = game_with(empty(), Some(Active { kind: Kind::I, rot: 1, x: 7, y: 5 }), Kind::O);
    assert!(g.try_rotate());
    assert_eq!(g.active, Some(Active { kind: Kind::I, rot: 2, x: 6, y: 5 }));
}

#[test]
fn rotate_refused_when_no_kick_fits() {
    let mut b = empty();
    for y in 0..BOARD_H {
        for x in 0..BOARD_W {
            if x != 4 {
                b[y][x] = Some(Kind::Z);
            }
        }
    }
    // a vertical I standing in the one free column cannot turn
    let start = Active { kind: Kind::I, rot: 1, x: 2, y: 5 };
    let mut g = game_with(b, Some(start), Kind::O);
    assert!(!g.try_rotate());
    assert_eq!(g.active, Some(start));
}

#[test]
fn lock_and_spawn_clears_and_scores() {
    let mut b = empty();
    for x in 0..BOARD_W {
        if x < 3 || x > 6 {
            b[29][x] = Some(Kind::J);
        }
    }
    let mut g = game_with(b, Some(Active { kind: Kind::I, rot: 0, x: 3, y: 28 }), Kind::T);
    assert!(g.lock_and_spawn());
    assert_eq!(g.score, 100);
    assert_eq!(filled(&g.board), 0);
    assert_eq!(g.active, Some(Active { kind: Kind::T, rot: 0, x: 3, y: 0 }));
}

#[test]
fn lock_and_spawn_without_piece_just_spawns() {
    let mut g = game_with(empty(), None, Kind::Z);
    assert!(!g.lock_and_spawn());
    assert_eq!(g.active, Some(Active { kind: Kind::Z, rot: 0, x: 3, y: 0 }));
    assert_eq!(g.score, 0);
}

#[test]
fn hard_drop_scores_two_per_row_and_locks() {
    let mut g = game_with(empty(), Some(Active { kind: Kind::O, rot: 0, x: 3, y: 0 }), Kind::I);
    g.hard_drop();
    assert_eq!(g.score, 56);
    assert_eq!(g.board[28][3], Some(Kind::O));
    assert_eq!(g.board[29][4], Some(Kind::O));
    assert_eq!(filled(&g.board), 4);
    assert_eq!(g.active, Some(Active { kind: Kind::I, rot: 0, x: 3, y: 0 }));
}

#[test]
fn gravity_moves_down_only_when_due() {
    let mut g = game_with(empty(), Some(Active { kind: Kind::O, rot: 0, x: 3, y: 0 }), Kind::I);
    assert!(!g.tick_gravity(false));
    assert_eq!(g.active, Some(Active { kind: Kind::O, rot: 0, x: 3, y: 0 }));
    assert!(!g.tick_gravity(true));
    assert_eq!(g.active, Some(Active { kind: Kind::O, rot: 0, x: 3, y: 1 }));
}

#[test]
fn gravity_locks_at_the_floor() {
    let mut g = game_with(empty(), Some(Active { kind: Kind::O, rot: 0, x: 3, y: 28 }), Kind::T);
    assert!(g.tick_gravity(true));
    assert_eq!(filled(&g.board), 4);
    assert_eq!(g.active, Some(Active { kind: Kind::T, rot: 0, x: 3, y: 0 }));
}

#[test]
fn gravity_spawns_when_idle() {
    let mut g = game_with(empty(), None, Kind::J);
    assert!(!g.tick_gravity(false));
    assert_eq!(g.active, Some(Active { kind: Kind::J, rot: 0, x: 3, y: 0 }));
}

#[test]
fn held_key_acts_once_until_released() {
    let mut g = game_with(empty(), Some(Active { kind: Kind::O, rot: 0, x: 4, y: 5 }), Kind::I);
    assert_eq!(g.handle_input(Some(Key::Left)), Action::Continue);
    assert_eq!(g.active.unwrap().x, 3);
    assert_eq!(g.handle_input(Some(Key::Left)), Action::Continue);
    assert_eq!(g.active.unwrap().x, 3);
    assert_eq!(g.handle_input(None), Action::Continue);
    assert_eq!(g.keys, released());
    g.handle_input(Some(Key::Left));
    assert_eq!(g.active.unwrap().x, 2);
}

#[test]
fn soft_drop_scores_one() {
    let mut g = game_with(empty(), Some(Active { kind: Kind::O, rot: 0, x: 4, y: 5 }), Kind::I);
    g.handle_input(Some(Key::Down));
    assert_eq!(g.active.unwrap().y, 6);
    assert_eq!(g.score, 1);
    let mut floor = game_with(empty(), Some(Active { kind: Kind::O, rot: 0, x: 4, y: 28 }), Kind::I);
    floor.handle_input(Some(Key::Down));
    assert_eq!(floor.score, 0);
}

#[test]
fn space_hard_drops_and_up_rotates() {
    let mut g = game_with(empty(), Some(Active { kind: Kind::T, rot: 0, x: 4, y: 5 }), Kind::Z);
    g.handle_input(Some(Key::Up));
    assert_eq!(g.active.unwrap().rot, 1);
    assert_eq!(g.handle_input(Some(Key::Space)), Action::HardDrop);
    assert_eq!(filled(&g.board), 4);
    assert_eq!(g.active, Some(Active { kind: Kind::Z, rot: 0, x: 3, y: 0 }));
    // rotated T (rot 1) spans three rows, so it falls from y = 5 to y = 27
    assert_eq!(g.score, 44);
    assert_eq!(g.handle_input(Some(Key::Space)), Action::Continue);
    assert_eq!(filled(&g.board), 4);
}

#[test]
fn input_spawns_when_no_piece() {
    let mut g = game_with(empty(), None, Kind::L);
    g.handle_input(Some(Key::Right));
    assert_eq!(g.active.unwrap().kind, Kind::L);
    assert_eq!(g.active.unwrap().x, 4);
}

#[test]
fn escape_quits_and_game_over_ignores_other_keys() {
    let mut g = game_with(empty(), Some(Active { kind: Kind::O, rot: 0, x: 4, y: 5 }), Kind::I);
    assert_eq!(g.handle_input(Some(Key::Escape)), Action::Quit);
    let mut over = game_with(empty(), None, Kind::I);
    over.game_over = true;
    assert_eq!(over.handle_input(Some(Key::Left)), Action::Continue);
    assert_eq!(over.handle_input(Some(Key::Space)), Action::Continue);
    assert_eq!(over.active, None);
    assert_eq!(over.handle_input(Some(Key::Escape)), Action::Quit);
    assert!(!over.tick_gravity(true));
    assert_eq!(over.active, None);
    assert_eq!(over.board, empty());
}

#[test]
fn other_key_changes_nothing() {
    let mut g = game_with(empty(), Some(Active { kind: Kind::O, rot: 0, x: 4, y: 5 }), Kind::I);
    g.keys.left = true;
    assert_eq!(g.handle_input(Some(Key::Other)), Action::Continue);
    assert!(g.keys.left);
    assert_eq!(g.active, Some(Active { kind: Kind::O, rot: 0, x: 4, y: 5 }));
}

#[test]
fn score_previews_match_the_steps() {
    let mut g = game_with(empty(), Some(Active { kind: Kind::O, rot: 0, x: 3, y: 0 }), Kind::I);
    assert_eq!(g.score_after_input(Some(Key::Left)), 0);
    assert_eq!(g.score_after_input(Some(Key::Down)), 1);
    assert_eq!(g.score_after_input(Some(Key::Space)), 56);
    g.handle_input(Some(Key::Space));
    assert_eq!(g.score, 56);
    assert_eq!(g.score_after_input(Some(Key::Space)), 56);
    let mut b = empty();
    for x in 0..BOARD_W {
        if x != 3 && x != 4 {
            b[29][x] = Some(Kind::T);
            b[28][x] = Some(Kind::T);
        }
    }
    let mut full = game_with(b, Some(Active { kind: Kind::O, rot: 0, x: 3, y: 28 }), Kind::J);
    full.score = 7;
    assert_eq!(full.score_after_gravity(false), 7);
    assert_eq!(full.score_after_gravity(true), 207);
    assert!(full.tick_gravity(true));
    assert_eq!(full.score, 207);
    assert_eq!(filled(&full.board), 0);
}

#[test]
fn score_preview_counts_a_spawn_before_the_key() {
    let g = game_with(empty(), None, Kind::O);
    // the O piece enters at row 0 and the hard drop takes it down 28 rows
    assert_eq!(g.score_after_input(Some(Key::Space)), 56);
    let mut over = game_with(empty(), None, Kind::O);
    over.game_over = true;
    over.score = 9;
    assert_eq!(over.score_after_input(Some(Key::Space)), 9);
    assert_eq!(over.score_after_gravity(true), 9);
}

#[test]
fn frames_keep_a_piece_in_play_and_no_full_row() {
    let mut g = game_with(empty(), None, Kind::I);
    let keys = [Some(Key::Space), None, Some(Key::Left), None, Some(Key::Space), None, Some(Key::Right), Some(Key::Up), None, Some(Key::Space)];
    for (i, k) in keys.iter().cycle().take(200).enumerate() {
        let before = g.score;
        let action = g.handle_input(*k);
        let locked = g.tick_gravity(i % 3 == 0);
        assert!(g.score >= before);
        assert!(g.game_over || g.active.is_some());
        if g.game_over {
            assert_eq!(g.active, None);
        }
        for y in 0..BOARD_H {
            assert!(g.board[y].iter().any(|c| c.is_none()));
        }
        let _ = (action, locked);
    }
}
