use tetris::game::{
    Game, HeldKeys, PressedKeys, CLEAR_ANIM_US, DAS_DELAY_US, DAS_REPEAT_US, LOCK_DELAY_US, ROW_UNITS, SOFT_DROP_US,
};
use tetris::shapes::{piece_shape, COLS, KINDS, ROWS};

const NO_HELD: HeldKeys = HeldKeys { left: false, right: false, down: false };
const NO_PRESS: PressedKeys = PressedKeys { restart: false, rotate: false, hard_drop: false };

/// A fresh game whose current piece is of the given kind and whose next
/// kind is fixed, so that runs are repeatable.
fn game_with(kind: usize, next: usize) -> Game {
    Game::start_with(kind, next)
}

#[test]
fn new_game_starts_empty_at_level_one() {
    let g = Game::new();
    assert!(g.current.kind < KINDS as u8);
    assert!(g.next_kind < KINDS);
    assert_eq!(g.current.x, 3);
    assert_eq!(g.current.y, 0);
    assert_eq!(g.current.shape, piece_shape(g.current.kind as usize));
    assert_eq!((g.score, g.lines, g.level), (0, 0, 1));
    assert!(!g.game_over);
    assert!(g.clearing_rows.is_empty());
    assert!(g.falling_blocks.is_empty());
    for r in 0..ROWS {
        for c in 0..COLS {
            assert_eq!(g.board.get(r, c), None);
        }
    }
}

#[test]
fn random_kinds_stay_in_range() {
    for _ in 0..200 {
        let g = Game::new();
        assert!(g.next_kind < KINDS);
        assert!((g.current.kind as usize) < KINDS);
    }
}

#[test]
fn fall_interval_by_level() {
    let mut g = Game::new();
    assert_eq!(g.fall_interval(), 800_000);
    g.level = 2;
    assert_eq!(g.fall_interval(), 793_000);
    g.level = 100;
    assert_eq!(g.fall_interval(), 107_000);
    g.level = 108;
    assert_eq!(g.fall_interval(), 51_000);
    g.level = 109;
    assert_eq!(g.fall_interval(), 50_000);
    g.level = 5000;
    assert_eq!(g.fall_interval(), 50_000);
}

#[test]
fn try_move_stops_at_walls() {
    let mut g = game_with(0, 1);
    assert!(g.try_move(-1, 0));
    assert_eq!(g.current.x, 2);
    assert!(g.try_move(-1, 0));
    assert!(g.try_move(-1, 0));
    assert_eq!(g.current.x, 0);
    assert!(!g.try_move(-1, 0));
    assert_eq!(g.current.x, 0);
    assert!(g.try_move(0, 1));
    assert_eq!(g.current.y, 1);
}

#[test]
fn rotation_turns_in_place_when_it_fits() {
    let mut g = game_with(2, 1);
    g.try_rotate();
    assert_eq!(g.current.shape, tetris::shapes::rotate(&piece_shape(2)));
    assert_eq!(g.current.x, 3);
}

#[test]
fn rotation_kicks_away_from_the_wall() {
    // An upright I piece in the rightmost column turns flat only after
    // kicking one column left.
    let mut g = game_with(0, 1);
    g.try_rotate();
    g.current.x = 7; // its blocks are in grid column 2, so board column 9
    assert!(!g.board.collides(&g.current));
    g.try_rotate();
    assert_eq!(g.current.x, 6);
    assert!(!g.board.collides(&g.current));
}

#[test]
fn rotation_is_cancelled_when_nothing_fits() {
    let mut g = game_with(0, 1);
    // Fill everything around row 1 except the I piece's own cells.
    for c in 0..COLS {
        for r in 2..ROWS {
            g.board.cells[r][c] = Some(6);
        }
        if !(3..7).contains(&c) {
            g.board.cells[1][c] = Some(6);
        }
    }
    g.board.cells[0][5] = Some(6);
    let before = g.current;
    g.try_rotate();
    assert_eq!(g.current.shape, before.shape);
    assert_eq!(g.current.x, before.x);
}

#[test]
fn hard_drop_scores_two_per_row_and_locks() {
    let mut g = game_with(0, 3);
    let bursts = g.handle_keys(PressedKeys { hard_drop: true, ..NO_PRESS });
    assert!(bursts.is_empty());
    assert_eq!(g.score, 36);
    for c in 3..7 {
        assert_eq!(g.board.get(19, c), Some(0));
    }
    assert_eq!(g.current.kind, 3);
    assert_eq!(g.current.y, 0);
    assert!(g.next_kind < KINDS);
}

#[test]
fn hard_drop_that_fills_a_row_starts_an_explosion() {
    let mut g = game_with(0, 2);
    for c in 0..COLS {
        if !(3..7).contains(&c) {
            g.board.cells[19][c] = Some(5);
        }
    }
    let bursts = g.handle_keys(PressedKeys { hard_drop: true, ..NO_PRESS });
    assert_eq!(bursts.len(), COLS);
    for (i, b) in bursts.iter().enumerate() {
        assert_eq!((b.row, b.col), (19, i));
    }
    assert_eq!(bursts[0].kind, 5);
    assert_eq!(bursts[4].kind, 0);
    assert_eq!(g.clearing_rows, vec![19]);
    assert_eq!(g.clear_anim_timer, 0);
    assert_eq!(g.score, 36);
}

#[test]
fn explosion_ends_then_lines_and_score_count() {
    let mut g = game_with(0, 2);
    for c in 0..COLS {
        if !(3..7).contains(&c) {
            g.board.cells[19][c] = Some(5);
        }
    }
    g.handle_keys(PressedKeys { hard_drop: true, ..NO_PRESS });
    // Keys are ignored while the explosion runs.
    let x = g.current.x;
    assert!(g.handle_keys(PressedKeys { rotate: true, hard_drop: true, restart: false }).is_empty());
    assert_eq!(g.current.x, x);
    assert!(g.update(CLEAR_ANIM_US as u32 - 1, NO_HELD).is_empty());
    assert_eq!(g.clearing_rows, vec![19]);
    g.update(1, NO_HELD);
    assert!(g.clearing_rows.is_empty());
    assert_eq!(g.lines, 1);
    assert_eq!(g.score, 36 + 100);
    assert_eq!(g.level, 1);
    // Nothing was above the cleared row: the next piece comes at once.
    assert!(g.falling_blocks.is_empty());
    assert_eq!(g.current.kind, 2);
    for c in 0..COLS {
        assert_eq!(g.board.get(19, c), None);
    }
}

#[test]
fn blocks_above_a_cleared_row_drop_slowly() {
    let mut g = game_with(0, 2);
    for c in 0..COLS {
        if !(3..7).contains(&c) {
            g.board.cells[19][c] = Some(5);
        }
    }
    g.board.cells[15][0] = Some(4);
    g.board.cells[18][0] = Some(4);
    g.handle_keys(PressedKeys { hard_drop: true, ..NO_PRESS });
    g.update(CLEAR_ANIM_US as u32, NO_HELD);
    assert_eq!(g.board.get(19, 0), Some(4));
    assert_eq!(g.board.get(18, 0), Some(4));
    assert_eq!(g.board.get(15, 0), None);
    assert_eq!(g.falling_blocks.len(), 2);
    assert_eq!((g.falling_blocks[0].col, g.falling_blocks[0].target_row), (0, 18));
    assert_eq!(g.falling_blocks[0].visual_y, 15 * ROW_UNITS);
    assert_eq!((g.falling_blocks[1].col, g.falling_blocks[1].target_row), (0, 19));
    assert_eq!(g.hidden_cells(), vec![(0, 18), (0, 19)]);
    // One row takes 0.2 s at five rows per second.
    g.update(200_000, NO_HELD);
    assert_eq!(g.falling_blocks[1].visual_y, 19 * ROW_UNITS);
    assert!(g.falling_blocks[1].is_done());
    assert!(!g.falling_blocks[0].is_done());
    g.update(400_000, NO_HELD);
    assert!(g.falling_blocks.is_empty());
    assert_eq!(g.current.kind, 2);
    assert_eq!(g.lines, 1);
}

#[test]
fn gravity_moves_piece_down_each_interval() {
    let mut g = game_with(1, 2);
    g.update(799_999, NO_HELD);
    assert_eq!(g.current.y, 0);
    g.update(1, NO_HELD);
    assert_eq!(g.current.y, 1);
    assert_eq!(g.fall_timer, 0);
    g.update(SOFT_DROP_US as u32, HeldKeys { down: true, ..NO_HELD });
    assert_eq!(g.current.y, 2);
}

#[test]
fn resting_piece_locks_after_the_delay() {
    let mut g = game_with(1, 4);
    g.current.y = 18;
    let interval = 800_000;
    assert!(interval as u64 >= LOCK_DELAY_US);
    g.update(interval, NO_HELD);
    // The lock delay was spent in one interval, so the piece locked and the
    // next one spawned.
    assert_eq!(g.current.kind, 4);
    assert_eq!(g.current.y, 0);
    assert_eq!(g.lock_timer, 0);
    assert_eq!(g.board.get(19, 4), Some(1));
    assert_eq!(g.board.get(18, 5), Some(1));
}

#[test]
fn soft_drop_intervals_count_toward_lock() {
    let mut g = game_with(1, 4);
    g.current.y = 18;
    let down = HeldKeys { down: true, ..NO_HELD };
    for i in 1..10u64 {
        g.update(SOFT_DROP_US as u32, down);
        assert_eq!(g.lock_timer, i * SOFT_DROP_US);
        assert_eq!(g.current.kind, 1);
    }
    g.update(SOFT_DROP_US as u32, down);
    assert_eq!(g.current.kind, 4);
    assert_eq!(g.lock_timer, 0);
}

#[test]
fn held_key_shifts_with_delay_then_repeats() {
    let mut g = game_with(1, 2);
    let left = HeldKeys { left: true, ..NO_HELD };
    g.update(10_000, left);
    assert_eq!(g.current.x, 2);
    assert_eq!(g.last_dir, -1);
    g.update((DAS_DELAY_US - 1) as u32, left);
    assert_eq!(g.current.x, 2);
    g.update(1, left);
    assert_eq!(g.current.x, 1);
    assert!(g.das_active);
    g.update(DAS_REPEAT_US as u32, left);
    assert_eq!(g.current.x, 0);
    g.update(DAS_REPEAT_US as u32, left);
    assert_eq!(g.current.x, -1);
    g.update(DAS_REPEAT_US as u32, left);
    assert_eq!(g.current.x, -1);
    g.update(10_000, NO_HELD);
    assert_eq!(g.last_dir, 0);
    assert!(!g.das_active);
    assert_eq!(g.das_timer, 0);
}

#[test]
fn left_wins_over_right() {
    let mut g = game_with(1, 2);
    g.update(1, HeldKeys { left: true, right: true, down: false });
    assert_eq!(g.current.x, 2);
}

#[test]
fn spawn_into_stack_ends_the_game_and_restart_begins_anew() {
    let mut g = game_with(1, 1);
    for c in 0..COLS {
        if c != 4 && c != 5 {
            for r in 0..ROWS {
                g.board.cells[r][c] = Some(6);
            }
        }
    }
    // A tall column under the spawn point: the O piece locks at rows 0-1.
    for r in 2..ROWS {
        g.board.cells[r][4] = Some(3);
        g.board.cells[r][5] = Some(3);
    }
    // Rows 2.. are full; clear them out of the way by emptying column 0.
    for r in 0..ROWS {
        g.board.cells[r][0] = None;
    }
    let bursts = g.handle_keys(PressedKeys { hard_drop: true, ..NO_PRESS });
    assert!(bursts.is_empty());
    assert!(g.game_over);
    let snapshot = (g.score, g.current.y, g.current.x);
    assert!(g.update(1_000_000, HeldKeys { left: true, right: false, down: true }).is_empty());
    assert_eq!((g.score, g.current.y, g.current.x), snapshot);
    assert!(g.handle_keys(PressedKeys { hard_drop: true, rotate: true, restart: false }).is_empty());
    assert!(g.game_over);
    g.handle_keys(PressedKeys { restart: true, ..NO_PRESS });
    assert!(!g.game_over);
    assert_eq!((g.score, g.lines, g.level), (0, 0, 1));
    assert_eq!(g.board.get(19, 4), None);
}

#[test]
fn level_rises_every_ten_lines() {
    let mut g = game_with(0, 2);
    g.lines = 9;
    g.level = 1;
    for c in 0..COLS {
        if !(3..7).contains(&c) {
            g.board.cells[19][c] = Some(5);
        }
    }
    g.handle_keys(PressedKeys { hard_drop: true, ..NO_PRESS });
    g.update(CLEAR_ANIM_US as u32, NO_HELD);
    assert_eq!(g.lines, 10);
    assert_eq!(g.level, 2);
    assert_eq!(g.score, 36 + 100);
}

#[test]
fn four_rows_score_a_tetris_times_level() {
    let mut g = game_with(0, 2);
    g.try_rotate(); // upright I in board column 5
    g.lines = 20;
    g.level = 3;
    for r in 16..ROWS {
        for c in 0..COLS {
            if c != 5 {
                g.board.cells[r][c] = Some(6);
            }
        }
    }
    let bursts = g.handle_keys(PressedKeys { hard_drop: true, ..NO_PRESS });
    assert_eq!(bursts.len(), 4 * COLS);
    assert_eq!(g.clearing_rows, vec![16, 17, 18, 19]);
    let dropped_score = g.score;
    g.update(CLEAR_ANIM_US as u32, NO_HELD);
    assert_eq!(g.lines, 24);
    assert_eq!(g.score, dropped_score + 800 * 3);
    assert_eq!(g.level, 3);
}

#[test]
fn one_drop_animation_per_moved_block_on_distinct_cells() {
    let mut g = game_with(0, 2);
    for c in 0..COLS {
        if !(3..7).contains(&c) {
            g.board.cells[19][c] = Some(5);
        }
    }
    // Column 0: blocks at rows 10, 12 and 18 above the row that clears.
    g.board.cells[10][0] = Some(1);
    g.board.cells[12][0] = Some(2);
    g.board.cells[18][0] = Some(3);
    // Column 9: a block at row 18.
    g.board.cells[18][9] = Some(6);
    g.handle_keys(PressedKeys { hard_drop: true, ..NO_PRESS });
    g.update(CLEAR_ANIM_US as u32, NO_HELD);
    let cells: Vec<(usize, usize, u8, u64)> =
        g.falling_blocks.iter().map(|b| (b.col, b.target_row, b.kind, b.visual_y)).collect();
    assert_eq!(
        cells,
        vec![
            (0, 17, 1, 10 * ROW_UNITS),
            (0, 18, 2, 12 * ROW_UNITS),
            (0, 19, 3, 18 * ROW_UNITS),
            (9, 19, 6, 18 * ROW_UNITS),
        ]
    );
    for b in &g.falling_blocks {
        assert_eq!(g.board.get(b.target_row, b.col), Some(b.kind));
        assert!(b.visual_y < b.target_row as u64 * ROW_UNITS);
    }
}

#[test]
fn is_done_compares_whole_rows() {
    let b = tetris::game::FallingBlock { col: 0, kind: 0, visual_y: 3 * ROW_UNITS - 1, target_row: 3 };
    assert!(!b.is_done());
    let c = tetris::game::FallingBlock { visual_y: 3 * ROW_UNITS, ..b };
    assert!(c.is_done());
    let far = tetris::game::FallingBlock { visual_y: u64::MAX, target_row: usize::MAX, ..b };
    assert!(!far.is_done());
}

#[test]
fn rotation_moves_at_most_two_columns() {
    for kind in 0..KINDS {
        let mut g = game_with(kind, 1);
        for _ in 0..4 {
            let before = g.current;
            g.try_rotate();
            assert!((g.current.x - before.x).abs() <= 2);
            assert_eq!(g.current.y, before.y);
            assert!(!g.board.collides(&g.current));
        }
    }
}

#[test]
fn start_with_sets_both_kinds() {
    let g = Game::start_with(6, 0);
    assert_eq!(g.current.kind, 6);
    assert_eq!(g.current.shape, piece_shape(6));
    assert_eq!((g.current.x, g.current.y), (3, 0));
    assert_eq!(g.next_kind, 0);
    assert_eq!((g.score, g.lines, g.level), (0, 0, 1));
}

#[test]
fn spawn_with_queues_the_drawn_kind() {
    let mut g = game_with(0, 4);
    g.spawn_with(5);
    assert_eq!(g.current.kind, 4);
    assert_eq!(g.current.shape, piece_shape(4));
    assert_eq!(g.next_kind, 5);
    assert!(!g.game_over);
}

#[test]
fn hard_drop_points_count_rows_after_rotation() {
    let g = game_with(0, 1);
    // Flat I: rows 1 of its grid, rests with grid top at row 18.
    assert_eq!(g.hard_drop_points(false), 36);
    // Upright I: column 2 of its grid, rests with grid top at row 16.
    assert_eq!(g.hard_drop_points(true), 32);
}

#[test]
fn resting_piece_drops_at_full_score() {
    let mut g = game_with(1, 2);
    g.current.y = 18;
    g.score = u32::MAX;
    assert_eq!(g.hard_drop_points(false), 0);
    g.handle_keys(PressedKeys { hard_drop: true, ..NO_PRESS });
    assert_eq!(g.score, u32::MAX);
    assert_eq!(g.board.get(19, 4), Some(1));
    assert_eq!(g.current.kind, 2);
}
