use tetris::board::{ghost_y, Board, CellLook};
use tetris::piece::Piece;
use tetris::scoring::score_for;
use tetris::shapes::{piece_shape, rotate, COLS, KINDS, ROWS};

fn block_count(s: &[[u8; 4]; 4]) -> usize {
    s.iter().map(|row| row.iter().filter(|&&b| b != 0).count()).sum()
}

#[test]
fn rotate_turns_i_piece_upright() {
    let i = piece_shape(0);
    let r = rotate(&i);
    assert_eq!(r, [[0, 0, 1, 0], [0, 0, 1, 0], [0, 0, 1, 0], [0, 0, 1, 0]]);
}

#[test]
fn rotate_follows_formula() {
    let t = piece_shape(2);
    let r = rotate(&t);
    for row in 0..4 {
        for col in 0..4 {
            assert_eq!(r[col][3 - row], t[row][col]);
        }
    }
}

#[test]
fn four_rotations_restore_every_shape() {
    for k in 0..KINDS {
        let s = piece_shape(k);
        let r = rotate(&rotate(&rotate(&rotate(&s))));
        assert_eq!(r, s);
        assert_ne!(rotate(&s), s, "kind {} is not symmetric under a quarter turn", k);
    }
}

#[test]
fn every_spawn_shape_has_four_blocks() {
    for k in 0..KINDS {
        assert_eq!(block_count(&piece_shape(k)), 4);
        assert_eq!(block_count(&rotate(&piece_shape(k))), 4);
    }
}

#[test]
fn spawn_shapes_match_tables() {
    assert_eq!(piece_shape(1), [[0, 1, 1, 0], [0, 1, 1, 0], [0, 0, 0, 0], [0, 0, 0, 0]]);
    assert_eq!(piece_shape(3), [[0, 1, 1, 0], [1, 1, 0, 0], [0, 0, 0, 0], [0, 0, 0, 0]]);
    assert_eq!(piece_shape(4), [[1, 1, 0, 0], [0, 1, 1, 0], [0, 0, 0, 0], [0, 0, 0, 0]]);
    assert_eq!(piece_shape(5), [[1, 0, 0, 0], [1, 1, 1, 0], [0, 0, 0, 0], [0, 0, 0, 0]]);
    assert_eq!(piece_shape(6), [[0, 0, 1, 0], [1, 1, 1, 0], [0, 0, 0, 0], [0, 0, 0, 0]]);
}

#[test]
fn new_piece_spawns_centred_at_top() {
    let p = Piece::new(2);
    assert_eq!(p.x, 3);
    assert_eq!(p.y, 0);
    assert_eq!(p.kind, 2);
    assert_eq!(p.shape, piece_shape(2));
}

#[test]
fn cells_list_blocks_row_by_row() {
    let p = Piece::new(2);
    assert_eq!(p.cells(), vec![(4, 0), (3, 1), (4, 1), (5, 1)]);
    let mut q = Piece::new(0);
    q.x = -1;
    q.y = 5;
    assert_eq!(q.cells(), vec![(-1, 6), (0, 6), (1, 6), (2, 6)]);
}

#[test]
fn empty_board_has_no_blocks() {
    let b = Board::new();
    for r in 0..ROWS {
        for c in 0..COLS {
            assert_eq!(b.get(r, c), None);
        }
    }
}

#[test]
fn collides_with_walls_and_floor() {
    let b = Board::new();
    let mut p = Piece::new(0);
    assert!(!b.collides(&p));
    p.x = -1;
    assert!(b.collides(&p));
    p.x = 6;
    assert!(!b.collides(&p));
    p.x = 7;
    assert!(b.collides(&p));
    p.x = 3;
    p.y = 18;
    assert!(!b.collides(&p));
    p.y = 19;
    assert!(b.collides(&p));
}

#[test]
fn blocks_above_the_top_do_not_collide() {
    let b = Board::new();
    let mut p = Piece::new(1);
    p.y = -1;
    assert!(!b.collides(&p));
    p.y = -3;
    assert!(!b.collides(&p));
}

#[test]
fn collides_with_locked_blocks() {
    let mut b = Board::new();
    b.cells[1][4] = Some(3);
    let p = Piece::new(2);
    assert!(b.collides(&p));
    let mut q = Piece::new(2);
    q.x = 5;
    assert!(!b.collides(&q));
}

#[test]
fn lock_writes_piece_kind() {
    let mut b = Board::new();
    let p = Piece::new(2);
    b.lock(&p);
    assert_eq!(b.get(0, 4), Some(2));
    assert_eq!(b.get(1, 3), Some(2));
    assert_eq!(b.get(1, 4), Some(2));
    assert_eq!(b.get(1, 5), Some(2));
    assert_eq!(b.get(0, 3), None);
    let count = (0..ROWS).map(|r| (0..COLS).filter(|&c| b.get(r, c).is_some()).count()).sum::<usize>();
    assert_eq!(count, 4);
}

#[test]
fn lock_drops_blocks_above_the_top() {
    let mut b = Board::new();
    let mut p = Piece::new(1);
    p.y = -1;
    b.lock(&p);
    assert_eq!(b.get(0, 4), Some(1));
    assert_eq!(b.get(0, 5), Some(1));
    let count = (0..ROWS).map(|r| (0..COLS).filter(|&c| b.get(r, c).is_some()).count()).sum::<usize>();
    assert_eq!(count, 2);
}

#[test]
fn full_rows_lists_full_rows_top_down() {
    let mut b = Board::new();
    assert!(b.full_rows().is_empty());
    for c in 0..COLS {
        b.cells[19][c] = Some(0);
        b.cells[17][c] = Some(1);
    }
    for c in 0..COLS - 1 {
        b.cells[18][c] = Some(2);
    }
    assert_eq!(b.full_rows(), vec![17, 19]);
    assert_eq!(b.get(17, 0), Some(1));
}

#[test]
fn clear_rows_empties_listed_rows() {
    let mut b = Board::new();
    for c in 0..COLS {
        b.cells[19][c] = Some(0);
        b.cells[18][c] = Some(1);
    }
    b.clear_rows(&[19]);
    for c in 0..COLS {
        assert_eq!(b.get(19, c), None);
        assert_eq!(b.get(18, c), Some(1));
    }
}

#[test]
fn gravity_settles_each_column_in_order() {
    let mut b = Board::new();
    b.cells[5][0] = Some(1);
    b.cells[10][0] = Some(2);
    b.cells[19][0] = Some(3);
    b.cells[0][9] = Some(6);
    b.apply_gravity();
    assert_eq!(b.get(17, 0), Some(1));
    assert_eq!(b.get(18, 0), Some(2));
    assert_eq!(b.get(19, 0), Some(3));
    assert_eq!(b.get(5, 0), None);
    assert_eq!(b.get(10, 0), None);
    assert_eq!(b.get(19, 9), Some(6));
    assert_eq!(b.get(0, 9), None);
    let once = b;
    b.apply_gravity();
    assert_eq!(b.cells, once.cells);
}

#[test]
fn ghost_y_finds_landing_row() {
    let mut b = Board::new();
    let p = Piece::new(0);
    assert_eq!(ghost_y(&b, &p), 18);
    b.cells[10][4] = Some(5);
    assert_eq!(ghost_y(&b, &p), 8);
    let mut q = Piece::new(0);
    q.y = 8;
    assert_eq!(ghost_y(&b, &q), 8);
}

#[test]
fn score_table() {
    assert_eq!(score_for(0), 0);
    assert_eq!(score_for(1), 100);
    assert_eq!(score_for(2), 300);
    assert_eq!(score_for(3), 500);
    assert_eq!(score_for(4), 800);
    assert_eq!(score_for(5), 0);
    assert!(score_for(4) > 4 * score_for(1));
}

#[test]
fn cell_look_orders_flash_hidden_block() {
    let mut b = Board::new();
    b.cells[19][0] = Some(4);
    b.cells[18][0] = Some(5);
    assert_eq!(b.cell_look(19, 0, &[19], &[]), CellLook::Flash);
    assert_eq!(b.cell_look(19, 0, &[], &[(0, 19)]), CellLook::Empty);
    assert_eq!(b.cell_look(19, 0, &[], &[(1, 19)]), CellLook::Block(4));
    assert_eq!(b.cell_look(18, 0, &[19], &[]), CellLook::Block(5));
    assert_eq!(b.cell_look(17, 0, &[], &[]), CellLook::Empty);
}
