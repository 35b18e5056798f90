use vstd::prelude::*;

use crate::board::{
    cleared, collides, column_blocks, grid_shaped, lemma_column_entries, lemma_fits_inside, lemma_full_rows, lockable,
    locked, settled, settled_gap, full_row_list, Grid,
};
use crate::game::{Burst, FallingBlock, BASE_INTERVAL_US, MIN_INTERVAL_US, ROW_UNITS};
use crate::piece::Piece;
use crate::rules::{
    bursts_of, bursts_upto, clear_step, cleared_count, column_falls, consistent, drop_row, fall_interval_at, falls_of,
    falls_upto,
    finish_clear_step, kick, kicked, lock_step, moved, rests_at, row_bursts, sound, spawn_step, turned, GameView,
};
use crate::scoring::line_score;
use crate::shapes::{at, has_block, is_rotation, Shape, COLS, ROWS};

verus! {

/// The quarter turn of a shape is unique: any `rot` with `is_rotation` is it.
pub proof fn lemma_turned(s: Shape, rot: Shape)
    requires
        is_rotation(s, rot),
    ensures
        turned(s) == rot,
{
    let t = turned(s);
    assert(is_rotation(s, t));
    assert forall|i: int| 0 <= i < 4 implies t@[i]@ =~= rot@[i]@ by {
        assert forall|j: int| 0 <= j < 4 implies t@[i]@[j] == rot@[i]@[j] by {
            assert(at(t, i, 3 - (3 - j)) == at(s, 3 - j, i));
            assert(at(rot, i, 3 - (3 - j)) == at(s, 3 - j, i));
        }
    }
    assert forall|i: int| 0 <= i < 4 implies t@[i] == rot@[i] by {
        assert(t@[i]@ =~= rot@[i]@);
    }
    assert(t@ =~= rot@);
}

/// The resting row of a dropped piece is unique.
pub proof fn lemma_drop_row(g: Grid, p: Piece, gy: int)
    requires
        rests_at(g, p, gy),
    ensures
        drop_row(g, p) == gy,
{
    let d = drop_row(g, p);
    assert(rests_at(g, p, d));
    if d < gy {
        assert(!collides(g, p.at_row(d + 1)));
    } else if gy < d {
        assert(!collides(g, p.at_row(gy + 1)));
    }
}

/// The `j`-th block of a column lies no lower than its settled row.
pub proof fn lemma_blocks_above_settled(g: Grid, c: int, j: int)
    requires
        0 <= j < column_blocks(g, c).len(),
    ensures
        column_blocks(g, c)[j].0 <= settled_gap(g, c) + j,
    decreases column_blocks(g, c).len() - j,
{
    lemma_column_entries(g, c, ROWS as int);
    if j + 1 < column_blocks(g, c).len() {
        lemma_blocks_above_settled(g, c, j + 1);
        assert(column_blocks(g, c)[j].0 < column_blocks(g, c)[j + 1].0);
    }
}

/// Each drop animation of the first `k` blocks of a column moves a block of
/// that column strictly downward, to the row where the settled board holds
/// it.
proof fn lemma_column_falls(g: Grid, c: int, k: int)
    requires
        0 <= c < COLS,
        0 <= k <= column_blocks(g, c).len(),
    ensures
        forall|i: int| 0 <= i < column_falls(g, c, k).len() ==> {
            let b = #[trigger] column_falls(g, c, k)[i];
            &&& b.col == c
            &&& b.target_row < ROWS
            &&& b.visual_y < b.target_row * ROW_UNITS
            &&& settled(g)[b.target_row as int][c] == Some(b.kind)
        },
    decreases k,
{
    lemma_column_entries(g, c, ROWS as int);
    if k > 0 {
        lemma_column_falls(g, c, k - 1);
        let e = column_blocks(g, c)[k - 1];
        let to = settled_gap(g, c) + k - 1;
        lemma_blocks_above_settled(g, c, k - 1);
        if e.0 != to {
            let rest = column_falls(g, c, k - 1);
            let b = FallingBlock { col: c as usize, kind: e.1, visual_y: (e.0 * ROW_UNITS) as u64, target_row: to as usize };
            assert(column_falls(g, c, k) == rest.push(b));
            assert(e.0 < to);
            assert(b.visual_y < b.target_row * ROW_UNITS) by (nonlinear_arith)
                requires
                    b.visual_y == e.0 * ROW_UNITS,
                    b.target_row == to,
                    0 <= e.0 < to,
                    ROW_UNITS == 1_000_000,
            ;
            assert(to - settled_gap(g, c) == k - 1);
        }
    }
}

/// Every drop animation that settling a board calls for moves a block
/// strictly downward, within the board, to the cell where the settled board
/// holds a block of the same kind.
pub proof fn falls_move_blocks_down(g: Grid)
    ensures
        forall|i: int| 0 <= i < falls_of(g).len() ==> {
            let b = #[trigger] falls_of(g)[i];
            &&& b.col < COLS
            &&& b.target_row < ROWS
            &&& b.visual_y < b.target_row * ROW_UNITS
            &&& settled(g)[b.target_row as int][b.col as int] == Some(b.kind)
        },
{
    lemma_falls_upto(g, COLS as int);
}

proof fn lemma_falls_upto(g: Grid, n: int)
    requires
        0 <= n <= COLS,
    ensures
        forall|i: int| 0 <= i < falls_upto(g, n).len() ==> {
            let b = #[trigger] falls_upto(g, n)[i];
            &&& b.col < n
            &&& b.target_row < ROWS
            &&& b.visual_y < b.target_row * ROW_UNITS
            &&& settled(g)[b.target_row as int][b.col as int] == Some(b.kind)
        },
    decreases n,
{
    if n > 0 {
        lemma_falls_upto(g, n - 1);
        lemma_column_entries(g, n - 1, ROWS as int);
        lemma_column_falls(g, n - 1, column_blocks(g, n - 1).len() as int);
        let a = falls_upto(g, n - 1);
        let b = column_falls(g, n - 1, column_blocks(g, n - 1).len() as int);
        assert forall|i: int| 0 <= i < (a + b).len() implies {
            let x = #[trigger] (a + b)[i];
            &&& x.col < n
            &&& x.target_row < ROWS
            &&& x.visual_y < x.target_row * ROW_UNITS
            &&& settled(g)[x.target_row as int][x.col as int] == Some(x.kind)
        } by {
            if i < a.len() {
                assert((a + b)[i] == a[i]);
            } else {
                assert((a + b)[i] == b[i - a.len()]);
            }
        }
    }
}

/// `b` animates a block of `g` whose settled row differs from its row: the
/// `j`-th block of column `b.col`, with `j` the position of `b`'s landing row
/// in the settled column, dropping from its row to that landing row.
pub open spec fn animates_moved_block(g: Grid, b: FallingBlock) -> bool {
    let c = b.col as int;
    let j = b.target_row - settled_gap(g, c);
    &&& b.col < COLS
    &&& 0 <= j < column_blocks(g, c).len()
    &&& column_blocks(g, c)[j].0 != b.target_row
    &&& b.kind == column_blocks(g, c)[j].1
    &&& b.visual_y == column_blocks(g, c)[j].0 * ROW_UNITS
}

/// The `j`-th block of column `c` changes row when `g` settles.
pub open spec fn block_moves(g: Grid, c: int, j: int) -> bool {
    column_blocks(g, c)[j].0 != settled_gap(g, c) + j
}

proof fn lemma_column_falls_match(g: Grid, c: int, k: int)
    requires
        0 <= c < COLS,
        0 <= k <= column_blocks(g, c).len(),
    ensures
        forall|i: int| 0 <= i < column_falls(g, c, k).len() ==> {
            let b = #[trigger] column_falls(g, c, k)[i];
            &&& b.col == c
            &&& b.target_row < settled_gap(g, c) + k
            &&& animates_moved_block(g, b)
        },
        forall|i: int, j: int| 0 <= i < j < column_falls(g, c, k).len() ==>
            #[trigger] column_falls(g, c, k)[i].target_row < #[trigger] column_falls(g, c, k)[j].target_row,
        forall|j: int| 0 <= j < k && #[trigger] block_moves(g, c, j) ==>
            exists|i: int| 0 <= i < column_falls(g, c, k).len() && #[trigger] column_falls(g, c, k)[i].target_row == settled_gap(g, c) + j,
    decreases k,
{
    lemma_column_entries(g, c, ROWS as int);
    if k > 0 {
        lemma_column_falls_match(g, c, k - 1);
        let e = column_blocks(g, c)[k - 1];
        let gap = settled_gap(g, c);
        let to = gap + k - 1;
        let rest = column_falls(g, c, k - 1);
        let all = column_falls(g, c, k);
        if e.0 != to {
            let b = FallingBlock { col: c as usize, kind: e.1, visual_y: (e.0 * ROW_UNITS) as u64, target_row: to as usize };
            assert(all == rest.push(b));
            assert(all[rest.len() as int] == b);
            assert(animates_moved_block(g, b));
            assert forall|i: int| 0 <= i < all.len() implies {
                let x = #[trigger] all[i];
                &&& x.col == c
                &&& x.target_row < gap + k
                &&& animates_moved_block(g, x)
            } by {
                if i < rest.len() {
                    assert(all[i] == rest[i]);
                }
            }
            assert forall|i: int, j: int| 0 <= i < j < all.len() implies #[trigger] all[i].target_row < #[trigger] all[j].target_row by {
                assert(all[i] == rest[i]);
                if j < rest.len() {
                    assert(all[j] == rest[j]);
                }
            }
            assert forall|j: int| 0 <= j < k && #[trigger] block_moves(g, c, j) implies exists|i: int|
                0 <= i < all.len() && #[trigger] all[i].target_row == gap + j by {
                if j < k - 1 {
                    let i = choose|i: int| 0 <= i < rest.len() && #[trigger] rest[i].target_row == gap + j;
                    assert(all[i] == rest[i]);
                } else {
                    assert(all[rest.len() as int].target_row == gap + j);
                }
            }
        } else {
            assert(all == rest);
            assert forall|j: int| 0 <= j < k && #[trigger] block_moves(g, c, j) implies exists|i: int|
                0 <= i < all.len() && #[trigger] all[i].target_row == gap + j by {
                if j < k - 1 {
                    let i = choose|i: int| 0 <= i < rest.len() && #[trigger] rest[i].target_row == gap + j;
                    assert(all[i] == rest[i]);
                }
            }
        }
    }
}

proof fn lemma_falls_upto_match(g: Grid, n: int)
    requires
        0 <= n <= COLS,
    ensures
        forall|i: int| 0 <= i < falls_upto(g, n).len() ==> {
            let b = #[trigger] falls_upto(g, n)[i];
            &&& b.col < n
            &&& animates_moved_block(g, b)
        },
        forall|i: int, j: int| 0 <= i < j < falls_upto(g, n).len() ==> {
            let x = #[trigger] falls_upto(g, n)[i];
            let y = #[trigger] falls_upto(g, n)[j];
            x.col < y.col || (x.col == y.col && x.target_row < y.target_row)
        },
        forall|c: int, j: int| 0 <= c < n && 0 <= j < column_blocks(g, c).len() && #[trigger] block_moves(g, c, j) ==>
            exists|i: int| 0 <= i < falls_upto(g, n).len() && #[trigger] falls_upto(g, n)[i].col == c
                && falls_upto(g, n)[i].target_row == settled_gap(g, c) + j,
    decreases n,
{
    if n > 0 {
        lemma_falls_upto_match(g, n - 1);
        lemma_column_entries(g, n - 1, ROWS as int);
        let len = column_blocks(g, n - 1).len() as int;
        lemma_column_falls_match(g, n - 1, len);
        let a = falls_upto(g, n - 1);
        let b = column_falls(g, n - 1, len);
        let f = falls_upto(g, n);
        assert(f == a + b);
        assert forall|i: int| 0 <= i < f.len() implies {
            let x = #[trigger] f[i];
            &&& x.col < n
            &&& animates_moved_block(g, x)
        } by {
            if i < a.len() {
                assert(f[i] == a[i]);
            } else {
                assert(f[i] == b[i - a.len()]);
            }
        }
        assert forall|i: int, j: int| 0 <= i < j < f.len() implies {
            let x = #[trigger] f[i];
            let y = #[trigger] f[j];
            x.col < y.col || (x.col == y.col && x.target_row < y.target_row)
        } by {
            if j < a.len() {
                assert(f[i] == a[i]);
                assert(f[j] == a[j]);
            } else if i < a.len() {
                assert(f[i] == a[i]);
                assert(f[j] == b[j - a.len()]);
            } else {
                assert(f[i] == b[i - a.len()]);
                assert(f[j] == b[j - a.len()]);
            }
        }
        assert forall|c: int, j: int| 0 <= c < n && 0 <= j < column_blocks(g, c).len() && #[trigger] block_moves(g, c, j) implies
            exists|i: int| 0 <= i < f.len() && #[trigger] f[i].col == c && f[i].target_row == settled_gap(g, c) + j by {
            if c < n - 1 {
                let i = choose|i: int| 0 <= i < a.len() && #[trigger] a[i].col == c && a[i].target_row == settled_gap(g, c) + j;
                assert(f[i] == a[i]);
            } else {
                let t = choose|t: int| 0 <= t < b.len() && #[trigger] b[t].target_row == settled_gap(g, c) + j;
                assert(f[a.len() + t] == b[t]);
            }
        }
    }
}

/// Settling a board starts exactly one drop animation for each block whose
/// row changes and none for the others: every animation drops a block that
/// moves, from its row to its settled row, with its kind; every block that
/// moves has an animation landing on its settled cell; and no two
/// animations land on the same cell.
pub proof fn falls_match_moved_blocks(g: Grid)
    ensures
        forall|i: int| 0 <= i < falls_of(g).len() ==> animates_moved_block(g, #[trigger] falls_of(g)[i]),
        forall|c: int, j: int| 0 <= c < COLS && 0 <= j < column_blocks(g, c).len() && #[trigger] block_moves(g, c, j) ==>
            exists|i: int| 0 <= i < falls_of(g).len() && #[trigger] falls_of(g)[i].col == c
                && falls_of(g)[i].target_row == settled_gap(g, c) + j,
        forall|i: int, j: int| 0 <= i < falls_of(g).len() && 0 <= j < falls_of(g).len() && i != j ==>
            (#[trigger] falls_of(g)[i].col, falls_of(g)[i].target_row) != (#[trigger] falls_of(g)[j].col, falls_of(g)[j].target_row),
{
    lemma_falls_upto_match(g, COLS as int);
    let f = falls_of(g);
    assert forall|i: int, j: int| 0 <= i < f.len() && 0 <= j < f.len() && i != j implies
        (#[trigger] f[i].col, f[i].target_row) != (#[trigger] f[j].col, f[j].target_row) by {
        if i < j {
            assert(f[i].col < f[j].col || (f[i].col == f[j].col && f[i].target_row < f[j].target_row));
        } else {
            assert(f[j].col < f[i].col || (f[j].col == f[i].col && f[j].target_row < f[i].target_row));
        }
    }
}

/// A piece with a block that does not collide lies within the columns
/// (allowing for the empty columns of its grid) and above the floor.
pub proof fn lemma_in_bounds(g: Grid, p: Piece)
    requires
        has_block(p.shape),
        !collides(g, p),
    ensures
        -3 <= p.x <= COLS - 1,
        p.y < ROWS,
        lockable(p),
{
    lemma_fits_inside(g, p);
    let (r0, c0) = choose|r: int, c: int| 0 <= r < 4 && 0 <= c < 4 && #[trigger] at(p.shape, r, c) != 0;
    assert(p.filled(r0, c0));
}

/// Spawning from a sound game with no explosion running gives a consistent
/// game.
pub proof fn lemma_spawn_consistent(v: GameView, w: GameView)
    requires
        sound(v),
        v.clearing_rows.len() == 0,
        spawn_step(v, w),
    ensures
        consistent(w),
{
    assert(at(w.current.shape, 1, 1) != 0);
}

/// Looking for full rows in a sound game with no explosion running gives a
/// consistent game.
pub proof fn lemma_clear_consistent(v: GameView, w: GameView, bursts: Seq<Burst>)
    requires
        sound(v),
        v.clearing_rows.len() == 0,
        clear_step(v, w, bursts),
    ensures
        consistent(w),
{
    lemma_full_rows(v.board, ROWS as int);
    if full_row_list(v.board).len() == 0 {
        lemma_spawn_consistent(v, w);
    }
}

/// Locking a piece that lies inside the board of a sound game with no
/// explosion running gives a consistent game.
pub proof fn lemma_lock_consistent(v: GameView, w: GameView, bursts: Seq<Burst>)
    requires
        sound(v),
        v.clearing_rows.len() == 0,
        lock_step(v, w, bursts),
    ensures
        consistent(w),
{
    let v1 = GameView { board: locked(v.board, v.current), ..v };
    assert(grid_shaped(v1.board));
    lemma_clear_consistent(v1, w, bursts);
}

/// Ending an explosion in a sound game gives a consistent game.
pub proof fn lemma_finish_clear_consistent(v: GameView, w: GameView, bursts: Seq<Burst>)
    requires
        sound(v),
        v.lines + cleared_count(v) <= u32::MAX,
        finish_clear_step(v, w, bursts),
    ensures
        consistent(w),
{
    let count = cleared_count(v);
    let before = cleared(v.board, v.clearing_rows);
    let lines = v.lines + count;
    falls_move_blocks_down(before);
    let v1 = GameView {
        board: settled(before),
        clearing_rows: Seq::empty(),
        falling_blocks: falls_of(before),
        lines: lines as u32,
        score: (v.score + line_score(count) * v.level) as u32,
        level: (lines / 10 + 1) as u32,
        ..v
    };
    assert(grid_shaped(v1.board));
    assert(sound(v1));
    if falls_of(before).len() == 0 {
        lemma_clear_consistent(v1, w, bursts);
    }
}

/// The kick search returns the piece itself or the turned piece, moved at
/// most two columns, where it fits.
pub(crate) proof fn lemma_kicked(g: Grid, pr: Piece, p: Piece, i: int)
    requires
        i32::MIN + 2 <= pr.x <= i32::MAX - 2,
    ensures
        kicked(g, pr, p, i) == p || (!collides(g, kicked(g, pr, p, i)) && kicked(g, pr, p, i).shape == pr.shape
            && kicked(g, pr, p, i).y == pr.y && kicked(g, pr, p, i).kind == pr.kind
            && pr.x - 2 <= kicked(g, pr, p, i).x <= pr.x + 2),
    decreases 5 - i,
{
    if i < 5 && collides(g, pr.shifted(kick(i), 0)) {
        lemma_kicked(g, pr, p, i + 1);
    }
}

/// A move attempt never takes a piece that is clear of the stack into it.
pub proof fn moving_keeps_piece_clear(g: Grid, p: Piece, dx: int, dy: int)
    requires
        !collides(g, p),
    ensures
        !collides(g, moved(g, p, dx, dy).0),
{
}

/// A piece clear of the stack is still clear of it at the row where it
/// comes to rest, and that row is the only resting row.
pub proof fn dropped_piece_fits(g: Grid, p: Piece, gy: int)
    requires
        !collides(g, p),
        rests_at(g, p, gy),
    ensures
        !collides(g, p.at_row(gy)),
        drop_row(g, p) == gy,
{
    lemma_drop_row(g, p, gy);
    if gy == p.y {
        assert(p.at_row(gy) == p);
    }
}

/// The drop interval is 0.8 s at level 1, never grows as the level rises,
/// and never falls below 50 ms.
pub proof fn fall_interval_shrinks(a: int, b: int)
    requires
        1 <= a <= b,
    ensures
        fall_interval_at(1) == BASE_INTERVAL_US,
        MIN_INTERVAL_US <= fall_interval_at(b) <= fall_interval_at(a) <= BASE_INTERVAL_US,
{
}

/// Every burst is a block of one of the listed rows, with that block's kind.
pub proof fn bursts_are_row_blocks(g: Grid, rows: Seq<usize>)
    ensures
        forall|i: int| 0 <= i < bursts_of(g, rows).len() ==> {
            let b = #[trigger] bursts_of(g, rows)[i];
            rows.contains(b.row) && b.col < COLS && g[b.row as int][b.col as int] == Some(b.kind)
        },
{
    lemma_bursts_upto(g, rows, rows.len() as int);
}

proof fn lemma_row_bursts(g: Grid, r: usize, n: int)
    requires
        0 <= n <= COLS,
    ensures
        forall|i: int| 0 <= i < row_bursts(g, r, n).len() ==> {
            let b = #[trigger] row_bursts(g, r, n)[i];
            b.row == r && b.col < n && g[b.row as int][b.col as int] == Some(b.kind)
        },
    decreases n,
{
    if n > 0 {
        lemma_row_bursts(g, r, n - 1);
        let rest = row_bursts(g, r, n - 1);
        match g[r as int][n - 1] {
            Some(k) => {
                let all = row_bursts(g, r, n);
                assert(all == rest.push(Burst { row: r, col: (n - 1) as usize, kind: k }));
                assert forall|i: int| 0 <= i < all.len() implies {
                    let b = #[trigger] all[i];
                    b.row == r && b.col < n && g[b.row as int][b.col as int] == Some(b.kind)
                } by {
                    if i < rest.len() {
                        assert(all[i] == rest[i]);
                    }
                }
            },
            None => {},
        }
    }
}

proof fn lemma_bursts_upto(g: Grid, rows: Seq<usize>, k: int)
    requires
        0 <= k <= rows.len(),
    ensures
        forall|i: int| 0 <= i < bursts_upto(g, rows, k).len() ==> {
            let b = #[trigger] bursts_upto(g, rows, k)[i];
            rows.contains(b.row) && b.col < COLS && g[b.row as int][b.col as int] == Some(b.kind)
        },
    decreases k,
{
    if k > 0 {
        lemma_bursts_upto(g, rows, k - 1);
        lemma_row_bursts(g, rows[k - 1], COLS as int);
        let a = bursts_upto(g, rows, k - 1);
        let b = row_bursts(g, rows[k - 1], COLS as int);
        assert forall|i: int| 0 <= i < (a + b).len() implies {
            let x = #[trigger] (a + b)[i];
            rows.contains(x.row) && x.col < COLS && g[x.row as int][x.col as int] == Some(x.kind)
        } by {
            if i < a.len() {
                assert((a + b)[i] == a[i]);
            } else {
                assert((a + b)[i] == b[i - a.len()]);
                assert(rows[k - 1] == b[i - a.len()].row);
            }
        }
    }
}

} // verus!
