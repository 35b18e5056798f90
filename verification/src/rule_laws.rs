use vstd::prelude::*;

use crate::board::{cleared, collides, full_row_list, locked, Grid};
use crate::game::{Burst, FallingBlock, HeldKeys, PressedKeys, MIN_INTERVAL_US};
use crate::piece::Piece;
use crate::rules::{
    advanced, bursts_of, bursts_upto, clear_step, drop_points, landed, row_bursts, drop_row, fall_interval_at, finish_clear_step, frame_step, hard_drop_step, in_play,
    keys_step, rotated_piece, turned, GameView,
};
use crate::scoring::line_score;
use crate::shapes::{COLS, ROWS};

verus! {

/// Clearing rows empties every cell of every listed row and leaves every
/// cell of the other rows as it was.
pub proof fn clearing_empties_listed_rows(g: Grid, rows: Seq<usize>, r: int, c: int)
    requires
        0 <= r < ROWS,
        0 <= c < COLS,
    ensures
        rows.contains(r as usize) ==> cleared(g, rows)[r][c] is None,
        !rows.contains(r as usize) ==> cleared(g, rows)[r][c] == g[r][c],
{
}

/// Looking for full rows, with or without spawning the next piece, leaves
/// the board, the score, the lines and the level alone.
pub proof fn looking_for_rows_keeps_counts(v: GameView, w: GameView, bursts: Seq<Burst>)
    requires
        clear_step(v, w, bursts),
    ensures
        w.score == v.score,
        w.lines == v.lines,
        w.level == v.level,
        w.board == v.board,
{
}

/// Ending an explosion adds exactly the number of exploding rows to the
/// line count, adds the base score of that many rows times the level before
/// the clear to the score, and sets the level to one more than a tenth of
/// the lines; none of the exploding rows holds a block once they are
/// emptied.
pub proof fn ending_explosion_counts_lines(v: GameView, w: GameView, bursts: Seq<Burst>)
    requires
        finish_clear_step(v, w, bursts),
        v.clearing_rows.len() <= ROWS,
        v.lines + v.clearing_rows.len() <= u32::MAX,
        v.score + line_score(v.clearing_rows.len() as int) * v.level <= u32::MAX,
    ensures
        w.lines == v.lines + v.clearing_rows.len(),
        w.score == v.score + line_score(v.clearing_rows.len() as int) * v.level,
        w.level == w.lines / 10 + 1,
        forall|i: int, c: int| 0 <= i < v.clearing_rows.len() && 0 <= c < COLS && v.clearing_rows[i] < ROWS ==>
            #[trigger] cleared(v.board, v.clearing_rows)[v.clearing_rows[i] as int][c] is None,
{
    assert forall|i: int, c: int| 0 <= i < v.clearing_rows.len() && 0 <= c < COLS && v.clearing_rows[i] < ROWS implies
        #[trigger] cleared(v.board, v.clearing_rows)[v.clearing_rows[i] as int][c] is None by {
        assert(v.clearing_rows.contains(v.clearing_rows[i]));
        clearing_empties_listed_rows(v.board, v.clearing_rows, v.clearing_rows[i] as int, c);
    }
    let before = cleared(v.board, v.clearing_rows);
    let count = v.clearing_rows.len();
    let lines = v.lines + count;
    let v1 = GameView {
        board: crate::board::settled(before),
        clearing_rows: Seq::empty(),
        falling_blocks: crate::rules::falls_of(before),
        lines: lines as u32,
        score: (v.score + line_score(count as int) * v.level) as u32,
        level: (lines / 10 + 1) as u32,
        ..v
    };
    if crate::rules::falls_of(before).len() == 0 {
        looking_for_rows_keeps_counts(v1, w, bursts);
    }
}

/// The drop interval is 0.8 s at level 1, and each level up shortens it by
/// exactly 7 ms until it reaches the 50 ms floor, where it stays.
pub proof fn interval_steps_down_by_level(l: int)
    requires
        l >= 1,
    ensures
        fall_interval_at(1) == 800_000,
        fall_interval_at(l) >= 50_000,
        fall_interval_at(l) - 7_000 >= 50_000 ==> fall_interval_at(l + 1) == fall_interval_at(l) - 7_000,
        fall_interval_at(l) - 7_000 < 50_000 ==> fall_interval_at(l + 1) == 50_000,
{
}

/// A rotation attempt turns the piece a quarter clockwise and moves it by the
/// first of the offsets 0, -1, +1, -2, +2 columns at which the turned piece
/// fits; if it fits at none, the piece stays as it was.
pub proof fn rotation_tries_kicks_in_order(g: Grid, p: Piece)
    requires
        i32::MIN + 2 <= p.x <= i32::MAX - 2,
    ensures
        ({
            let pr = Piece { shape: turned(p.shape), ..p };
            rotated_piece(g, p) == if !collides(g, pr.shifted(0, 0)) {
                pr.shifted(0, 0)
            } else if !collides(g, pr.shifted(-1, 0)) {
                pr.shifted(-1, 0)
            } else if !collides(g, pr.shifted(1, 0)) {
                pr.shifted(1, 0)
            } else if !collides(g, pr.shifted(-2, 0)) {
                pr.shifted(-2, 0)
            } else if !collides(g, pr.shifted(2, 0)) {
                pr.shifted(2, 0)
            } else {
                p
            }
        }),
{
    reveal_with_fuel(crate::rules::kicked, 6);
}

/// A hard drop adds two points to the score for every row the piece falls,
/// from whichever row it starts, to the row where it comes to rest.
pub proof fn hard_drop_scores_rows_fallen(v: GameView, w: GameView, bursts: Seq<Burst>)
    requires
        hard_drop_step(v, w, bursts),
        0 <= v.score + 2 * (drop_row(v.board, v.current) - v.current.y) <= u32::MAX,
    ensures
        w.score == v.score + 2 * (drop_row(v.board, v.current) - v.current.y),
        w.score == v.score + drop_points(v, false),
{
    let gy = drop_row(v.board, v.current);
    let v1 = GameView { current: v.current.at_row(gy), score: (v.score + 2 * (gy - v.current.y)) as u32, ..v };
    looking_for_rows_keeps_counts(GameView { board: crate::board::locked(v1.board, v1.current), ..v1 }, w, bursts);
}

/// Pressing hard drop while in play adds the drop's points, after the
/// rotation pressed in the same frame, to the score.
pub proof fn pressed_hard_drop_scores(v: GameView, keys: PressedKeys, w: GameView, bursts: Seq<Burst>)
    requires
        keys_step(v, keys, w, bursts),
        in_play(v),
        keys.hard_drop,
        0 <= v.score + drop_points(v, keys.rotate) <= u32::MAX,
    ensures
        w.score == v.score + drop_points(v, keys.rotate),
{
    let v1 = if keys.rotate { GameView { current: rotated_piece(v.board, v.current), ..v } } else { v };
    hard_drop_scores_rows_fallen(v1, w, bursts);
}

/// In play, a frame in which the left or the right key is held, after a
/// frame in which it was not, shifts the piece one column that way at once
/// (left when both are held) if it fits there, and otherwise leaves it; the
/// held direction is remembered.  The frame is short enough that the piece
/// does not also fall.
pub proof fn held_key_shifts_piece(v: GameView, keys: HeldKeys, dt: int, w: GameView, bursts: Seq<Burst>)
    requires
        frame_step(v, keys, dt, w, bursts),
        in_play(v),
        0 <= dt,
        v.fall_timer + dt < MIN_INTERVAL_US,
        keys.left || keys.right,
        v.last_dir != (if keys.left { -1int } else { 1int }),
    ensures
        ({
            let d = if keys.left { -1int } else { 1int };
            &&& w.last_dir == d
            &&& !collides(v.board, v.current.shifted(d, 0)) ==> w.current == v.current.shifted(d, 0)
            &&& collides(v.board, v.current.shifted(d, 0)) ==> w.current == v.current
            &&& w.fall_timer == v.fall_timer + dt
            &&& bursts.len() == 0
        }),
{
    assert(fall_interval_at(v.level as int) >= MIN_INTERVAL_US);
}

/// In play, a frame with no sideways key held does not shift the piece and
/// forgets the last direction.
pub proof fn released_keys_do_not_shift(v: GameView, keys: HeldKeys, dt: int, w: GameView, bursts: Seq<Burst>)
    requires
        frame_step(v, keys, dt, w, bursts),
        in_play(v),
        0 <= dt,
        v.fall_timer + dt < MIN_INTERVAL_US,
        !keys.left,
        !keys.right,
    ensures
        w.current == v.current,
        w.last_dir == 0,
        !w.das_active,
{
    assert(fall_interval_at(v.level as int) >= MIN_INTERVAL_US);
}

/// Every block of every listed row explodes: each one appears among the
/// bursts, at its row and column and with its kind.
pub proof fn every_row_block_bursts(g: Grid, rows: Seq<usize>, i: int, c: int)
    requires
        0 <= i < rows.len(),
        0 <= c < COLS,
        g[rows[i] as int][c] is Some,
    ensures
        bursts_of(g, rows).contains(Burst { row: rows[i], col: c as usize, kind: g[rows[i] as int][c]->0 }),
{
    lemma_bursts_cover(g, rows, rows.len() as int, i, c);
}

proof fn lemma_row_bursts_cover(g: Grid, r: usize, n: int, c: int)
    requires
        0 <= c < n <= COLS,
        g[r as int][c] is Some,
    ensures
        row_bursts(g, r, n).contains(Burst { row: r, col: c as usize, kind: g[r as int][c]->0 }),
    decreases n,
{
    let b = Burst { row: r, col: c as usize, kind: g[r as int][c]->0 };
    let rest = row_bursts(g, r, n - 1);
    if c < n - 1 {
        lemma_row_bursts_cover(g, r, n - 1, c);
        let j = choose|j: int| 0 <= j < rest.len() && rest[j] == b;
        match g[r as int][n - 1] {
            Some(k) => {
                let all = rest.push(Burst { row: r, col: (n - 1) as usize, kind: k });
                assert(row_bursts(g, r, n) == all);
                assert(all[j] == b);
            },
            None => {},
        }
    } else {
        let all = rest.push(b);
        assert(row_bursts(g, r, n) == all);
        assert(all[rest.len() as int] == b);
    }
}

proof fn lemma_bursts_cover(g: Grid, rows: Seq<usize>, k: int, i: int, c: int)
    requires
        0 <= i < k <= rows.len(),
        0 <= c < COLS,
        g[rows[i] as int][c] is Some,
    ensures
        bursts_upto(g, rows, k).contains(Burst { row: rows[i], col: c as usize, kind: g[rows[i] as int][c]->0 }),
    decreases k,
{
    let b = Burst { row: rows[i], col: c as usize, kind: g[rows[i] as int][c]->0 };
    let a = bursts_upto(g, rows, k - 1);
    let r = row_bursts(g, rows[k - 1], COLS as int);
    assert(bursts_upto(g, rows, k) == a + r);
    if i < k - 1 {
        lemma_bursts_cover(g, rows, k - 1, i, c);
        let j = choose|j: int| 0 <= j < a.len() && a[j] == b;
        assert((a + r)[j] == b);
    } else {
        lemma_row_bursts_cover(g, rows[i], COLS as int, c);
        let j = choose|j: int| 0 <= j < r.len() && r[j] == b;
        assert((a + r)[a.len() + j] == b);
    }
}

/// A drop animation advances at five rows per second, never upward, and
/// stops at its row: advancing it by one time and then by another is the same as
/// advancing it by their sum, and it has landed exactly when its start
/// height plus five row heights per second of the elapsed time reaches its
/// row.
pub proof fn falling_blocks_move_steadily(b: FallingBlock, d1: int, d2: int)
    requires
        0 <= d1,
        0 <= d2,
        b.visual_y + 5 * (d1 + d2) <= u64::MAX,
        b.target_row * 1_000_000 <= u64::MAX,
    ensures
        advanced(advanced(b, d1), d2) == advanced(b, d1 + d2),
        landed(advanced(b, d1)) <==> b.visual_y + 5 * d1 >= b.target_row * 1_000_000,
        b.visual_y <= b.target_row * 1_000_000 ==> b.visual_y <= advanced(b, d1).visual_y <= b.target_row * 1_000_000,
        advanced(b, d1).col == b.col && advanced(b, d1).target_row == b.target_row && advanced(b, d1).kind == b.kind,
{
}

/// In play, holding the same sideways direction as in the last frame shifts
/// the piece again once the held time reaches 150 ms before the first
/// repeat and 50 ms between repeats; before that the piece stays and the
/// time accumulates.
pub proof fn held_key_repeats_after_delay(v: GameView, keys: HeldKeys, dt: int, w: GameView, bursts: Seq<Burst>)
    requires
        frame_step(v, keys, dt, w, bursts),
        in_play(v),
        0 <= dt,
        v.fall_timer + dt < MIN_INTERVAL_US,
        keys.left || keys.right,
        v.last_dir == (if keys.left { -1int } else { 1int }),
    ensures
        ({
            let d = if keys.left { -1int } else { 1int };
            let threshold = if v.das_active { 50_000int } else { 150_000int };
            &&& v.das_timer + dt < threshold ==> w.current == v.current && w.das_timer == v.das_timer + dt
                && w.das_active == v.das_active
            &&& v.das_timer + dt >= threshold ==> w.das_timer == 0 && w.das_active && (if collides(
                v.board,
                v.current.shifted(d, 0),
            ) {
                w.current == v.current
            } else {
                w.current == v.current.shifted(d, 0)
            })
            &&& w.last_dir == d
        }),
{
    assert(fall_interval_at(v.level as int) >= MIN_INTERVAL_US);
}

/// In play with no sideways key held, once the drop interval has passed
/// (50 ms while down is held, else the level's interval) the piece moves
/// down a row if it fits there, restarting both timers; otherwise the
/// interval counts toward the lock delay, and once 500 ms of it are spent
/// the piece is locked: then either full rows start exploding or the queued
/// piece enters at the top.
pub proof fn piece_falls_each_interval(v: GameView, keys: HeldKeys, dt: int, w: GameView, bursts: Seq<Burst>)
    requires
        frame_step(v, keys, dt, w, bursts),
        in_play(v),
        0 <= dt,
        !keys.left,
        !keys.right,
    ensures
        ({
            let interval = if keys.down { 50_000int } else { fall_interval_at(v.level as int) };
            &&& v.fall_timer + dt < interval ==> w.current == v.current && w.fall_timer == v.fall_timer + dt
            &&& v.fall_timer + dt >= interval && !collides(v.board, v.current.shifted(0, 1)) ==> w.current
                == v.current.shifted(0, 1) && w.fall_timer == 0 && w.lock_timer == 0
            &&& v.fall_timer + dt >= interval && collides(v.board, v.current.shifted(0, 1)) && v.lock_timer + interval
                < 500_000 ==> w.current == v.current && w.lock_timer == v.lock_timer + interval && w.fall_timer == 0
            &&& v.fall_timer + dt >= interval && collides(v.board, v.current.shifted(0, 1)) && v.lock_timer + interval
                >= 500_000 ==> (w.clearing_rows == full_row_list(locked(v.board, v.current)) && w.clearing_rows.len() > 0)
                || (w.current.kind == v.next_kind && w.current.y == 0 && w.current.x == 3 && w.next_kind < 7)
        }),
{
}

/// Locking writes the piece's kind into every board cell its blocks cover
/// and changes no other cell, so the piece, where it stands, now collides
/// with the board if any of its blocks is on it.
pub proof fn locked_piece_is_on_board(g: Grid, p: Piece, r: int, c: int)
    requires
        0 <= r < ROWS,
        0 <= c < COLS,
    ensures
        p.covers(c, r) ==> locked(g, p)[r][c] == Some(p.kind),
        !p.covers(c, r) ==> locked(g, p)[r][c] == g[r][c],
        p.covers(c, r) ==> collides(locked(g, p), p),
{
    if p.covers(c, r) {
        assert(p.filled(r - p.y, c - p.x));
        assert(crate::board::blocked(locked(g, p), p.x + (c - p.x), p.y + (r - p.y)));
    }
}

} // verus!
