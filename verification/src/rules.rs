use vstd::prelude::*;

use crate::board::{
    cleared, collides, column_blocks, empty_grid, full_row_list, grid_shaped, locked, settled, settled_gap, Grid,
};
use crate::game::{
    Burst, FallingBlock, HeldKeys, PressedKeys, BASE_INTERVAL_US, CLEAR_ANIM_US, DAS_DELAY_US, DAS_REPEAT_US,
    FALL_SPEED, INTERVAL_STEP_US, LOCK_DELAY_US, MIN_INTERVAL_US, ROW_UNITS, SOFT_DROP_US,
};
use crate::piece::{spawn_x, Piece};
use crate::scoring::line_score;
use crate::shapes::{at, has_block, is_rotation, spawn_block, Shape, COLS, KINDS, ROWS};

verus! {

/// A game as plain values.
#[verifier::ext_equal]
pub struct GameView {
    pub board: Grid,
    pub current: Piece,
    pub next_kind: usize,
    pub score: u32,
    pub lines: u32,
    pub level: u32,
    pub fall_timer: u64,
    pub lock_timer: u64,
    pub game_over: bool,
    pub das_timer: u64,
    pub das_active: bool,
    pub last_dir: i32,
    pub clearing_rows: Seq<usize>,
    pub clear_anim_timer: u64,
    pub falling_blocks: Seq<FallingBlock>,
}

/// `p` is a freshly spawned piece of kind `kind`.
pub open spec fn is_spawned(p: Piece, kind: int) -> bool {
    &&& p.kind == kind
    &&& p.x == spawn_x()
    &&& p.y == 0
    &&& forall|r: int, c: int| 0 <= r < 4 && 0 <= c < 4 ==> #[trigger] at(p.shape, r, c) == (if spawn_block(kind, r, c) {
        1u8
    } else {
        0u8
    })
}

/// The automatic drop interval at a level: 0.8 s at level 1, 7 ms shorter
/// per level, never below 50 ms.
pub open spec fn fall_interval_at(level: int) -> int {
    let t = BASE_INTERVAL_US - (level - 1) * INTERVAL_STEP_US;
    if t < MIN_INTERVAL_US {
        MIN_INTERVAL_US as int
    } else {
        t
    }
}

/// The shape turned a quarter clockwise.
pub open spec fn turned(s: Shape) -> Shape {
    choose|rot: Shape| is_rotation(s, rot)
}

/// The horizontal offsets tried, in order, when a rotation collides.
pub open spec fn kick(i: int) -> int {
    if i == 0 {
        0
    } else if i == 1 {
        -1
    } else if i == 2 {
        1
    } else if i == 3 {
        -2
    } else {
        2
    }
}

/// The turned piece `pr` shifted by the first kick, from the `i`-th on, at
/// which it fits; `p` if none fits.
pub open spec fn kicked(g: Grid, pr: Piece, p: Piece, i: int) -> Piece
    decreases 5 - i,
{
    if i >= 5 {
        p
    } else if !collides(g, pr.shifted(kick(i), 0)) {
        pr.shifted(kick(i), 0)
    } else {
        kicked(g, pr, p, i + 1)
    }
}

/// The piece after a rotation attempt: turned a quarter clockwise and moved
/// by the first of the kicks 0, -1, +1, -2, +2 columns at which it fits;
/// unchanged if it fits at none.
pub open spec fn rotated_piece(g: Grid, p: Piece) -> Piece {
    kicked(g, Piece { shape: turned(p.shape), ..p }, p, 0)
}

/// The piece after a move attempt, and whether it moved: shifted by
/// (`dx`, `dy`) if it fits there, else unchanged.
pub open spec fn moved(g: Grid, p: Piece, dx: int, dy: int) -> (Piece, bool) {
    if collides(g, p.shifted(dx, dy)) {
        (p, false)
    } else {
        (p.shifted(dx, dy), true)
    }
}

/// The piece rests at row `gy` when dropped: it fits at every row from just
/// below its own down to `gy`, and not at `gy + 1`.
pub open spec fn rests_at(g: Grid, p: Piece, gy: int) -> bool {
    &&& p.y <= gy
    &&& forall|y: int| p.y < y <= gy ==> !#[trigger] collides(g, p.at_row(y))
    &&& collides(g, p.at_row(gy + 1))
}

/// The row at which the piece comes to rest when dropped.
pub open spec fn drop_row(g: Grid, p: Piece) -> int {
    choose|gy: int| rests_at(g, p, gy)
}

/// The bursts of row `r` among its first `n` columns.
pub open spec fn row_bursts(g: Grid, r: usize, n: int) -> Seq<Burst>
    decreases n,
{
    if n <= 0 {
        Seq::empty()
    } else {
        let rest = row_bursts(g, r, n - 1);
        match g[r as int][n - 1] {
            Some(k) => rest.push(Burst { row: r, col: (n - 1) as usize, kind: k }),
            None => rest,
        }
    }
}

/// The bursts of the first `i` listed rows, row by row, left to right.
pub open spec fn bursts_upto(g: Grid, rows: Seq<usize>, i: int) -> Seq<Burst>
    decreases i,
{
    if i <= 0 {
        Seq::empty()
    } else {
        bursts_upto(g, rows, i - 1) + row_bursts(g, rows[i - 1], COLS as int)
    }
}

/// Every block of the listed rows, row by row, left to right.
pub open spec fn bursts_of(g: Grid, rows: Seq<usize>) -> Seq<Burst> {
    bursts_upto(g, rows, rows.len() as int)
}

/// The drop animations of the first `k` blocks of column `c` of `g`: one for
/// each block whose settled row differs from its row.
pub open spec fn column_falls(g: Grid, c: int, k: int) -> Seq<FallingBlock>
    decreases k,
{
    if k <= 0 {
        Seq::empty()
    } else {
        let rest = column_falls(g, c, k - 1);
        let e = column_blocks(g, c)[k - 1];
        let to = settled_gap(g, c) + k - 1;
        if e.0 != to {
            rest.push(FallingBlock { col: c as usize, kind: e.1, visual_y: (e.0 * ROW_UNITS) as u64, target_row: to as usize })
        } else {
            rest
        }
    }
}

/// The drop animations of the first `n` columns, column by column.
pub open spec fn falls_upto(g: Grid, n: int) -> Seq<FallingBlock>
    decreases n,
{
    if n <= 0 {
        Seq::empty()
    } else {
        falls_upto(g, n - 1) + column_falls(g, n - 1, column_blocks(g, n - 1).len() as int)
    }
}

/// The drop animations that settling `g` calls for.
pub open spec fn falls_of(g: Grid) -> Seq<FallingBlock> {
    falls_upto(g, COLS as int)
}

/// A drop animation advanced by `dt`: `FALL_SPEED * dt` lower, but never past
/// its target row.
pub open spec fn advanced(b: FallingBlock, dt: int) -> FallingBlock {
    let y = b.visual_y + FALL_SPEED * dt;
    let end = b.target_row * ROW_UNITS;
    FallingBlock { visual_y: (if y < end { y } else { end }) as u64, ..b }
}

/// Whether a drop animation has reached its row.
pub open spec fn landed(b: FallingBlock) -> bool {
    b.visual_y >= b.target_row * ROW_UNITS
}

/// Neither animation runs, and the game is not over: the player has control.
pub open spec fn in_play(v: GameView) -> bool {
    !v.game_over && v.clearing_rows.len() == 0 && v.falling_blocks.len() == 0
}

/// The bounds that every game keeps.
pub open spec fn sound(v: GameView) -> bool {
    &&& grid_shaped(v.board)
    &&& v.next_kind < KINDS
    &&& v.current.kind < KINDS
    &&& has_block(v.current.shape)
    &&& -3 <= v.current.x <= COLS - 1
    &&& 0 <= v.current.y < ROWS
    &&& v.level == v.lines / 10 + 1
    &&& v.fall_timer < BASE_INTERVAL_US
    &&& v.das_timer < DAS_DELAY_US
    &&& v.lock_timer < LOCK_DELAY_US + BASE_INTERVAL_US
    &&& v.clear_anim_timer <= CLEAR_ANIM_US + u32::MAX
    &&& -1 <= v.last_dir <= 1
    &&& v.clearing_rows.len() <= ROWS
    &&& forall|i: int| 0 <= i < v.clearing_rows.len() ==> #[trigger] v.clearing_rows[i] < ROWS
    &&& forall|i: int| 0 <= i < v.falling_blocks.len() ==> {
        let b = #[trigger] v.falling_blocks[i];
        &&& b.col < COLS
        &&& b.target_row < ROWS
        &&& b.visual_y <= b.target_row * ROW_UNITS
    }
}

/// A consistent game: `sound`, the clear animation not yet over while it
/// runs, and, while the player has control, the piece inside the board clear
/// of the stack and its lock delay not yet spent.
pub open spec fn consistent(v: GameView) -> bool {
    &&& sound(v)
    &&& v.clearing_rows.len() > 0 ==> v.clear_anim_timer < CLEAR_ANIM_US
    &&& in_play(v) ==> !collides(v.board, v.current) && v.lock_timer < LOCK_DELAY_US
}

/// `w` is a new game: an empty board, a fresh piece, nothing scored, level 1.
pub open spec fn fresh(w: GameView) -> bool {
    &&& w.board == empty_grid()
    &&& w.current.kind < KINDS
    &&& is_spawned(w.current, w.current.kind as int)
    &&& w.next_kind < KINDS
    &&& w.score == 0
    &&& w.lines == 0
    &&& w.level == 1
    &&& w.fall_timer == 0
    &&& w.lock_timer == 0
    &&& !w.game_over
    &&& w.das_timer == 0
    &&& !w.das_active
    &&& w.last_dir == 0
    &&& w.clearing_rows.len() == 0
    &&& w.clear_anim_timer == 0
    &&& w.falling_blocks.len() == 0
}

/// `w` follows `v` by spawning the next piece: the queued kind enters at
/// the top, a new kind (whichever came up) is queued, both timers restart,
/// and the game is over if the new piece does not fit.
pub open spec fn spawn_step(v: GameView, w: GameView) -> bool {
    &&& is_spawned(w.current, v.next_kind as int)
    &&& w.next_kind < KINDS
    &&& w == GameView {
        current: w.current,
        next_kind: w.next_kind,
        fall_timer: 0,
        lock_timer: 0,
        game_over: v.game_over || collides(v.board, w.current),
        ..v
    }
}

/// `w` and `bursts` follow `v` by looking for full rows: with none, the
/// next piece spawns; otherwise they start exploding.
pub open spec fn clear_step(v: GameView, w: GameView, bursts: Seq<Burst>) -> bool {
    let rows = full_row_list(v.board);
    if rows.len() == 0 {
        bursts.len() == 0 && spawn_step(v, w)
    } else {
        bursts == bursts_of(v.board, rows) && w == GameView { clearing_rows: rows, clear_anim_timer: 0, ..v }
    }
}

/// Locking the piece into the board, then looking for full rows.
pub open spec fn lock_step(v: GameView, w: GameView, bursts: Seq<Burst>) -> bool {
    clear_step(GameView { board: locked(v.board, v.current), ..v }, w, bursts)
}

/// Dropping the piece to where it rests, scoring two points per row fallen,
/// then locking it.
pub open spec fn hard_drop_step(v: GameView, w: GameView, bursts: Seq<Burst>) -> bool {
    let gy = drop_row(v.board, v.current);
    lock_step(
        GameView { current: v.current.at_row(gy), score: (v.score + 2 * (gy - v.current.y)) as u32, ..v },
        w,
        bursts,
    )
}

/// The number of exploding rows as the line counter takes it (a `u32`).
pub open spec fn cleared_count(v: GameView) -> int {
    (v.clearing_rows.len() as u32) as int
}

/// Ending the explosion keeps the line count and the score (base score
/// times level added) within a `u32`.
pub open spec fn clear_fits(v: GameView) -> bool {
    &&& v.lines + cleared_count(v) <= u32::MAX
    &&& v.score + line_score(cleared_count(v)) * v.level <= u32::MAX
}

/// The end of the explosion: the exploding rows are emptied, every column
/// settles, the lines and the score (the base score times the level) are
/// counted and the level recomputed, and drop animations start for the
/// blocks that moved; with none, full rows are looked for at once.
pub open spec fn finish_clear_step(v: GameView, w: GameView, bursts: Seq<Burst>) -> bool {
    let count = cleared_count(v);
    let before = cleared(v.board, v.clearing_rows);
    let lines = v.lines + count;
    let v1 = GameView {
        board: settled(before),
        clearing_rows: Seq::empty(),
        falling_blocks: falls_of(before),
        lines: lines as u32,
        score: (v.score + line_score(count) * v.level) as u32,
        level: (lines / 10 + 1) as u32,
        ..v
    };
    if falls_of(before).len() == 0 {
        clear_step(v1, w, bursts)
    } else {
        w == v1 && bursts.len() == 0
    }
}

/// The end of the drop animation: full rows are looked for again.
pub open spec fn finish_fall_step(v: GameView, w: GameView, bursts: Seq<Burst>) -> bool {
    clear_step(GameView { falling_blocks: Seq::empty(), ..v }, w, bursts)
}

/// The sideways direction the held keys ask for; left wins over right.
pub open spec fn held_dir(keys: HeldKeys) -> int {
    if keys.left {
        -1
    } else if keys.right {
        1
    } else {
        0
    }
}

/// Sideways movement with delayed auto shift: a new direction moves at once;
/// holding it moves again after `DAS_DELAY_US`, then every `DAS_REPEAT_US`;
/// releasing resets.
pub open spec fn shift_step(v: GameView, dir: int, dt: int) -> GameView {
    if dir != 0 {
        if dir != v.last_dir {
            GameView {
                current: moved(v.board, v.current, dir, 0).0,
                das_timer: 0,
                das_active: false,
                last_dir: dir as i32,
                ..v
            }
        } else {
            let t = v.das_timer + dt;
            let threshold = if v.das_active { DAS_REPEAT_US } else { DAS_DELAY_US };
            if t >= threshold {
                GameView { current: moved(v.board, v.current, dir, 0).0, das_timer: 0, das_active: true, ..v }
            } else {
                GameView { das_timer: t as u64, ..v }
            }
        }
    } else {
        GameView { last_dir: 0, das_active: false, das_timer: 0, ..v }
    }
}

/// Automatic drop: once the interval (`SOFT_DROP_US` while down is held) has
/// passed, the piece moves down a row; if it cannot, the interval counts
/// toward the lock delay, and once that is spent the piece locks.
pub open spec fn gravity_step(v: GameView, down: bool, dt: int, w: GameView, bursts: Seq<Burst>) -> bool {
    let interval = if down { SOFT_DROP_US as int } else { fall_interval_at(v.level as int) };
    let t = v.fall_timer + dt;
    if t >= interval {
        let (p, ok) = moved(v.board, v.current, 0, 1);
        if ok {
            w == GameView { fall_timer: 0, current: p, lock_timer: 0, ..v } && bursts.len() == 0
        } else {
            let lt = v.lock_timer + interval;
            let v1 = GameView { fall_timer: 0, lock_timer: lt as u64, ..v };
            if lt >= LOCK_DELAY_US {
                lock_step(v1, w, bursts)
            } else {
                w == v1 && bursts.len() == 0
            }
        }
    } else {
        w == GameView { fall_timer: t as u64, ..v } && bursts.len() == 0
    }
}

/// One frame of `dt` microseconds with the given keys held.
pub open spec fn frame_step(v: GameView, keys: HeldKeys, dt: int, w: GameView, bursts: Seq<Burst>) -> bool {
    if v.game_over {
        w == v && bursts.len() == 0
    } else if v.clearing_rows.len() > 0 {
        let t = v.clear_anim_timer + dt;
        let v1 = GameView { clear_anim_timer: t as u64, ..v };
        if t >= CLEAR_ANIM_US {
            finish_clear_step(v1, w, bursts)
        } else {
            w == v1 && bursts.len() == 0
        }
    } else if v.falling_blocks.len() > 0 {
        let falls = Seq::new(v.falling_blocks.len(), |i: int| advanced(v.falling_blocks[i], dt));
        let v1 = GameView { falling_blocks: falls, ..v };
        if forall|i: int| 0 <= i < falls.len() ==> #[trigger] landed(falls[i]) {
            finish_fall_step(v1, w, bursts)
        } else {
            w == v1 && bursts.len() == 0
        }
    } else {
        gravity_step(shift_step(v, held_dir(keys), dt), keys.down, dt, w, bursts)
    }
}

/// The points a hard drop scores when pressed in play, after the rotation
/// that the same key press asks for: two per row fallen.
pub open spec fn drop_points(v: GameView, rotate: bool) -> int {
    let p = if rotate { rotated_piece(v.board, v.current) } else { v.current };
    2 * (drop_row(v.board, p) - p.y)
}

/// The keys pressed at the start of a frame: after a game over, restart
/// starts a new game; during an animation nothing happens; otherwise rotate
/// turns the piece and hard drop drops and locks it.
pub open spec fn keys_step(v: GameView, keys: PressedKeys, w: GameView, bursts: Seq<Burst>) -> bool {
    if v.game_over {
        bursts.len() == 0 && (if keys.restart { fresh(w) } else { w == v })
    } else if v.clearing_rows.len() > 0 || v.falling_blocks.len() > 0 {
        w == v && bursts.len() == 0
    } else {
        let v1 = if keys.rotate { GameView { current: rotated_piece(v.board, v.current), ..v } } else { v };
        if keys.hard_drop {
            hard_drop_step(v1, w, bursts)
        } else {
            w == v1 && bursts.len() == 0
        }
    }
}

} // verus!
