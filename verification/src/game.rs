use vstd::prelude::*;

use crate::board::{
    blocked, cleared, collides, column_blocks, empty_grid, full_row_list, ghost_y, lemma_column_entries,
    lemma_fits_inside, lemma_full_rows, lockable, locked, settled, settled_gap, Board,
};
use crate::laws::{
    lemma_clear_consistent, lemma_drop_row, lemma_finish_clear_consistent, lemma_in_bounds, lemma_kicked,
    lemma_lock_consistent, lemma_spawn_consistent, lemma_turned,
};
use crate::rules::{
    advanced, bursts_of, drop_points, bursts_upto, clear_fits, clear_step, cleared_count, column_falls, consistent, drop_row, fall_interval_at, falls_of,
    falls_upto, finish_clear_step, finish_fall_step, frame_step, fresh, hard_drop_step, held_dir, keys_step, kick,
    kicked, landed, lock_step, moved, rotated_piece, row_bursts, shift_step, sound, spawn_step, turned, GameView,
};
use crate::chance::random_below;
use crate::piece::Piece;
use crate::scoring::{line_score, score_for};
use crate::shapes::{at, has_block, is_rotation, rotate, rotation_keeps_blocks, spawn_block, COLS, KINDS, ROWS};

verus! {

/// How long the line-clear explosion lasts, in microseconds.
pub const CLEAR_ANIM_US: u64 = 450_000;

/// Units of height per row in which falling blocks are animated.
pub const ROW_UNITS: u64 = 1_000_000;

/// Speed of the post-clear drop animation in `ROW_UNITS` per microsecond,
/// that is five rows per second.
pub const FALL_SPEED: u64 = 5;

/// A held sideways key first repeats after this many microseconds ...
pub const DAS_DELAY_US: u64 = 150_000;

/// ... and then every this many microseconds.
pub const DAS_REPEAT_US: u64 = 50_000;

/// The drop interval while the down key is held, in microseconds.
pub const SOFT_DROP_US: u64 = 50_000;

/// A piece resting on the stack locks once this much drop time has passed.
pub const LOCK_DELAY_US: u64 = 500_000;

/// The drop interval at level 1 ...
pub const BASE_INTERVAL_US: u64 = 800_000;

/// ... shortened by this much per level ...
pub const INTERVAL_STEP_US: u64 = 7_000;

/// ... down to this floor.
pub const MIN_INTERVAL_US: u64 = 50_000;

/// A block that drops, after a line clear, from where it was to its new row.
/// `visual_y` is its drawn height in `ROW_UNITS`; the board already holds it
/// at `target_row`.
#[derive(Clone, Copy)]
pub struct FallingBlock {
    pub col: usize,
    pub kind: u8,
    pub visual_y: u64,
    pub target_row: usize,
}

/// A block of a cleared row that explodes.
#[derive(Clone, Copy)]
pub struct Burst {
    pub row: usize,
    pub col: usize,
    pub kind: u8,
}

/// The keys held down during a frame.
#[derive(Clone, Copy)]
pub struct HeldKeys {
    pub left: bool,
    pub right: bool,
    pub down: bool,
}

/// The keys pressed at the start of a frame.
#[derive(Clone, Copy)]
pub struct PressedKeys {
    pub restart: bool,
    pub rotate: bool,
    pub hard_drop: bool,
}

/// Everything a game holds.  Times are in microseconds.
pub struct Game {
    pub board: Board,
    /// The piece under control.
    pub current: Piece,
    /// The kind of the piece that comes next.
    pub next_kind: usize,
    pub score: u32,
    pub lines: u32,
    pub level: u32,
    /// Time since the last automatic drop.
    pub fall_timer: u64,
    /// Drop time spent resting on the stack.
    pub lock_timer: u64,
    pub game_over: bool,
    /// Time the sideways key has been held since its last shift.
    pub das_timer: u64,
    /// Whether the held sideways key has started repeating.
    pub das_active: bool,
    /// The sideways direction of the last frame: -1, 0 or 1.
    pub last_dir: i32,
    /// The rows exploding now; while there are any, the clear animation runs.
    pub clearing_rows: Vec<usize>,
    pub clear_anim_timer: u64,
    /// The blocks dropping after a clear; while there are any, the drop
    /// animation runs.
    pub falling_blocks: Vec<FallingBlock>,
}

impl View for Game {
    type V = GameView;

    open spec fn view(&self) -> GameView {
        GameView {
            board: self.board@,
            current: self.current,
            next_kind: self.next_kind,
            score: self.score,
            lines: self.lines,
            level: self.level,
            fall_timer: self.fall_timer,
            lock_timer: self.lock_timer,
            game_over: self.game_over,
            das_timer: self.das_timer,
            das_active: self.das_active,
            last_dir: self.last_dir,
            clearing_rows: self.clearing_rows@,
            clear_anim_timer: self.clear_anim_timer,
            falling_blocks: self.falling_blocks@,
        }
    }
}

/// A random piece kind, 0 to 6.
fn next_kind() -> (k: usize)
    ensures
        k < KINDS,
{
    random_below(KINDS)
}

/// A sound game's piece has a block, sits within the column and row bounds
/// of a sound game, and so fits the coordinate limits of the piece
/// functions.
proof fn lemma_in_bounds_of_sound(v: GameView)
    requires
        sound(v),
    ensures
        has_block(v.current.shape),
        v.current.coords_fit(),
        i32::MIN + 2 <= v.current.x <= i32::MAX - 5,
        0 <= v.current.y < ROWS,
{
}

/// The `i`-th kick offset.
fn kick_offset(i: usize) -> (k: i32)
    requires
        i < 5,
    ensures
        k == kick(i as int),
        i == 0 ==> k == 0,
        i == 1 ==> k == -1,
        i == 2 ==> k == 1,
        i == 3 ==> k == -2,
        i == 4 ==> k == 2,
{
    if i == 0 {
        0
    } else if i == 1 {
        -1
    } else if i == 2 {
        1
    } else if i == 3 {
        -2
    } else {
        2
    }
}

/// The piece after a rotation attempt on `board`: turned a quarter clockwise
/// and moved by the first of the kicks 0, -1, +1, -2, +2 columns at which it
/// fits, or unchanged if it fits at none.
pub fn rotation_attempt(board: &Board, piece: &Piece) -> (res: Piece)
    requires
        i32::MIN + 2 <= piece.x <= i32::MAX - 5,
        piece.y + 3 <= i32::MAX,
    ensures
        res == rotated_piece(board@, *piece),
        has_block(piece.shape) ==> has_block(res.shape),
        !collides(board@, *piece) ==> !collides(board@, res),
        res.y == piece.y,
        res.kind == piece.kind,
        piece.x - 2 <= res.x <= piece.x + 2,
        res == *piece || (is_rotation(piece.shape, res.shape) && !collides(board@, res)),
{
    let ghost p0 = *piece;
    let rotated = rotate(&piece.shape);
    let mut cur = *piece;
    cur.shape = rotated;
    proof {
        lemma_turned(p0.shape, rotated);
    }
    let ghost pr = cur;
    assert(pr == Piece { shape: turned(p0.shape), ..p0 });
    proof {
        rotation_keeps_blocks(p0.shape, rotated);
        lemma_kicked(board@, pr, p0, 0);
    }
    let mut i: usize = 0;
    while i < 5
        invariant
            i <= 5,
            cur == pr,
            pr == (Piece { shape: rotated, ..p0 }),
            turned(p0.shape) == rotated,
            is_rotation(p0.shape, rotated),
            has_block(p0.shape) ==> has_block(rotated),
            kicked(board@, pr, p0, 0) == p0 || (!collides(board@, kicked(board@, pr, p0, 0))
                && kicked(board@, pr, p0, 0).shape == pr.shape && kicked(board@, pr, p0, 0).y == pr.y
                && kicked(board@, pr, p0, 0).kind == pr.kind && pr.x - 2 <= kicked(board@, pr, p0, 0).x
                <= pr.x + 2),
            p0 == *piece,
            i32::MIN + 2 <= p0.x <= i32::MAX - 5,
            p0.y + 3 <= i32::MAX,
            kicked(board@, pr, p0, 0) == kicked(board@, pr, p0, i as int),
        decreases 5 - i,
    {
        let k = kick_offset(i);
        cur.x += k;
        assert(cur == pr.shifted(kick(i as int), 0));
        if !board.collides(&cur) {
            assert(kicked(board@, pr, p0, i as int) == cur);
            assert(rotated_piece(board@, p0) == cur);
            return cur;
        }
        cur.x -= k;
        i += 1;
    }
    assert(kicked(board@, pr, p0, 5) == p0);
    *piece
}

impl FallingBlock {
    /// Whether the block has reached its row.
    pub fn is_done(&self) -> (res: bool)
        ensures
            res == landed(*self),
    {
        let t = self.target_row as u64;
        let q = self.visual_y / ROW_UNITS;
        assert(q >= t <==> self.visual_y >= t * ROW_UNITS) by (nonlinear_arith)
            requires
                q == self.visual_y / ROW_UNITS,
                ROW_UNITS == 1_000_000,
                t >= 0,
        ;
        q >= t
    }
}

impl Game {
    /// The game satisfies every invariant.
    pub open spec fn wf(&self) -> bool {
        consistent(self@)
    }

    /// A new game: an empty board, a random piece at the top and a random
    /// next kind, nothing scored, level 1.
    pub fn new() -> (g: Game)
        ensures
            fresh(g@),
            g.wf(),
    {
        let kind = next_kind();
        let nk = next_kind();
        Game::start_with(kind, nk)
    }

    /// A new game whose first piece is of kind `kind` and whose next kind is
    /// `next`: an empty board, nothing scored, level 1.
    pub fn start_with(kind: usize, next: usize) -> (g: Game)
        requires
            kind < KINDS,
            next < KINDS,
        ensures
            fresh(g@),
            g.current.kind == kind,
            g.next_kind == next,
            g.wf(),
    {
        let g = Game {
            board: Board::new(),
            current: Piece::new(kind),
            next_kind: next,
            score: 0,
            lines: 0,
            level: 1,
            fall_timer: 0,
            lock_timer: 0,
            game_over: false,
            das_timer: 0,
            das_active: false,
            last_dir: 0,
            clearing_rows: Vec::new(),
            clear_anim_timer: 0,
            falling_blocks: Vec::new(),
        };
        proof {
            assert(g.board@ == empty_grid());
            assert(!collides(g.board@, g.current)) by {
                assert forall|r: int, c: int| #[trigger] g.current.filled(r, c) implies !blocked(g.board@, g.current.x + c, g.current.y + r) by {
                    assert(spawn_block(kind as int, r, c));
                }
            }
        }
        g
    }

    /// The automatic drop interval at the current level.
    pub fn fall_interval(&self) -> (t: u64)
        ensures
            t == fall_interval_at(self.level as int),
            t >= MIN_INTERVAL_US,
            self.level >= 1 && BASE_INTERVAL_US - (self.level - 1) * INTERVAL_STEP_US >= MIN_INTERVAL_US ==> t
                == BASE_INTERVAL_US - (self.level - 1) * INTERVAL_STEP_US,
            self.level >= 1 && BASE_INTERVAL_US - (self.level - 1) * INTERVAL_STEP_US < MIN_INTERVAL_US ==> t
                == MIN_INTERVAL_US,
    {
        let t: i64 = BASE_INTERVAL_US as i64 - (self.level as i64 - 1) * INTERVAL_STEP_US as i64;
        if t < MIN_INTERVAL_US as i64 {
            MIN_INTERVAL_US
        } else {
            t as u64
        }
    }

    /// Moves the piece by (`dx`, `dy`) if it fits there and reports whether
    /// it moved; otherwise leaves it where it was.
    pub fn try_move(&mut self, dx: i32, dy: i32) -> (ok: bool)
        requires
            i32::MIN <= old(self).current.x + dx,
            i32::MIN <= old(self).current.y + dy,
            old(self).current.x + dx + 3 <= i32::MAX,
            old(self).current.y + dy + 3 <= i32::MAX,
        ensures
            (final(self).current, ok) == moved(old(self)@.board, old(self).current, dx as int, dy as int),
            final(self)@ == (GameView { current: final(self).current, ..old(self)@ }),
            !collides(old(self)@.board, old(self).current) ==> !collides(final(self)@.board, final(self).current),
    {
        self.current.x += dx;
        self.current.y += dy;
        if self.board.collides(&self.current) {
            self.current.x -= dx;
            self.current.y -= dy;
            false
        } else {
            true
        }
    }

    /// Spawns the queued kind at the top, queues a random kind, restarts the
    /// drop and lock timers, and ends the game if the new piece does not fit.
    pub fn spawn_next(&mut self)
        requires
            old(self).next_kind < KINDS,
        ensures
            spawn_step(old(self)@, final(self)@),
            sound(old(self)@) && old(self).clearing_rows@.len() == 0 ==> consistent(final(self)@),
    {
        let drawn = next_kind();
        self.spawn_with(drawn);
    }

    /// Spawns the queued kind at the top, queues `drawn`, restarts the drop
    /// and lock timers, and ends the game if the new piece does not fit.
    pub fn spawn_with(&mut self, drawn: usize)
        requires
            old(self).next_kind < KINDS,
            drawn < KINDS,
        ensures
            spawn_step(old(self)@, final(self)@),
            final(self).next_kind == drawn,
            sound(old(self)@) && old(self).clearing_rows@.len() == 0 ==> consistent(final(self)@),
    {
        let kind = self.next_kind;
        self.next_kind = drawn;
        self.current = Piece::new(kind);
        self.fall_timer = 0;
        self.lock_timer = 0;
        if self.board.collides(&self.current) {
            self.game_over = true;
        }
        assert(self@ =~= GameView {
            current: self.current,
            next_kind: self.next_kind,
            fall_timer: 0,
            lock_timer: 0,
            game_over: old(self).game_over || collides(old(self)@.board, self.current),
            ..old(self)@
        });
        proof {
            if sound(old(self)@) && old(self).clearing_rows@.len() == 0 {
                lemma_spawn_consistent(old(self)@, self@);
            }
        }
    }

    /// The blocks of the listed rows, row by row, left to right, as bursts
    /// for the explosion.
    pub fn explosion_bursts(&self, rows: &[usize]) -> (res: Vec<Burst>)
        requires
            forall|i: int| 0 <= i < rows@.len() ==> #[trigger] rows@[i] < ROWS,
        ensures
            res@ == bursts_of(self.board@, rows@),
    {
        let mut res: Vec<Burst> = Vec::new();
        for i in 0..rows.len()
            invariant
                forall|j: int| 0 <= j < rows@.len() ==> #[trigger] rows@[j] < ROWS,
                res@ == bursts_upto(self.board@, rows@, i as int),
        {
            let r = rows[i];
            let ghost before = res@;
            for c in 0..COLS
                invariant
                    r < ROWS,
                    r == rows@[i as int],
                    res@ == before + row_bursts(self.board@, r, c as int),
            {
                let ghost mid = res@;
                if let Some(k) = self.board.cells[r][c] {
                    res.push(Burst { row: r, col: c, kind: k });
                    assert(res@ == before + row_bursts(self.board@, r, c + 1));
                } else {
                    assert(res@ == before + row_bursts(self.board@, r, c + 1));
                }
            }
        }
        res
    }

    /// Looks for full rows: with none, spawns the next piece; otherwise
    /// starts their explosion and returns its bursts.
    pub fn begin_clear(&mut self) -> (bursts: Vec<Burst>)
        requires
            old(self).next_kind < KINDS,
        ensures
            clear_step(old(self)@, final(self)@, bursts@),
            sound(old(self)@) && old(self).clearing_rows@.len() == 0 ==> consistent(final(self)@),
    {
        let rows = self.board.full_rows();
        proof {
            lemma_full_rows(self.board@, ROWS as int);
        }
        let ghost v = self@;
        if rows.is_empty() {
            self.spawn_next();
            proof {
                if sound(v) && v.clearing_rows.len() == 0 {
                    lemma_clear_consistent(v, self@, Seq::empty());
                }
            }
            Vec::new()
        } else {
            let bursts = self.explosion_bursts(rows.as_slice());
            self.clearing_rows = rows;
            self.clear_anim_timer = 0;
            assert(self@ =~= GameView { clearing_rows: full_row_list(old(self)@.board), clear_anim_timer: 0, ..old(self)@ });
            proof {
                if sound(v) && v.clearing_rows.len() == 0 {
                    lemma_clear_consistent(v, self@, bursts@);
                }
            }
            bursts
        }
    }

    /// Turns the piece a quarter clockwise, trying the kicks 0, -1, +1, -2,
    /// +2 columns in turn; if it fits at none, the turn is cancelled.
    pub fn try_rotate(&mut self)
        requires
            i32::MIN + 2 <= old(self).current.x <= i32::MAX - 5,
            old(self).current.y + 3 <= i32::MAX,
        ensures
            final(self)@ == (GameView { current: rotated_piece(old(self)@.board, old(self).current), ..old(self)@ }),
            has_block(old(self).current.shape) ==> has_block(final(self).current.shape),
            !collides(old(self)@.board, old(self).current) ==> !collides(final(self)@.board, final(self).current),
            final(self).current.y == old(self).current.y,
            final(self).current.kind == old(self).current.kind,
            old(self).current.x - 2 <= final(self).current.x <= old(self).current.x + 2,
            final(self).current == old(self).current || (is_rotation(old(self).current.shape, final(self).current.shape)
                && !collides(final(self)@.board, final(self).current)),
    {
        self.current = rotation_attempt(&self.board, &self.current);
    }

    /// Writes the piece into the board, then looks for full rows.
    pub fn lock_piece(&mut self) -> (bursts: Vec<Burst>)
        requires
            old(self).current.coords_fit(),
            lockable(old(self).current),
            old(self).next_kind < KINDS,
        ensures
            lock_step(old(self)@, final(self)@, bursts@),
            sound(old(self)@) && old(self).clearing_rows@.len() == 0 ==> consistent(final(self)@),
    {
        self.board.lock(&self.current);
        assert(self@ == GameView { board: locked(old(self)@.board, old(self).current), ..old(self)@ });
        let bursts = self.begin_clear();
        proof {
            if sound(old(self)@) && old(self).clearing_rows@.len() == 0 {
                lemma_lock_consistent(old(self)@, self@, bursts@);
            }
        }
        bursts
    }

    /// Drops the piece straight to where it rests, scores two points per row
    /// fallen, and locks it.
    pub fn hard_drop(&mut self) -> (bursts: Vec<Burst>)
        requires
            has_block(old(self).current.shape),
            old(self).current.coords_fit(),
            old(self).current.y + 4 <= i32::MAX,
            lockable(old(self).current),
            old(self).score + 2 * (drop_row(old(self)@.board, old(self).current) - old(self).current.y) <= u32::MAX,
            old(self).next_kind < KINDS,
        ensures
            hard_drop_step(old(self)@, final(self)@, bursts@),
            old(self).current.y <= drop_row(old(self)@.board, old(self).current) < ROWS,
            sound(old(self)@) && old(self).clearing_rows@.len() == 0 ==> consistent(final(self)@),
    {
        let gy = ghost_y(&self.board, &self.current);
        proof {
            lemma_drop_row(self.board@, self.current, gy as int);
            if gy > self.current.y {
                lemma_fits_inside(self.board@, self.current.at_row(gy as int));
                let (r0, c0) = choose|r: int, c: int| 0 <= r < 4 && 0 <= c < 4 && #[trigger] at(self.current.shape, r, c) != 0;
                assert(self.current.at_row(gy as int).filled(r0, c0));
            } else {
                let (r0, c0) = choose|r: int, c: int| 0 <= r < 4 && 0 <= c < 4 && #[trigger] at(self.current.shape, r, c) != 0;
                assert(self.current.filled(r0, c0));
                assert(self.current.at_row(gy as int) == self.current);
            }
        }
        let dropped = gy - self.current.y;
        self.current.y = gy;
        self.score += dropped as u32 * 2;
        assert(self@ == GameView {
            current: old(self).current.at_row(gy as int),
            score: (old(self).score + 2 * (gy - old(self).current.y)) as u32,
            ..old(self)@
        });
        let ghost v2 = self@;
        let bursts = self.lock_piece();
        proof {
            if sound(old(self)@) && old(self).clearing_rows@.len() == 0 {
                assert(sound(v2));
            }
        }
        bursts
    }

    /// The points a hard drop would score now, after the rotation that
    /// `rotate` asks for: two per row the piece would fall.
    pub fn hard_drop_points(&self, rotate: bool) -> (pts: u64)
        requires
            self.wf(),
        ensures
            pts == drop_points(self@, rotate),
    {
        proof {
            lemma_in_bounds_of_sound(self@);
        }
        let p = if rotate {
            rotation_attempt(&self.board, &self.current)
        } else {
            self.current
        };
        let gy = ghost_y(&self.board, &p);
        proof {
            lemma_drop_row(self.board@, p, gy as int);
            if gy > p.y {
                lemma_in_bounds(self.board@, p.at_row(gy as int));
            }
        }
        2 * ((gy - p.y) as u64)
    }

    /// The drop animations that settling `before` calls for, column by
    /// column: each block moving from its row to its settled row starts at
    /// its old height.
    pub fn falls_for(before: &Board) -> (res: Vec<FallingBlock>)
        ensures
            res@ == falls_of(before@),
    {
        let mut res: Vec<FallingBlock> = Vec::new();
        for c in 0..COLS
            invariant
                res@ == falls_upto(before@, c as int),
        {
            let mut cells_before: Vec<(usize, u8)> = Vec::new();
            for r in 0..ROWS
                invariant
                    c < COLS,
                    cells_before@ == crate::board::column_entries(before@, c as int, r as int),
            {
                if let Some(k) = before.cells[r][c] {
                    cells_before.push((r, k));
                }
            }
            proof {
                lemma_column_entries(before@, c as int, ROWS as int);
            }
            let n = cells_before.len();
            let target_start = ROWS - n;
            let ghost head = res@;
            for i in 0..n
                invariant
                    c < COLS,
                    n == cells_before@.len(),
                    cells_before@ == column_blocks(before@, c as int),
                    target_start == settled_gap(before@, c as int),
                    n <= ROWS,
                    forall|j: int| 0 <= j < n ==> #[trigger] cells_before@[j].0 < ROWS,
                    res@ == head + column_falls(before@, c as int, i as int),
            {
                let (from_row, kind) = cells_before[i];
                let to_row = target_start + i;
                if from_row != to_row {
                    res.push(FallingBlock { col: c, kind, visual_y: from_row as u64 * ROW_UNITS, target_row: to_row });
                }
                assert(res@ == head + column_falls(before@, c as int, i + 1));
            }
        }
        res
    }

    /// Ends the explosion: empties the exploding rows, lets every column
    /// settle, counts the lines and the score (the base score times the
    /// level), recomputes the level, and starts drop animations for the
    /// blocks that moved; with none, looks for full rows at once.
    pub fn finish_clear(&mut self) -> (bursts: Vec<Burst>)
        requires
            old(self).next_kind < KINDS,
            forall|i: int| 0 <= i < old(self).clearing_rows@.len() ==> #[trigger] old(self).clearing_rows@[i] < ROWS,
            clear_fits(old(self)@),
        ensures
            finish_clear_step(old(self)@, final(self)@, bursts@),
            sound(old(self)@) ==> consistent(final(self)@),
    {
        let count = self.clearing_rows.len() as u32;
        self.board.clear_rows(self.clearing_rows.as_slice());
        self.clearing_rows.clear();
        let before = self.board;
        self.board.apply_gravity();
        self.falling_blocks = Game::falls_for(&before);
        self.lines += count;
        self.score += score_for(count) * self.level;
        self.level = self.lines / 10 + 1;
        proof {
            let v = old(self)@;
            let cl = cleared(v.board, v.clearing_rows);
            assert(before@ == cl);
            assert(self@ =~= GameView {
                board: settled(cl),
                clearing_rows: Seq::empty(),
                falling_blocks: falls_of(cl),
                lines: (v.lines + cleared_count(v)) as u32,
                score: (v.score + line_score(cleared_count(v)) * v.level) as u32,
                level: ((v.lines + cleared_count(v)) / 10 + 1) as u32,
                ..v
            });
        }
        if self.falling_blocks.is_empty() {
            let bursts = self.begin_clear();
            proof {
                if sound(old(self)@) {
                    lemma_finish_clear_consistent(old(self)@, self@, bursts@);
                }
            }
            return bursts;
        }
        proof {
            if sound(old(self)@) {
                lemma_finish_clear_consistent(old(self)@, self@, Seq::empty());
            }
        }
        Vec::new()
    }

    /// Ends the drop animation and looks for full rows again.
    pub fn finish_fall(&mut self) -> (bursts: Vec<Burst>)
        requires
            old(self).next_kind < KINDS,
        ensures
            finish_fall_step(old(self)@, final(self)@, bursts@),
            sound(old(self)@) && old(self).clearing_rows@.len() == 0 ==> consistent(final(self)@),
    {
        self.falling_blocks.clear();
        assert(self@ =~= GameView { falling_blocks: Seq::empty(), ..old(self)@ });
        self.begin_clear()
    }

    /// The cells (column, row) that dropping blocks are headed for, in the
    /// order of the animations.
    pub fn hidden_cells(&self) -> (res: Vec<(usize, usize)>)
        ensures
            res@.len() == self.falling_blocks@.len(),
            forall|i: int| 0 <= i < res@.len() ==> #[trigger] res@[i] == (self.falling_blocks@[i].col, self.falling_blocks@[i].target_row),
    {
        let mut res: Vec<(usize, usize)> = Vec::new();
        for i in 0..self.falling_blocks.len()
            invariant
                res@.len() == i,
                forall|j: int| 0 <= j < i ==> #[trigger] res@[j] == (self.falling_blocks@[j].col, self.falling_blocks@[j].target_row),
        {
            let fb = self.falling_blocks[i];
            res.push((fb.col, fb.target_row));
        }
        res
    }

    /// One frame of `dt` microseconds with the given keys held: runs the
    /// explosion or the drop animation while one is on; otherwise shifts the
    /// piece sideways (with delayed auto shift) and lets it fall, locking it
    /// once its lock delay is spent.  Returns the bursts of any rows that
    /// start exploding.  Nothing happens once the game is over.
    pub fn update(&mut self, dt: u32, keys: HeldKeys) -> (bursts: Vec<Burst>)
        requires
            old(self).wf(),
            !old(self).game_over && old(self).clearing_rows@.len() > 0 && old(self).clear_anim_timer + dt
                >= CLEAR_ANIM_US ==> clear_fits(old(self)@),
        ensures
            frame_step(old(self)@, keys, dt as int, final(self)@, bursts@),
            final(self).wf(),
            final(self).game_over || final(self).clearing_rows@.len() > 0 || final(self).falling_blocks@.len() > 0
                || !collides(final(self)@.board, final(self).current),
    {
        let ghost v = self@;
        if self.game_over {
            return Vec::new();
        }
        if !self.clearing_rows.is_empty() {
            self.clear_anim_timer += dt as u64;
            if self.clear_anim_timer >= CLEAR_ANIM_US {
                let ghost v1 = self@;
                let bursts = self.finish_clear();
                proof {
                    lemma_finish_clear_consistent(v1, self@, bursts@);
                }
                return bursts;
            }
            return Vec::new();
        }
        if !self.falling_blocks.is_empty() {
            let mut moved_blocks: Vec<FallingBlock> = Vec::new();
            let mut all_done = true;
            let n = self.falling_blocks.len();
            for i in 0..n
                invariant
                    n == self.falling_blocks@.len(),
                    self@ == v,
                    sound(v),
                    moved_blocks@ == Seq::new(i as nat, |j: int| advanced(v.falling_blocks[j], dt as int)),
                    all_done <==> forall|j: int| 0 <= j < i ==> #[trigger] landed(moved_blocks@[j]),
            {
                let fb = self.falling_blocks[i];
                assert(fb == v.falling_blocks[i as int]);
                let y = fb.visual_y + FALL_SPEED * dt as u64;
                let end = fb.target_row as u64 * ROW_UNITS;
                let nb = FallingBlock { visual_y: if y < end { y } else { end }, ..fb };
                if !nb.is_done() {
                    all_done = false;
                }
                let ghost prev = moved_blocks@;
                moved_blocks.push(nb);
                assert(moved_blocks@[i as int] == nb);
                assert(forall|j: int| 0 <= j < i ==> moved_blocks@[j] == prev[j]);
                assert(moved_blocks@ =~= Seq::new((i + 1) as nat, |j: int| advanced(v.falling_blocks[j], dt as int)));
            }
            self.falling_blocks = moved_blocks;
            let ghost v1 = self@;
            assert(v1 =~= GameView {
                falling_blocks: Seq::new(v.falling_blocks.len(), |j: int| advanced(v.falling_blocks[j], dt as int)),
                ..v
            });
            if all_done {
                let bursts = self.finish_fall();
                proof {
                    lemma_clear_consistent(GameView { falling_blocks: Seq::empty(), ..v1 }, self@, bursts@);
                }
                return bursts;
            }
            return Vec::new();
        }
        proof {
            lemma_in_bounds(self@.board, self.current);
        }
        let dir: i32 = if keys.left {
            -1
        } else if keys.right {
            1
        } else {
            0
        };
        if dir != 0 {
            if dir != self.last_dir {
                self.try_move(dir, 0);
                self.das_timer = 0;
                self.das_active = false;
                self.last_dir = dir;
            } else {
                self.das_timer += dt as u64;
                let threshold = if self.das_active {
                    DAS_REPEAT_US
                } else {
                    DAS_DELAY_US
                };
                if self.das_timer >= threshold {
                    self.try_move(dir, 0);
                    self.das_timer = 0;
                    self.das_active = true;
                }
            }
        } else {
            self.last_dir = 0;
            self.das_active = false;
            self.das_timer = 0;
        }
        let ghost v1 = self@;
        assert(v1 == shift_step(v, held_dir(keys), dt as int));
        proof {
            lemma_in_bounds(self@.board, self.current);
        }
        let interval = if keys.down {
            SOFT_DROP_US
        } else {
            self.fall_interval()
        };
        self.fall_timer += dt as u64;
        if self.fall_timer >= interval {
            self.fall_timer = 0;
            if !self.try_move(0, 1) {
                self.lock_timer += interval;
                if self.lock_timer >= LOCK_DELAY_US {
                    let ghost v2 = self@;
                    let bursts = self.lock_piece();
                    proof {
                        lemma_lock_consistent(v2, self@, bursts@);
                    }
                    return bursts;
                }
            } else {
                self.lock_timer = 0;
                proof {
                    lemma_in_bounds(self@.board, self.current);
                }
            }
        }
        Vec::new()
    }

    /// The keys pressed at the start of a frame.  After a game over, restart
    /// starts a new game.  While an animation runs nothing happens.
    /// Otherwise rotate turns the piece and hard drop drops and locks it,
    /// returning the bursts of any rows that start exploding.
    pub fn handle_keys(&mut self, keys: PressedKeys) -> (bursts: Vec<Burst>)
        requires
            old(self).wf(),
            !old(self).game_over && old(self).clearing_rows@.len() == 0 && old(self).falling_blocks@.len() == 0
                && keys.hard_drop ==> old(self).score + drop_points(old(self)@, keys.rotate) <= u32::MAX,
        ensures
            keys_step(old(self)@, keys, final(self)@, bursts@),
            final(self).wf(),
            final(self).game_over || final(self).clearing_rows@.len() > 0 || final(self).falling_blocks@.len() > 0
                || !collides(final(self)@.board, final(self).current),
    {
        let ghost v = self@;
        if self.game_over {
            if keys.restart {
                *self = Game::new();
            }
            return Vec::new();
        }
        if !self.clearing_rows.is_empty() || !self.falling_blocks.is_empty() {
            return Vec::new();
        }
        proof {
            lemma_in_bounds(self@.board, self.current);
        }
        if keys.rotate {
            self.try_rotate();
            proof {
                lemma_in_bounds(self@.board, self.current);
            }
        }
        if keys.hard_drop {
            let ghost v1 = self@;
            let bursts = self.hard_drop();
            proof {
                let gy = drop_row(v1.board, v1.current);
                let v2 = GameView {
                    current: v1.current.at_row(gy),
                    score: (v1.score + 2 * (gy - v1.current.y)) as u32,
                    ..v1
                };
                lemma_lock_consistent(v2, self@, bursts@);
            }
            return bursts;
        }
        Vec::new()
    }
}

} // verus!
