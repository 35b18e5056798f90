use vstd::prelude::*;

use crate::piece::Piece;
use crate::shapes::{has_block, COLS, ROWS};

verus! {

/// The playfield as rows of cells: `None` is empty, `Some(kind)` a locked
/// block of that piece kind.
pub type Grid = Seq<Seq<Option<u8>>>;

/// The stack of locked blocks, `ROWS` rows of `COLS` cells.
#[derive(Clone, Copy)]
pub struct Board {
    pub cells: [[Option<u8>; COLS]; ROWS],
}

/// A board always has `ROWS` rows of `COLS` cells.
pub proof fn lemma_board_shaped(b: Board)
    ensures
        grid_shaped(b@),
{
}

impl View for Board {
    type V = Grid;

    open spec fn view(&self) -> Grid {
        Seq::new(ROWS as nat, |r: int| self.cells@[r]@)
    }
}

/// `g` has `ROWS` rows of `COLS` cells.
pub open spec fn grid_shaped(g: Grid) -> bool {
    g.len() == ROWS && forall|r: int| 0 <= r < ROWS ==> #[trigger] g[r].len() == COLS
}

/// The board with no block.
pub open spec fn empty_grid() -> Grid {
    Seq::new(ROWS as nat, |r: int| Seq::new(COLS as nat, |c: int| None::<u8>))
}

/// A block of a piece at column `cx`, row `cy` would hit a wall, the floor
/// or a locked block.  Cells above the top edge (`cy < 0`) are free.
pub open spec fn blocked(g: Grid, cx: int, cy: int) -> bool {
    cx < 0 || cx >= COLS || cy >= ROWS || (cy >= 0 && g[cy][cx] is Some)
}

/// Some block of the piece is `blocked`.
pub open spec fn collides(g: Grid, p: Piece) -> bool {
    exists|r: int, c: int| #[trigger] p.filled(r, c) && blocked(g, p.x + c, p.y + r)
}

/// Every block of the piece that lies at or below the top edge lies inside
/// the board.
pub open spec fn lockable(p: Piece) -> bool {
    forall|r: int, c: int|
        #[trigger] p.filled(r, c) && p.y + r >= 0 ==> 0 <= p.x + c < COLS && p.y + r < ROWS
}

/// The board after the piece's blocks are written into it.
pub open spec fn locked(g: Grid, p: Piece) -> Grid {
    Seq::new(
        ROWS as nat,
        |r: int| Seq::new(COLS as nat, |c: int| if p.covers(c, r) { Some(p.kind) } else { g[r][c] }),
    )
}

/// Every cell of row `r` holds a block.
pub open spec fn row_full(g: Grid, r: int) -> bool {
    forall|c: int| 0 <= c < COLS ==> #[trigger] g[r][c] is Some
}

/// The full rows among the first `n` rows, top to bottom.
pub open spec fn full_rows_upto(g: Grid, n: int) -> Seq<usize>
    decreases n,
{
    if n <= 0 {
        Seq::empty()
    } else if row_full(g, n - 1) {
        full_rows_upto(g, n - 1).push((n - 1) as usize)
    } else {
        full_rows_upto(g, n - 1)
    }
}

/// The full rows of the board, top to bottom.
pub open spec fn full_row_list(g: Grid) -> Seq<usize> {
    full_rows_upto(g, ROWS as int)
}

/// The board with the listed rows emptied.
pub open spec fn cleared(g: Grid, rows: Seq<usize>) -> Grid {
    Seq::new(
        ROWS as nat,
        |r: int| if rows.contains(r as usize) { Seq::new(COLS as nat, |c: int| None::<u8>) } else { g[r] },
    )
}

/// The blocks of column `c` among the first `n` rows, top to bottom, each
/// as its row and kind.
pub open spec fn column_entries(g: Grid, c: int, n: int) -> Seq<(usize, u8)>
    decreases n,
{
    if n <= 0 {
        Seq::empty()
    } else {
        let rest = column_entries(g, c, n - 1);
        match g[n - 1][c] {
            Some(k) => rest.push(((n - 1) as usize, k)),
            None => rest,
        }
    }
}

/// The blocks of column `c`, top to bottom.
pub open spec fn column_blocks(g: Grid, c: int) -> Seq<(usize, u8)> {
    column_entries(g, c, ROWS as int)
}

/// The number of empty cells above the blocks of column `c` once they
/// have settled.
pub open spec fn settled_gap(g: Grid, c: int) -> int {
    ROWS - column_blocks(g, c).len()
}

/// The board after every column's blocks drop, in order, to the floor.
pub open spec fn settled(g: Grid) -> Grid {
    Seq::new(
        ROWS as nat,
        |r: int|
            Seq::new(
                COLS as nat,
                |c: int|
                    if r < settled_gap(g, c) {
                        None::<u8>
                    } else {
                        Some(column_blocks(g, c)[r - settled_gap(g, c)].1)
                    },
            ),
    )
}

/// A column holds at most as many blocks as it has rows, and its entries
/// list strictly increasing rows below `n`.
pub proof fn lemma_column_entries(g: Grid, c: int, n: int)
    requires
        0 <= n <= ROWS,
    ensures
        column_entries(g, c, n).len() <= n,
        forall|i: int| 0 <= i < column_entries(g, c, n).len() ==> #[trigger] column_entries(g, c, n)[i].0 < n,
        forall|i: int, j: int| 0 <= i < j < column_entries(g, c, n).len() ==>
            #[trigger] column_entries(g, c, n)[i].0 < #[trigger] column_entries(g, c, n)[j].0,
        forall|i: int| 0 <= i < column_entries(g, c, n).len() ==>
            g[#[trigger] column_entries(g, c, n)[i].0 as int][c] == Some(column_entries(g, c, n)[i].1),
    decreases n,
{
    if n > 0 {
        lemma_column_entries(g, c, n - 1);
        let rest = column_entries(g, c, n - 1);
        match g[n - 1][c] {
            Some(k) => {
                let e = column_entries(g, c, n);
                assert(e == rest.push(((n - 1) as usize, k)));
                assert forall|i: int| 0 <= i < e.len() implies g[#[trigger] e[i].0 as int][c] == Some(e[i].1) by {
                    if i < rest.len() {
                        assert(e[i] == rest[i]);
                    }
                }
            },
            None => {},
        }
    }
}

/// The row at which the piece comes to rest when it falls straight down
/// from where it is: the piece fits at every row from just below its own
/// down to the returned row, and the next row down collides.  If even the
/// row just below collides, the piece's own row comes back.
pub fn ghost_y(board: &Board, piece: &Piece) -> (gy: i32)
    requires
        piece.coords_fit(),
        piece.y + 4 <= i32::MAX,
        has_block(piece.shape),
    ensures
        piece.y <= gy,
        forall|y: int| piece.y < y <= gy ==> !#[trigger] collides(board@, piece.at_row(y)),
        collides(board@, piece.at_row(gy + 1)),
{
    let ghost (r0, c0) = choose|r: int, c: int| 0 <= r < 4 && 0 <= c < 4 && #[trigger] crate::shapes::at(piece.shape, r, c) != 0;
    let mut gy = piece.y;
    loop
        invariant
            piece.coords_fit(),
            piece.y + 4 <= i32::MAX,
            piece.filled(r0, c0),
            piece.y <= gy <= i32::MAX - 4,
            forall|y: int| piece.y < y <= gy ==> !#[trigger] collides(board@, piece.at_row(y)),
        ensures
            piece.y <= gy,
            forall|y: int| piece.y < y <= gy ==> !#[trigger] collides(board@, piece.at_row(y)),
            collides(board@, piece.at_row(gy + 1)),
        decreases i32::MAX - gy,
    {
        let test = Piece { shape: piece.shape, kind: piece.kind, x: piece.x, y: gy + 1 };
        assert(test == piece.at_row(gy + 1));
        if board.collides(&test) {
            break;
        }
        assert(test.filled(r0, c0));
        assert(gy + 1 + r0 < ROWS);
        gy += 1;
    }
    gy
}

/// A piece that does not collide lies inside the board, below the top
/// edge's extension: each block is within the columns and above the floor.
pub proof fn lemma_fits_inside(g: Grid, p: Piece)
    requires
        !collides(g, p),
    ensures
        lockable(p),
        forall|r: int, c: int| #[trigger] p.filled(r, c) ==> 0 <= p.x + c < COLS && p.y + r < ROWS,
{
    assert forall|r: int, c: int| #[trigger] p.filled(r, c) implies 0 <= p.x + c < COLS && p.y + r < ROWS by {
        assert(!blocked(g, p.x + c, p.y + r));
    }
}

/// The full-row list holds strictly increasing rows of the board, exactly
/// the full ones.
pub proof fn lemma_full_rows(g: Grid, n: int)
    requires
        0 <= n <= ROWS,
    ensures
        full_rows_upto(g, n).len() <= n,
        forall|i: int| 0 <= i < full_rows_upto(g, n).len() ==> #[trigger] full_rows_upto(g, n)[i] < n,
        forall|i: int, j: int| 0 <= i < j < full_rows_upto(g, n).len() ==>
            #[trigger] full_rows_upto(g, n)[i] < #[trigger] full_rows_upto(g, n)[j],
        forall|r: int| 0 <= r < n ==> (full_rows_upto(g, n).contains(r as usize) <==> #[trigger] row_full(g, r)),
    decreases n,
{
    if n > 0 {
        lemma_full_rows(g, n - 1);
        let rest = full_rows_upto(g, n - 1);
        let all = full_rows_upto(g, n);
        if row_full(g, n - 1) {
            assert(all == rest.push((n - 1) as usize));
            assert forall|r: int| 0 <= r < n implies (all.contains(r as usize) <==> #[trigger] row_full(g, r)) by {
                if r < n - 1 {
                    if all.contains(r as usize) {
                        let i = choose|i: int| 0 <= i < all.len() && #[trigger] all[i] == r as usize;
                        if i < rest.len() {
                            assert(rest[i] == r as usize);
                        }
                    }
                    if rest.contains(r as usize) {
                        let i = choose|i: int| 0 <= i < rest.len() && #[trigger] rest[i] == r as usize;
                        assert(all[i] == r as usize);
                    }
                } else {
                    assert(all[rest.len() as int] == r as usize);
                }
            }
        } else {
            assert forall|r: int| 0 <= r < n implies (all.contains(r as usize) <==> #[trigger] row_full(g, r)) by {
                if r == n - 1 && all.contains(r as usize) {
                    let i = choose|i: int| 0 <= i < all.len() && #[trigger] all[i] == r as usize;
                }
            }
        }
    }
}

proof fn lemma_settled_entries(g: Grid, c: int, n: int)
    requires
        0 <= c < COLS,
        0 <= n <= ROWS,
    ensures
        column_entries(settled(g), c, n).len() == (if n <= settled_gap(g, c) { 0 } else { n - settled_gap(g, c) }),
        forall|j: int| 0 <= j < column_entries(settled(g), c, n).len() ==>
            #[trigger] column_entries(settled(g), c, n)[j] == ((settled_gap(g, c) + j) as usize, column_blocks(g, c)[j].1),
    decreases n,
{
    lemma_column_entries(g, c, ROWS as int);
    if n > 0 {
        lemma_settled_entries(g, c, n - 1);
        let gap = settled_gap(g, c);
        let rest = column_entries(settled(g), c, n - 1);
        if n - 1 >= gap {
            assert(settled(g)[n - 1][c] == Some(column_blocks(g, c)[n - 1 - gap].1));
            let all = column_entries(settled(g), c, n);
            assert(all == rest.push(((n - 1) as usize, column_blocks(g, c)[n - 1 - gap].1)));
            assert forall|j: int| 0 <= j < all.len() implies #[trigger] all[j] == ((gap + j) as usize, column_blocks(g, c)[j].1) by {
                if j < rest.len() {
                    assert(all[j] == rest[j]);
                }
            }
        } else {
            assert(settled(g)[n - 1][c] is None);
        }
    }
}

/// Gravity keeps each column's blocks, in the same order from top to
/// bottom, and stacks them without a gap on the floor.
pub proof fn settling_keeps_columns(g: Grid, c: int)
    requires
        0 <= c < COLS,
    ensures
        column_blocks(settled(g), c).len() == column_blocks(g, c).len(),
        forall|j: int| 0 <= j < column_blocks(g, c).len() ==>
            #[trigger] column_blocks(settled(g), c)[j] == ((settled_gap(g, c) + j) as usize, column_blocks(g, c)[j].1),
{
    lemma_column_entries(g, c, ROWS as int);
    lemma_settled_entries(g, c, ROWS as int);
}

/// After gravity no block floats: below every block of the settled board
/// there is another block or the floor.
pub proof fn settled_blocks_rest(g: Grid, r: int, c: int)
    requires
        0 <= r < ROWS - 1,
        0 <= c < COLS,
        settled(g)[r][c] is Some,
    ensures
        settled(g)[r + 1][c] is Some,
{
}

/// Applying gravity a second time changes nothing.
pub proof fn settling_is_idempotent(g: Grid)
    ensures
        settled(settled(g)) =~~= settled(g),
{
    assert forall|c: int| 0 <= c < COLS implies settled_gap(settled(g), c) == settled_gap(g, c) && forall|j: int|
        0 <= j < column_blocks(g, c).len() ==> #[trigger] column_blocks(settled(g), c)[j].1 == column_blocks(g, c)[j].1 by {
        settling_keeps_columns(g, c);
    }
    assert forall|r: int| 0 <= r < ROWS implies #[trigger] settled(settled(g))[r] =~= settled(g)[r] by {
        assert forall|c: int| 0 <= c < COLS implies settled(settled(g))[r][c] == settled(g)[r][c] by {
            settling_keeps_columns(g, c);
        }
    }
}

/// How a board cell is drawn.
#[derive(Clone, Copy, Debug, PartialEq, Eq, Structural)]
pub enum CellLook {
    /// The cell belongs to an exploding row and flashes white.
    Flash,
    /// The cell shows a block of this kind.
    Block(u8),
    /// The cell shows as empty: it is empty, or a dropping block is on its
    /// way to it and is drawn by its animation instead.
    Empty,
}

/// How cell (`r`, `c`) is drawn, given the exploding rows and the cells
/// (column, row) that dropping blocks are on their way to.
pub open spec fn look_of(g: Grid, r: int, c: int, clearing: Seq<usize>, hidden: Seq<(usize, usize)>) -> CellLook {
    if clearing.contains(r as usize) {
        CellLook::Flash
    } else if hidden.contains((c as usize, r as usize)) {
        CellLook::Empty
    } else {
        match g[r][c] {
            Some(k) => CellLook::Block(k),
            None => CellLook::Empty,
        }
    }
}

impl Board {
    /// How cell (`r`, `c`) is drawn: exploding rows flash, cells that a
    /// dropping block is headed for look empty (the animation draws the
    /// block), and the rest show what the board holds.
    pub fn cell_look(&self, r: usize, c: usize, clearing_rows: &[usize], hidden: &[(usize, usize)]) -> (look: CellLook)
        requires
            r < ROWS,
            c < COLS,
        ensures
            look == look_of(self@, r as int, c as int, clearing_rows@, hidden@),
    {
        let mut i: usize = 0;
        while i < clearing_rows.len()
            invariant
                i <= clearing_rows@.len(),
                forall|j: int| 0 <= j < i ==> clearing_rows@[j] != r,
            decreases clearing_rows@.len() - i,
        {
            if clearing_rows[i] == r {
                assert(clearing_rows@[i as int] == r);
                return CellLook::Flash;
            }
            i += 1;
        }
        let mut i: usize = 0;
        while i < hidden.len()
            invariant
                i <= hidden@.len(),
                !clearing_rows@.contains(r),
                forall|j: int| 0 <= j < i ==> hidden@[j] != (c, r),
            decreases hidden@.len() - i,
        {
            let (hc, hr) = hidden[i];
            if hc == c && hr == r {
                assert(hidden@[i as int] == (c, r));
                return CellLook::Empty;
            }
            i += 1;
        }
        match self.cells[r][c] {
            Some(k) => CellLook::Block(k),
            None => CellLook::Empty,
        }
    }

    /// An empty board.
    pub fn new() -> (b: Board)
        ensures
            b@ =~~= empty_grid(),
    {
        Board { cells: [[None; COLS]; ROWS] }
    }

    /// The cell at row `r`, column `c`.
    pub fn get(&self, r: usize, c: usize) -> (res: Option<u8>)
        requires
            r < ROWS,
            c < COLS,
        ensures
            res == self@[r as int][c as int],
    {
        self.cells[r][c]
    }

    /// Whether the piece overlaps a wall, the floor or a locked block.
    /// Blocks above the top edge do not count as overlapping, since a new
    /// piece may stick out above the board.
    pub fn collides(&self, piece: &Piece) -> (res: bool)
        requires
            piece.coords_fit(),
        ensures
            res == collides(self@, *piece),
    {
        for r in 0..4usize
            invariant
                piece.coords_fit(),
                forall|r2: int, c2: int| 0 <= r2 < r && #[trigger] piece.filled(r2, c2) ==> !blocked(self@, piece.x + c2, piece.y + r2),
        {
            for c in 0..4usize
                invariant
                    piece.coords_fit(),
                    r < 4,
                    forall|r2: int, c2: int| 0 <= r2 < r && #[trigger] piece.filled(r2, c2) ==> !blocked(self@, piece.x + c2, piece.y + r2),
                    forall|c2: int| 0 <= c2 < c && #[trigger] piece.filled(r as int, c2) ==> !blocked(self@, piece.x + c2, piece.y + r),
            {
                if piece.shape[r][c] != 0 {
                    let cx = piece.x + c as i32;
                    let cy = piece.y + r as i32;
                    assert(piece.filled(r as int, c as int));
                    if cx < 0 || cx >= COLS as i32 || cy >= ROWS as i32 {
                        return true;
                    }
                    if cy >= 0 && self.cells[cy as usize][cx as usize].is_some() {
                        return true;
                    }
                }
            }
        }
        false
    }

    /// Writes the piece's blocks into the board; blocks above the top edge
    /// are dropped.
    pub fn lock(&mut self, piece: &Piece)
        requires
            piece.coords_fit(),
            lockable(*piece),
        ensures
            final(self)@ =~~= locked(old(self)@, *piece),
    {
        let ghost g0 = self@;
        for r in 0..4usize
            invariant
                piece.coords_fit(),
                lockable(*piece),
                forall|row: int, col: int| 0 <= row < ROWS && 0 <= col < COLS ==> #[trigger] self@[row][col] == (
                    if piece.covers(col, row) && row - piece.y < r { Some(piece.kind) } else { g0[row][col] }),
        {
            for c in 0..4usize
                invariant
                    piece.coords_fit(),
                    lockable(*piece),
                    r < 4,
                    forall|row: int, col: int| 0 <= row < ROWS && 0 <= col < COLS ==> #[trigger] self@[row][col] == (
                        if piece.covers(col, row) && (row - piece.y < r || (row - piece.y == r && col - piece.x < c)) {
                            Some(piece.kind)
                        } else {
                            g0[row][col]
                        }),
            {
                if piece.shape[r][c] != 0 {
                    let cx = piece.x + c as i32;
                    let cy = piece.y + r as i32;
                    assert(piece.filled(r as int, c as int));
                    if cy >= 0 {
                        let ghost prev = self@;
                        let ux = cx as usize;
                        let uy = cy as usize;
                        let mut line = self.cells[uy];
                        line[ux] = Some(piece.kind);
                        self.cells[uy] = line;
                        assert forall|row: int, col: int| 0 <= row < ROWS && 0 <= col < COLS && !(row == uy && col == ux)
                            implies #[trigger] self@[row][col] == prev[row][col] by {
                            if row == uy {
                                assert(self.cells@[row]@ == prev[row].update(ux as int, Some(piece.kind)));
                            }
                        }
                        assert(self@[uy as int][ux as int] == Some(piece.kind));
                    }
                }
            }
        }
        assert(self@ =~~= locked(g0, *piece));
    }

    /// The indices of the full rows, top to bottom; the board is unchanged.
    pub fn full_rows(&self) -> (res: Vec<usize>)
        ensures
            res@ == full_row_list(self@),
    {
        let mut res: Vec<usize> = Vec::new();
        for r in 0..ROWS
            invariant
                res@ == full_rows_upto(self@, r as int),
        {
            let mut all = true;
            for c in 0..COLS
                invariant
                    r < ROWS,
                    all <==> forall|c2: int| 0 <= c2 < c ==> #[trigger] self@[r as int][c2] is Some,
            {
                if self.cells[r][c].is_none() {
                    all = false;
                }
            }
            if all {
                res.push(r);
            }
        }
        res
    }

    /// Empties every listed row.
    pub fn clear_rows(&mut self, rows: &[usize])
        requires
            forall|i: int| 0 <= i < rows@.len() ==> #[trigger] rows@[i] < ROWS,
        ensures
            final(self)@ =~~= cleared(old(self)@, rows@),
            forall|r: int, c: int| 0 <= r < ROWS && 0 <= c < COLS ==> #[trigger] final(self)@[r][c] == (
                if rows@.contains(r as usize) { None } else { old(self)@[r][c] }),
    {
        let ghost g0 = self@;
        for i in 0..rows.len()
            invariant
                forall|j: int| 0 <= j < rows@.len() ==> #[trigger] rows@[j] < ROWS,
                forall|row: int| 0 <= row < ROWS ==> #[trigger] self@[row] == (if rows@.take(i as int).contains(row as usize) {
                    Seq::new(COLS as nat, |c: int| None::<u8>)
                } else {
                    g0[row]
                }),
        {
            let r = rows[i];
            let ghost prev = self@;
            self.cells[r] = [None; COLS];
            assert forall|row: int| 0 <= row < ROWS implies #[trigger] self@[row] == (if rows@.take(i + 1).contains(row as usize) {
                Seq::new(COLS as nat, |c: int| None::<u8>)
            } else {
                g0[row]
            }) by {
                assert(rows@.take(i + 1) == rows@.take(i as int).push(r));
                if row == r {
                    assert(rows@.take(i + 1)[i as int] == r);
                    assert(self@[row] =~= Seq::new(COLS as nat, |c: int| None::<u8>));
                } else {
                    assert(self@[row] == prev[row]);
                    if rows@.take(i + 1).contains(row as usize) {
                        let j = choose|j: int| 0 <= j < i + 1 && #[trigger] rows@.take(i + 1)[j] == row as usize;
                        assert(rows@.take(i as int)[j] == row as usize);
                    }
                    if rows@.take(i as int).contains(row as usize) {
                        let j = choose|j: int| 0 <= j < i && #[trigger] rows@.take(i as int)[j] == row as usize;
                        assert(rows@.take(i + 1)[j] == row as usize);
                    }
                }
            }
        }
        assert(rows@.take(rows@.len() as int) == rows@);
        assert(self@ =~~= cleared(g0, rows@));
    }

    /// Lets the blocks of every column fall, independently of the other
    /// columns, until they rest on the floor or on each other: the gaps left
    /// by cleared rows close and floating blocks land.
    pub fn apply_gravity(&mut self)
        ensures
            final(self)@ =~~= settled(old(self)@),
    {
        let ghost g0 = self@;
        for c in 0..COLS
            invariant
                forall|row: int, col: int| 0 <= row < ROWS && 0 <= col < COLS ==> #[trigger] self@[row][col] == (
                    if col < c { settled(g0)[row][col] } else { g0[row][col] }),
        {
            let mut filled: Vec<u8> = Vec::new();
            for r in 0..ROWS
                invariant
                    c < COLS,
                    forall|row: int, col: int| 0 <= row < ROWS && 0 <= col < COLS ==> #[trigger] self@[row][col] == (
                        if col < c { settled(g0)[row][col] } else { g0[row][col] }),
                    filled@.len() == column_entries(g0, c as int, r as int).len(),
                    forall|i: int| 0 <= i < filled@.len() ==> #[trigger] filled@[i] == column_entries(g0, c as int, r as int)[i].1,
            {
                assert(self@[r as int][c as int] == g0[r as int][c as int]);
                if let Some(k) = self.cells[r][c] {
                    filled.push(k);
                }
            }
            proof {
                lemma_column_entries(g0, c as int, ROWS as int);
            }
            let empty_rows = ROWS - filled.len();
            for r in 0..ROWS
                invariant
                    c < COLS,
                    empty_rows == settled_gap(g0, c as int),
                    filled@.len() == column_blocks(g0, c as int).len(),
                    forall|i: int| 0 <= i < filled@.len() ==> #[trigger] filled@[i] == column_blocks(g0, c as int)[i].1,
                    forall|row: int, col: int| 0 <= row < ROWS && 0 <= col < COLS ==> #[trigger] self@[row][col] == (
                        if col < c || (col == c && row < r) { settled(g0)[row][col] } else { g0[row][col] }),
            {
                let v = if r < empty_rows { None } else { Some(filled[r - empty_rows]) };
                let ghost prev = self@;
                let mut line = self.cells[r];
                line[c] = v;
                self.cells[r] = line;
                assert forall|row: int, col: int| 0 <= row < ROWS && 0 <= col < COLS && !(row == r && col == c)
                    implies #[trigger] self@[row][col] == prev[row][col] by {
                    if row == r {
                        assert(self.cells@[row]@ == prev[row].update(c as int, v));
                    }
                }
                assert(self@[r as int][c as int] == v);
            }
        }
        assert(self@ =~~= settled(g0));
    }
}

} // verus!
