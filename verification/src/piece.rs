use vstd::prelude::*;

use crate::shapes::{at, has_block, piece_shape, spawn_block, Shape, COLS, KINDS};

verus! {

/// The tetromino under the player's control.  `x`, `y` are the board
/// column and row of the top-left corner of its 4x4 grid (rows grow
/// downward); `kind` (0 to 6) stands for its colour.
#[derive(Clone, Copy)]
pub struct Piece {
    pub shape: Shape,
    pub kind: u8,
    pub x: i32,
    pub y: i32,
}

/// The column at which a new piece's 4x4 grid starts: the grid is centred
/// on the board.
pub open spec fn spawn_x() -> int {
    COLS as int / 2 - 2
}

impl Piece {
    /// Whether the piece's grid has a block at row `r`, column `c`.
    pub open spec fn filled(self, r: int, c: int) -> bool {
        0 <= r < 4 && 0 <= c < 4 && at(self.shape, r, c) != 0
    }

    /// Whether one of the piece's blocks lies on board cell (`cx`, `cy`).
    pub open spec fn covers(self, cx: int, cy: int) -> bool {
        self.filled(cy - self.y, cx - self.x)
    }

    /// The board coordinates of every block fit in an `i32`.
    pub open spec fn coords_fit(self) -> bool {
        self.x + 3 <= i32::MAX && self.y + 3 <= i32::MAX
    }

    /// The same piece moved to row `y`.
    pub open spec fn at_row(self, y: int) -> Piece {
        Piece { y: y as i32, ..self }
    }

    /// The same piece shifted by `dx` columns and `dy` rows.
    pub open spec fn shifted(self, dx: int, dy: int) -> Piece {
        Piece { x: (self.x + dx) as i32, y: (self.y + dy) as i32, ..self }
    }

    /// The board coordinates of the blocks among the first `k` grid cells,
    /// taken row by row.
    pub open spec fn cells_upto(self, k: int) -> Seq<(i32, i32)>
        decreases k,
    {
        if k <= 0 {
            Seq::empty()
        } else {
            let r = (k - 1) / 4;
            let c = (k - 1) % 4;
            let rest = self.cells_upto(k - 1);
            if self.filled(r, c) {
                rest.push(((self.x + c) as i32, (self.y + r) as i32))
            } else {
                rest
            }
        }
    }

    /// The board coordinates `(column, row)` of all blocks, row by row.
    pub open spec fn cell_list(self) -> Seq<(i32, i32)> {
        self.cells_upto(16)
    }

    /// A new piece of the given kind (0 to 6) in its spawn orientation,
    /// centred at the top of the board.
    pub fn new(kind: usize) -> (p: Piece)
        requires
            kind < KINDS,
        ensures
            forall|r: int, c: int|
                0 <= r < 4 && 0 <= c < 4 ==> #[trigger] at(p.shape, r, c) == (if spawn_block(kind as int, r, c) {
                    1u8
                } else {
                    0u8
                }),
            p.kind == kind,
            p.x == spawn_x(),
            p.x == 3,
            p.y == 0,
            has_block(p.shape),
    {
        let p = Piece { shape: piece_shape(kind), kind: kind as u8, x: (COLS as i32 / 2) - 2, y: 0 };
        assert(at(p.shape, 1, 1) != 0);
        p
    }

    /// The board coordinates `(column, row)` of the piece's blocks, row by row.
    pub fn cells(&self) -> (res: Vec<(i32, i32)>)
        requires
            self.coords_fit(),
        ensures
            res@ == self.cell_list(),
            forall|cx: int, cy: int| res@.contains((cx as i32, cy as i32)) && i32::MIN <= cx <= i32::MAX
                && i32::MIN <= cy <= i32::MAX <==> #[trigger] self.covers(cx, cy),
    {
        let mut res: Vec<(i32, i32)> = Vec::new();
        for r in 0..4usize
            invariant
                self.coords_fit(),
                res@ == self.cells_upto(4 * r as int),
        {
            for c in 0..4usize
                invariant
                    self.coords_fit(),
                    r < 4,
                    res@ == self.cells_upto(4 * r + c),
            {
                assert((4 * r + c) / 4 == r && (4 * r + c) % 4 == c);
                if self.shape[r][c] != 0 {
                    res.push((self.x + c as i32, self.y + r as i32));
                }
            }
        }
        proof {
            self.lemma_cell_list_members();
        }
        res
    }

    /// A board cell is listed exactly when the piece covers it.
    pub proof fn lemma_cell_list_members(self)
        requires
            self.coords_fit(),
        ensures
            forall|cx: int, cy: int| self.cell_list().contains((cx as i32, cy as i32)) && i32::MIN <= cx <= i32::MAX
                && i32::MIN <= cy <= i32::MAX <==> #[trigger] self.covers(cx, cy),
    {
        assert forall|cx: int, cy: int| self.cell_list().contains((cx as i32, cy as i32)) && i32::MIN <= cx <= i32::MAX
            && i32::MIN <= cy <= i32::MAX <==> #[trigger] self.covers(cx, cy) by {
            self.lemma_cells_upto_members(16, cx, cy);
        }
    }

    proof fn lemma_cells_upto_members(self, k: int, cx: int, cy: int)
        requires
            self.coords_fit(),
            0 <= k <= 16,
        ensures
            self.cells_upto(k).contains((cx as i32, cy as i32)) && i32::MIN <= cx <= i32::MAX
                && i32::MIN <= cy <= i32::MAX <==> (self.covers(cx, cy) && (cy - self.y) * 4 + (cx - self.x) < k),
        decreases k,
    {
        if k > 0 {
            self.lemma_cells_upto_members(k - 1, cx, cy);
            let r = (k - 1) / 4;
            let c = (k - 1) % 4;
            let rest = self.cells_upto(k - 1);
            if self.filled(r, c) {
                let e = ((self.x + c) as i32, (self.y + r) as i32);
                assert(self.cells_upto(k) == rest.push(e));
                if self.cells_upto(k).contains((cx as i32, cy as i32)) && i32::MIN <= cx <= i32::MAX
                    && i32::MIN <= cy <= i32::MAX {
                    if !rest.contains((cx as i32, cy as i32)) {
                        let j = choose|j: int| 0 <= j < rest.push(e).len() && rest.push(e)[j] == (cx as i32, cy as i32);
                        if j < rest.len() {
                            assert(rest.contains((cx as i32, cy as i32)));
                        }
                    }
                }
                if self.covers(cx, cy) && (cy - self.y) * 4 + (cx - self.x) == k - 1 {
                    assert(rest.push(e)[rest.len() as int] == e);
                }
                if rest.contains((cx as i32, cy as i32)) {
                    let j = choose|j: int| 0 <= j < rest.len() && rest[j] == (cx as i32, cy as i32);
                    assert(rest.push(e)[j] == (cx as i32, cy as i32));
                }
            }
        }
    }
}

} // verus!
