use vstd::prelude::*;

verus! {

/// Number of columns of the playfield.
pub const COLS: usize = 10;

/// Number of rows of the playfield.
pub const ROWS: usize = 20;

/// Number of tetromino kinds (I, O, T, S, Z, J, L).
pub const KINDS: usize = 7;

/// A tetromino drawn in a 4x4 grid, row by row; a non-zero entry is a block.
pub type Shape = [[u8; 4]; 4];

/// The entry of `s` at row `r`, column `c`.
pub open spec fn at(s: Shape, r: int, c: int) -> u8 {
    s@[r]@[c]
}

/// Whether the spawn shape of `kind` has a block at row `r`, column `c`.
pub open spec fn spawn_block(kind: int, r: int, c: int) -> bool {
    if kind == 0 {
        r == 1 && 0 <= c <= 3
    } else if kind == 1 {
        (r == 0 || r == 1) && (c == 1 || c == 2)
    } else if kind == 2 {
        (r == 0 && c == 1) || (r == 1 && 0 <= c <= 2)
    } else if kind == 3 {
        (r == 0 && (c == 1 || c == 2)) || (r == 1 && (c == 0 || c == 1))
    } else if kind == 4 {
        (r == 0 && (c == 0 || c == 1)) || (r == 1 && (c == 1 || c == 2))
    } else if kind == 5 {
        (r == 0 && c == 0) || (r == 1 && 0 <= c <= 2)
    } else {
        (r == 0 && c == 2) || (r == 1 && 0 <= c <= 2)
    }
}

/// `rot` is `s` turned a quarter clockwise: `rot[c][3 - r] == s[r][c]`.
pub open spec fn is_rotation(s: Shape, rot: Shape) -> bool {
    forall|r: int, c: int| 0 <= r < 4 && 0 <= c < 4 ==> #[trigger] at(rot, c, 3 - r) == at(s, r, c)
}

/// The spawn shape of a tetromino kind, in the spawn orientation of the
/// Super Rotation System.
pub fn piece_shape(kind: usize) -> (s: Shape)
    requires
        kind < KINDS,
    ensures
        forall|r: int, c: int|
            0 <= r < 4 && 0 <= c < 4 ==> #[trigger] at(s, r, c) == (if spawn_block(kind as int, r, c) {
                1u8
            } else {
                0u8
            }),
{
    let s: Shape = if kind == 0 {
        [[0, 0, 0, 0], [1, 1, 1, 1], [0, 0, 0, 0], [0, 0, 0, 0]]
    } else if kind == 1 {
        [[0, 1, 1, 0], [0, 1, 1, 0], [0, 0, 0, 0], [0, 0, 0, 0]]
    } else if kind == 2 {
        [[0, 1, 0, 0], [1, 1, 1, 0], [0, 0, 0, 0], [0, 0, 0, 0]]
    } else if kind == 3 {
        [[0, 1, 1, 0], [1, 1, 0, 0], [0, 0, 0, 0], [0, 0, 0, 0]]
    } else if kind == 4 {
        [[1, 1, 0, 0], [0, 1, 1, 0], [0, 0, 0, 0], [0, 0, 0, 0]]
    } else if kind == 5 {
        [[1, 0, 0, 0], [1, 1, 1, 0], [0, 0, 0, 0], [0, 0, 0, 0]]
    } else {
        [[0, 0, 1, 0], [1, 1, 1, 0], [0, 0, 0, 0], [0, 0, 0, 0]]
    };
    s
}

/// Turns a 4x4 shape a quarter clockwise: `rotated[c][3 - r] = piece[r][c]`.
pub fn rotate(piece: &Shape) -> (rotated: Shape)
    ensures
        is_rotation(*piece, rotated),
{
    let mut rotated: Shape = [[0u8; 4]; 4];
    for r in 0..4usize
        invariant
            forall|r2: int, c: int| 0 <= r2 < r && 0 <= c < 4 ==> #[trigger] at(rotated, c, 3 - r2) == at(*piece, r2, c),
    {
        for c in 0..4usize
            invariant
                forall|r2: int, c2: int| 0 <= r2 < r && 0 <= c2 < 4 ==> #[trigger] at(rotated, c2, 3 - r2) == at(*piece, r2, c2),
                forall|c2: int| 0 <= c2 < c ==> #[trigger] at(rotated, c2, 3 - r) == at(*piece, r as int, c2),
                r < 4,
        {
            let ghost prev = rotated;
            let mut row = rotated[c];
            row[3 - r] = piece[r][c];
            rotated[c] = row;
            assert forall|r2: int, c2: int| 0 <= r2 < 4 && 0 <= c2 < 4 && !(c2 == c && r2 == r) implies
                #[trigger] at(rotated, c2, 3 - r2) == at(prev, c2, 3 - r2) by {
                if c2 == c {
                    assert(rotated@[c2]@ == prev@[c2]@.update(3 - r as int, piece[r as int][c as int]));
                }
            }
        }
    }
    rotated
}

/// Whether `s` holds at least one block.
pub open spec fn has_block(s: Shape) -> bool {
    exists|r: int, c: int| 0 <= r < 4 && 0 <= c < 4 && #[trigger] at(s, r, c) != 0
}

/// Four quarter turns bring any shape back to where it started.
pub proof fn rotate_four_times_is_identity(s0: Shape, s1: Shape, s2: Shape, s3: Shape, s4: Shape)
    requires
        is_rotation(s0, s1),
        is_rotation(s1, s2),
        is_rotation(s2, s3),
        is_rotation(s3, s4),
    ensures
        forall|r: int, c: int| 0 <= r < 4 && 0 <= c < 4 ==> #[trigger] at(s4, r, c) == at(s0, r, c),
{
    assert forall|r: int, c: int| 0 <= r < 4 && 0 <= c < 4 implies #[trigger] at(s4, r, c) == at(s0, r, c) by {
        assert(at(s4, r, 3 - (3 - c)) == at(s3, 3 - c, r));
        assert(at(s3, 3 - c, 3 - (3 - r)) == at(s2, 3 - r, 3 - c));
        assert(at(s2, 3 - r, 3 - c) == at(s1, c, 3 - r));
        assert(at(s1, c, 3 - r) == at(s0, r, c));
    }
}

/// A quarter turn keeps a shape non-empty, and empties no shape that has a block.
pub proof fn rotation_keeps_blocks(s: Shape, rot: Shape)
    requires
        is_rotation(s, rot),
    ensures
        has_block(s) <==> has_block(rot),
{
    if has_block(s) {
        let (r, c) = choose|r: int, c: int| 0 <= r < 4 && 0 <= c < 4 && #[trigger] at(s, r, c) != 0;
        assert(at(rot, c, 3 - r) != 0);
    }
    if has_block(rot) {
        let (r, c) = choose|r: int, c: int| 0 <= r < 4 && 0 <= c < 4 && #[trigger] at(rot, r, c) != 0;
        assert(at(rot, r, 3 - (3 - c)) == at(s, 3 - c, r));
        assert(at(s, 3 - c, r) != 0);
    }
}

/// Every spawn shape holds a block.
pub proof fn spawn_shapes_have_blocks(kind: int)
    requires
        0 <= kind < KINDS,
    ensures
        spawn_block(kind, 1, 1),
{
}

} // verus!
