use vstd::prelude::*;

verus! {

/// Points for clearing `lines` rows at once, before the level multiplier:
/// one row 100, two 300, three 500, four (a "tetris") 800, anything else 0.
pub open spec fn line_score(lines: int) -> int {
    if lines == 1 {
        100
    } else if lines == 2 {
        300
    } else if lines == 3 {
        500
    } else if lines == 4 {
        800
    } else {
        0
    }
}

/// The largest base score for one clear.
pub open spec fn max_line_score() -> int {
    800
}

/// Points for clearing `lines` rows at once, before the level multiplier.
pub fn score_for(lines: u32) -> (s: u32)
    ensures
        s == line_score(lines as int),
        lines == 1 ==> s == 100,
        lines == 2 ==> s == 300,
        lines == 3 ==> s == 500,
        lines == 4 ==> s == 800,
        lines == 0 || lines > 4 ==> s == 0,
{
    match lines {
        1 => 100,
        2 => 300,
        3 => 500,
        4 => 800,
        _ => 0,
    }
}

/// No clear earns more than a tetris, and a tetris earns more than four
/// single-row clears.
pub proof fn tetris_bonus(lines: int)
    ensures
        0 <= line_score(lines) <= max_line_score(),
        line_score(4) > 4 * line_score(1),
{
}

} // verus!
