use vstd::prelude::*;

verus! {

/// A pseudo-random index in `0..high`, from `macroquad::rand::gen_range`
/// (the global generator of `quad-rand`).  Its contract claims only that the
/// result lies in `0..high`: the source computes
/// `(0 + (high - 0) as f64 * (rand() as f64 / (u32::MAX as f64 + 1.0))) as usize`,
/// which stays below `high` for every `high` up to `u32::MAX`.  Which index
/// comes back depends on the generator's hidden state and is not stated.
#[verifier::external_body]
pub(crate) fn random_below(high: usize) -> (r: usize)
    requires
        0 < high <= u32::MAX,
    ensures
        r < high,
{
    macroquad::rand::gen_range(0usize, high)
}

} // verus!
