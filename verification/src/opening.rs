//! The pie-rule opening: the canonical weak-looking first move, and the
//! judgment whether a first stone is worth swapping for.

use vstd::prelude::*;

use crate::rng::Rng;
use crate::tile::Tile;

verus! {

/// How many draws give one chance to keep a stone on the short-diagonal
/// boundary.
pub const SWAP_BOUNDARY_CHANCE: u64 = 3;

/// Judges the opponent's first stone at `(r, c)`.  A stone within two cells
/// of a short diagonal corner is declined outright (the result is false); a
/// stone exactly on the boundary is declined with one chance in three;
/// anything in the middle is taken (the result is true).
pub fn should_swap(r: i8, c: i8, size: i8, rng: &mut Rng) -> (swap: bool)
    ensures
        ({
            let d = r + c;
            &&& (d < 2 || d > 2 * size - 4) ==> !swap
            &&& (2 < d < 2 * size - 4) ==> swap
        }),
{
    let d = (r as i16) + (c as i16);
    let far = 2 * (size as i16) - 4;
    if d < 2 || d > far {
        false
    } else if d == 2 || d == far {
        !(rng.below(SWAP_BOUNDARY_CHANCE) == 0)
    } else {
        true
    }
}

/// The two near-corner zones the opening move is drawn from: the upper-left
/// draw zone, or its reflection into the lower-right corner.
pub open spec fn spec_corner_zone(size: int, i: int, j: int) -> bool {
    ||| (0 <= i < size / 2 - 1 && 0 <= j < size / 2 - 1)
    ||| (size - size / 2 + 1 <= i <= size - 1 && size - size / 2 + 1 <= j <= size - 1)
}

/// A random near-corner opening move: both coordinates are drawn from the
/// upper-left corner zone, and with one chance in two the stone is reflected
/// to the opposite corner.
pub fn first_move(size: i8, rng: &mut Rng) -> (mv: (i8, i8))
    requires
        4 <= size,
    ensures
        spec_corner_zone(size as int, mv.0 as int, mv.1 as int),
        Tile::Regular(mv.0, mv.1).spec_in_range(size as int),
{
    let i = rng.in_range(0, size / 2 - 1);
    let j = rng.in_range(0, size / 2 - 1);
    if rng.in_range(0, 2) == 0 {
        (size - 1 - i, size - 1 - j)
    } else {
        (i, j)
    }
}

} // verus!
