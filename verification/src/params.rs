//! The clamp rules that the driving loop applies to raw user input before it
//! constructs the engine.

use vstd::prelude::*;

verus! {

/// What the mine-count clamp resolves to: the count snapped into
/// `[2, width * height / 10]`; when the board is so small that the ceiling
/// lies below the floor of 2, the floor wins, and engine construction must
/// then reject the configuration.
pub open spec fn clamped_mine_count(width: int, height: int, mine_count: int) -> int {
    let cap = width * height / 10;
    if mine_count < 2 || cap < 2 {
        2
    } else if mine_count > cap {
        cap
    } else {
        mine_count
    }
}

/// The clamp rule for the board size: when either requested dimension is 6
/// or below, both are clamped to the documented default of 9; otherwise the
/// pair passes through unchanged.
pub fn get_valid_size(width: usize, height: usize) -> (r: (usize, usize))
    ensures
        (width <= 6 || height <= 6) ==> r == (9usize, 9usize),
        (width > 6 && height > 6) ==> r == (width, height),
{
    if width > 6 && height > 6 {
        (width, height)
    } else {
        (9, 9)
    }
}

/// Snaps the requested mine count to the nearest bound of
/// `[2, width * height / 10]` instead of failing, per `clamped_mine_count`.
pub fn get_valid_mine_count(width: usize, height: usize, mine_count: usize) -> (r: usize)
    requires
        width as int * height as int <= usize::MAX as int,
    ensures
        r as int == clamped_mine_count(width as int, height as int, mine_count as int),
{
    let cap = width * height / 10;
    if mine_count < 2 || cap < 2 {
        2
    } else if mine_count > cap {
        cap
    } else {
        mine_count
    }
}

} // verus!
