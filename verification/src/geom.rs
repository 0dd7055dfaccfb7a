use vstd::prelude::*;

verus! {

/// Positions are measured in sub-units: `SUBS_PER_UNIT` sub-units make one
/// viewport unit. The simulation runs at `TICKS_PER_SECOND` ticks per second,
/// and the two constants are equal on purpose: an entity moving at `v` units
/// per second advances exactly `v` sub-units per tick, with no rounding.
pub const SUBS_PER_UNIT: i64 = 60;

/// Fixed simulation rate (ticks per second of game time).
pub const TICKS_PER_SECOND: u64 = 60;

/// Scale factors are measured in hundredths: a stored scale of 50 means the
/// sprite footprint is multiplied by 0.5.
pub const SCALE_DENOM: i64 = 100;

/// Largest position coordinate (in sub-units) any live entity may hold.
pub const POS_LIMIT: i64 = 200_000_000;

/// Largest scale factor (in hundredths) any entity may hold.
pub const SCALE_LIMIT: i64 = 10_000;

/// Largest speed (units per second, equally sub-units per tick).
pub const SPEED_LIMIT: i64 = 100_000_000;

/// Largest sprite footprint extent (in units) the configuration may hold.
pub const FOOT_LIMIT: i64 = 100_000;

pub open spec fn abs_val(x: int) -> int {
    if x < 0 {
        -x
    } else {
        x
    }
}

/// Inclusive axis-aligned bounding-box overlap.
///
/// Box centers `(x, y)` are in sub-units; an extent `e` is a sprite footprint
/// (units) times the entity's scale (hundredths), so it stands for
/// `e / (2 * SCALE_DENOM)` units of half-width. Two boxes overlap on an axis
/// when the center separation is at most the sum of the half-widths:
/// `|c1 - c2| / SUBS_PER_UNIT <= (e1 + e2) / (2 * SCALE_DENOM)`, which over
/// the integers is `10 * |c1 - c2| <= 3 * (e1 + e2)`. Touching edges count
/// as overlap.
pub open spec fn aabb_overlap(
    x1: int,
    y1: int,
    ex1: int,
    ey1: int,
    x2: int,
    y2: int,
    ex2: int,
    ey2: int,
) -> bool {
    &&& 10 * abs_val(x1 - x2) <= 3 * (ex1 + ex2)
    &&& 10 * abs_val(y1 - y2) <= 3 * (ey1 + ey2)
}

/// Executable form of the overlap test.
pub fn aabb_overlap_exec(
    x1: i64,
    y1: i64,
    ex1: i64,
    ey1: i64,
    x2: i64,
    y2: i64,
    ex2: i64,
    ey2: i64,
) -> (r: bool)
    requires
        -POS_LIMIT <= x1 <= POS_LIMIT,
        -POS_LIMIT <= y1 <= POS_LIMIT,
        -POS_LIMIT <= x2 <= POS_LIMIT,
        -POS_LIMIT <= y2 <= POS_LIMIT,
        0 <= ex1 <= FOOT_LIMIT * SCALE_LIMIT,
        0 <= ey1 <= FOOT_LIMIT * SCALE_LIMIT,
        0 <= ex2 <= FOOT_LIMIT * SCALE_LIMIT,
        0 <= ey2 <= FOOT_LIMIT * SCALE_LIMIT,
    ensures
        r == aabb_overlap(x1 as int, y1 as int, ex1 as int, ey1 as int, x2 as int, y2 as int,
            ex2 as int, ey2 as int),
{
    let dx = if x1 >= x2 {
        x1 - x2
    } else {
        x2 - x1
    };
    let dy = if y1 >= y2 {
        y1 - y2
    } else {
        y2 - y1
    };
    10 * dx <= 3 * (ex1 + ex2) && 10 * dy <= 3 * (ey1 + ey2)
}

} // verus!
