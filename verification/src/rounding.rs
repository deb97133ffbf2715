use vstd::prelude::*;

verus! {

/// The largest even integer at most `x`, given `floor` = the floor of `x`.
pub fn floor_to_even(floor: u128) -> (r: u128)
    ensures
        r == floor - floor % 2,
        r % 2 == 0,
        r <= floor < r + 2,
{
    if floor % 2 == 0 {
        floor
    } else {
        floor - 1
    }
}

/// The even integer nearest to `x` (a point `2k + 1` halfway goes up to `2k + 2`),
/// given `floor` = the floor of `x`: `x` in `[2k, 2k + 1)` gives `2k`, `x` in
/// `[2k + 1, 2k + 2)` gives `2k + 2`.
pub fn round_to_even(floor: u128) -> (r: u128)
    requires
        floor % 2 == 0 || floor < u128::MAX,
    ensures
        r == floor + floor % 2,
        r % 2 == 0,
        floor <= r <= floor + 1,
{
    if floor % 2 == 0 {
        floor
    } else {
        floor + 1
    }
}

/// The least even integer at least `x`, given `ceil` = the ceiling of `x`.
pub fn ceil_to_even(ceil: u128) -> (r: u128)
    requires
        ceil % 2 == 0 || ceil < u128::MAX,
    ensures
        r == ceil + ceil % 2,
        r % 2 == 0,
        ceil <= r < ceil + 2,
{
    if ceil % 2 == 0 {
        ceil
    } else {
        ceil + 1
    }
}

} // verus!
