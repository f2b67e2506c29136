//! The rounded mean that settles a tie.

use vstd::prelude::*;

verus! {

/// Half of `sum`, rounded to the nearest integer, with ties going away from zero.
pub open spec fn half_away_from_zero(sum: int) -> int {
    if sum >= 0 {
        (sum + 1) / 2
    } else {
        -((1 - sum) / 2)
    }
}

/// The mean of `a` and `b`, rounded to the nearest integer, with ties going away
/// from zero.
pub open spec fn rounded_average(a: i64, b: i64) -> i64 {
    half_away_from_zero(a + b) as i64
}

/// Round `(a + b) / 2` to the nearest i64 (ties round away from zero).
///
/// The sum is taken in 128 bits, so the result is exact over the whole range of
/// `i64`.
pub fn round_avg(a: i64, b: i64) -> (mean: i64)
    ensures
        mean == half_away_from_zero(a + b),
        mean == rounded_average(a, b),
        (a + b) % 2 == 0 ==> 2 * mean == a + b,
        (a + b) % 2 != 0 && a + b > 0 ==> 2 * mean == a + b + 1,
        (a + b) % 2 != 0 && a + b < 0 ==> 2 * mean == a + b - 1,
{
    let sum: i128 = a as i128 + b as i128;
    let mean: i128 = if sum >= 0 {
        (sum + 1) / 2
    } else {
        -((1 - sum) / 2)
    };
    mean as i64
}

/// Whichever of the two neighbouring integers is nearer to the true mean is the one
/// returned; between two equally near ones, it is the one further from zero.
pub proof fn rounded_average_is_nearest(a: i64, b: i64)
    ensures
        -1 <= 2 * rounded_average(a, b) - (a + b) <= 1,
        (a + b) % 2 == 0 ==> 2 * rounded_average(a, b) == a + b,
        (a + b) % 2 != 0 && a + b > 0 ==> 2 * rounded_average(a, b) == a + b + 1,
        (a + b) % 2 != 0 && a + b < 0 ==> 2 * rounded_average(a, b) == a + b - 1,
{
}

/// The order of the two values does not matter.
pub proof fn rounded_average_is_symmetric(a: i64, b: i64)
    ensures
        rounded_average(a, b) == rounded_average(b, a),
{
}

/// The mean never leaves the span of the two values; in particular, the mean of a
/// value with itself is that value.
pub proof fn rounded_average_is_between(a: i64, b: i64)
    ensures
        a <= b ==> a <= rounded_average(a, b) <= b,
        b <= a ==> b <= rounded_average(a, b) <= a,
        rounded_average(a, a) == a,
{
}

} // verus!
