//! The counting side of hammer height measurement: how many of the highest
//! points are used, which of them give the median, and what a measurement
//! is called.

use vstd::prelude::*;

verus! {

/// The number of top points used: the requested count, at least one and at
/// most the number of valid points.
pub fn clamp_top_count(requested: usize, valid: usize) -> (r: usize)
    requires
        valid >= 1,
    ensures
        1 <= r <= valid,
        r == if requested < 1 { 1 } else if requested > valid { valid as int } else { requested as int },
{
    let at_least_one = if requested < 1 { 1 } else { requested };
    if at_least_one > valid {
        valid
    } else {
        at_least_one
    }
}

/// The positions, in a list sorted from highest, whose values average to
/// the median of the first `count`: the middle one for an odd count, the
/// two middle ones for an even count.
pub fn median_indices(count: usize) -> (r: (usize, usize))
    requires
        count >= 1,
    ensures
        r.0 <= r.1 < count,
        count % 2 == 1 ==> r.0 == count / 2 && r.1 == count / 2,
        count % 2 == 0 ==> r.0 == count / 2 - 1 && r.1 == count / 2,
        r.0 + r.1 == count - 1,
{
    if count % 2 == 0 {
        (count / 2 - 1, count / 2)
    } else {
        (count / 2, count / 2)
    }
}

/// The status of a hammer measurement: too few valid points, a height
/// found, or no height among enough points.
pub open spec fn spec_measurement_status(valid_points: int, min_valid_points: int, has_top_z: bool) -> Seq<char> {
    if valid_points < min_valid_points {
        "insufficient_points"@
    } else if has_top_z {
        "ok"@
    } else {
        "no_valid_z"@
    }
}

/// The status of a hammer measurement.
pub fn measurement_status(valid_points: usize, min_valid_points: usize, has_top_z: bool) -> (r: &'static str)
    ensures
        r@ == spec_measurement_status(valid_points as int, min_valid_points as int, has_top_z),
{
    if valid_points < min_valid_points {
        "insufficient_points"
    } else if has_top_z {
        "ok"
    } else {
        "no_valid_z"
    }
}

/// What a status says: too few valid points is reported as such whether or
/// not a height was found; `no_valid_z` is reported only with enough valid
/// points and no height, `ok` only with enough valid points and a height.
pub proof fn lemma_measurement_status_meaning(valid_points: int, min_valid_points: int, has_top_z: bool)
    ensures
        valid_points < min_valid_points ==> spec_measurement_status(valid_points, min_valid_points, has_top_z)
            == "insufficient_points"@,
        spec_measurement_status(valid_points, min_valid_points, has_top_z) == "no_valid_z"@ ==> valid_points
            >= min_valid_points && !has_top_z,
        spec_measurement_status(valid_points, min_valid_points, has_top_z) == "ok"@ ==> valid_points
            >= min_valid_points && has_top_z,
        spec_measurement_status(valid_points, min_valid_points, has_top_z) == "insufficient_points"@ ==> valid_points
            < min_valid_points,
{
    reveal_strlit("insufficient_points");
    reveal_strlit("no_valid_z");
    reveal_strlit("ok");
    assert("insufficient_points"@[0] != "no_valid_z"@[0]);
    assert("insufficient_points"@[0] != "ok"@[0]);
    assert("ok"@.len() != "no_valid_z"@.len());
}

} // verus!
