use vstd::prelude::*;

verus! {

/// Absolute value of an integer.
pub fn abs(value: i64) -> (r: i64)
    requires
        value > i64::MIN,
    ensures
        r == (if value < 0 { -value } else { value as int }),
{
    if value < 0 {
        -value
    } else {
        value
    }
}

/// The larger of two integers.
pub fn max(a: i64, b: i64) -> (r: i64)
    ensures
        r == (if a > b { a } else { b }),
{
    if a > b {
        a
    } else {
        b
    }
}

/// The smaller of two integers.
pub fn min(a: i64, b: i64) -> (r: i64)
    ensures
        r == (if a < b { a } else { b }),
{
    if a < b {
        a
    } else {
        b
    }
}

} // verus!
