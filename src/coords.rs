use vstd::prelude::*;

verus! {

/// `val + offset`, held inside `[0, max]`.
pub open spec fn clamped(val: int, offset: int, max: int) -> int {
    if val + offset < 0 {
        0
    } else if val + offset > max {
        max
    } else {
        val + offset
    }
}

/// Adds a signed offset to a coordinate, clamping the sum to `[0, max]`.
pub fn clamping_add(val: u32, offset: i32, max: u32) -> (r: u32)
    ensures
        r == clamped(val as int, offset as int, max as int),
        r <= max,
{
    let sum: i64 = val as i64 + offset as i64;
    if sum < 0 {
        0
    } else if sum > max as i64 {
        max
    } else {
        sum as u32
    }
}

/// A clamped coordinate never leaves `[0, max]`, whatever the offset.
pub proof fn lemma_clamped_in_range(val: int, offset: int, max: int)
    requires
        0 <= val <= max,
    ensures
        0 <= clamped(val, offset, max) <= max,
{
}

} // verus!
