//! The unit every length on a panel is measured in, and sums that stop at the
//! ends of the integer they are held in rather than wrapping round.

use vstd::prelude::*;

verus! {

/// The em: the height of the type the panel is written in, in points. Every
/// length on the card is a fraction of it.
pub const EM: i32 = 18;

/// `x`, or the nearer end of what an `i32` holds when it is past one.
pub open spec fn clamp_i32(x: int) -> int {
    if x < i32::MIN {
        i32::MIN as int
    } else if x > i32::MAX {
        i32::MAX as int
    } else {
        x
    }
}

/// `x`, or the nearer end of what a `u32` holds when it is past one.
pub open spec fn clamp_u32(x: int) -> int {
    if x < 0 {
        0
    } else if x > u32::MAX {
        u32::MAX as int
    } else {
        x
    }
}

/// `x` held in an `i32`, stopped at its ends.
pub fn held_i32(x: i64) -> (r: i32)
    ensures
        r == clamp_i32(x as int),
{
    if x < i32::MIN as i64 {
        i32::MIN
    } else if x > i32::MAX as i64 {
        i32::MAX
    } else {
        x as i32
    }
}

/// `a - b`, stopped at the ends of an `i32`, as `i32::saturating_sub` gives it.
pub fn less(a: i32, b: i32) -> (r: i32)
    ensures
        r == clamp_i32(a - b),
{
    held_i32(a as i64 - b as i64)
}

/// `a + b`, stopped at the ends of an `i32`, as `i32::saturating_add` gives it.
pub fn more(a: i32, b: i32) -> (r: i32)
    ensures
        r == clamp_i32(a + b),
{
    held_i32(a as i64 + b as i64)
}

/// `a * b`, stopped at the ends of an `i32`, as `i32::saturating_mul` gives it.
pub fn times(a: i32, b: i32) -> (r: i32)
    ensures
        r == clamp_i32(a * b),
{
    assert(-0x4000_0000_0000_0000 <= (a as int) * (b as int) <= 0x4000_0000_0000_0000)
        by (nonlinear_arith)
        requires
            i32::MIN <= a <= i32::MAX,
            i32::MIN <= b <= i32::MAX,
    ;
    let p = (a as i64) * (b as i64);
    held_i32(p)
}

/// The larger of two.
pub open spec fn larger(a: int, b: int) -> int {
    if a >= b {
        a
    } else {
        b
    }
}

/// The smaller of two.
pub open spec fn smaller(a: int, b: int) -> int {
    if a <= b {
        a
    } else {
        b
    }
}

} // verus!
