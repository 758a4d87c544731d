//! Sums of money that stop at the ends of the range rather than wrapping.

use vstd::prelude::*;

use crate::park::Money;

verus! {

/// `a + b`, held to what a [`Money`] can count.
pub open spec fn sat_sum(a: int, b: int) -> int {
    if a + b > i64::MAX {
        i64::MAX as int
    } else if a + b < i64::MIN {
        i64::MIN as int
    } else {
        a + b
    }
}

/// `a + b`, stopping at the largest or smallest sum there is rather than
/// wrapping round.
pub fn add_saturating(a: Money, b: Money) -> (c: Money)
    ensures
        c == sat_sum(a as int, b as int),
{
    match a.checked_add(b) {
        Some(c) => c,
        None => {
            if b > 0 {
                i64::MAX
            } else {
                i64::MIN
            }
        },
    }
}

/// `a - b`, stopping at the largest or smallest difference there is rather
/// than wrapping round.
pub fn sub_saturating(a: Money, b: Money) -> (c: Money)
    ensures
        c == sat_sum(a as int, -(b as int)),
{
    match a.checked_sub(b) {
        Some(c) => c,
        None => {
            if b < 0 {
                i64::MAX
            } else {
                i64::MIN
            }
        },
    }
}

/// `n` held between `lo` and `hi`.
pub open spec fn clamped(n: int, lo: int, hi: int) -> int {
    if n < lo {
        lo
    } else if n > hi {
        hi
    } else {
        n
    }
}

/// `n` held between `lo` and `hi`.
pub fn clamp(n: Money, lo: Money, hi: Money) -> (c: Money)
    requires
        lo <= hi,
    ensures
        c == clamped(n as int, lo as int, hi as int),
{
    if n < lo {
        lo
    } else if n > hi {
        hi
    } else {
        n
    }
}

} // verus!
