//! Layout scalars.
//!
//! All geometry is measured in signed 64-bit layout units. The value
//! `i64::MAX` is the distinguished `UNBOUNDED` dimension ("infinity"): a
//! constraint with an unbounded maximum imposes no upper limit. Arithmetic on
//! layout units saturates at the ends of the representable range, so an
//! unbounded value absorbs further additions the way an infinite extent
//! would.

use vstd::prelude::*;

verus! {

/// The distinguished "unbounded" dimension.
pub const UNBOUNDED: i64 = i64::MAX;

/// A dimension is finite when it is not the distinguished unbounded value.
pub open spec fn spec_is_finite(a: int) -> bool {
    a != i64::MAX as int
}

/// Saturating addition, as a mathematical function.
pub open spec fn sat_add(a: int, b: int) -> int {
    if a + b > i64::MAX as int {
        i64::MAX as int
    } else if a + b < i64::MIN as int {
        i64::MIN as int
    } else {
        a + b
    }
}

/// Saturating subtraction, as a mathematical function.
pub open spec fn sat_sub(a: int, b: int) -> int {
    if a - b > i64::MAX as int {
        i64::MAX as int
    } else if a - b < i64::MIN as int {
        i64::MIN as int
    } else {
        a - b
    }
}

/// The larger of two mathematical integers.
pub open spec fn spec_max(a: int, b: int) -> int {
    if a >= b {
        a
    } else {
        b
    }
}

/// Clamp `v` into `[lo, hi]`; when the interval is empty the lower bound wins.
pub open spec fn spec_clamp(v: int, lo: int, hi: int) -> int {
    if v < lo {
        lo
    } else if v > hi {
        hi
    } else {
        v
    }
}

/// Whether `a` denotes a finite dimension.
pub fn is_finite(a: i64) -> (r: bool)
    ensures
        r == spec_is_finite(a as int),
{
    a != UNBOUNDED
}

/// Saturating addition on layout units.
pub fn adds(a: i64, b: i64) -> (r: i64)
    ensures
        r == sat_add(a as int, b as int),
{
    let wide: i128 = a as i128 + b as i128;
    if wide > i64::MAX as i128 {
        i64::MAX
    } else if wide < i64::MIN as i128 {
        i64::MIN
    } else {
        wide as i64
    }
}

/// Saturating subtraction on layout units.
pub fn subs(a: i64, b: i64) -> (r: i64)
    ensures
        r == sat_sub(a as int, b as int),
{
    let wide: i128 = a as i128 - b as i128;
    if wide > i64::MAX as i128 {
        i64::MAX
    } else if wide < i64::MIN as i128 {
        i64::MIN
    } else {
        wide as i64
    }
}

/// Clamp `v` into `[lo, hi]`; when the interval is empty the lower bound wins.
pub fn clamp(v: i64, lo: i64, hi: i64) -> (r: i64)
    ensures
        r == spec_clamp(v as int, lo as int, hi as int),
{
    if v < lo {
        lo
    } else if v > hi {
        hi
    } else {
        v
    }
}

/// The larger of two layout units.
pub fn max(a: i64, b: i64) -> (r: i64)
    ensures
        r == spec_max(a as int, b as int),
{
    if a >= b {
        a
    } else {
        b
    }
}

} // verus!
