//! Fixed-point arithmetic shared by every part of the simulation.
//!
//! Lengths and positions are whole numbers of sub-pixel units, directions are
//! whole numbers of millionths, and time is counted in microseconds. All
//! contracts are stated over mathematical integers; the executable functions
//! here compute those integers without overflow and bring coordinates back
//! into the 32-bit range by saturation.

use vstd::prelude::*;

verus! {

/// Sub-pixel units in one pixel.
pub const PIXEL: i32 = 1_000;

/// The fixed-point value of a direction component of magnitude one.
pub const UNIT: i32 = 1_000_000;

/// Time units in one second.
pub const SECOND: u32 = 1_000_000;

/// `v` brought into the range of a 32-bit coordinate by saturation.
pub open spec fn clip(v: int) -> int {
    if v < i32::MIN as int {
        i32::MIN as int
    } else if v > i32::MAX as int {
        i32::MAX as int
    } else {
        v
    }
}

/// The quotient of `a` by a positive `b`, rounded toward zero.
pub open spec fn quot(a: int, b: int) -> int
    recommends
        b > 0,
{
    if a >= 0 {
        a / b
    } else {
        -((-a) / b)
    }
}

/// The sign of `v`: one, zero or minus one.
pub open spec fn sign(v: int) -> int {
    if v > 0 {
        1
    } else if v < 0 {
        -1
    } else {
        0
    }
}

/// The length `len` laid off in the direction of `sign`: `len` for a positive
/// sign, `-len` for a negative one, nothing for zero.
pub open spec fn directed(sign: int, len: int) -> int {
    if sign > 0 {
        len
    } else if sign < 0 {
        -len
    } else {
        0
    }
}

/// The absolute value of `v`.
pub open spec fn magnitude(v: int) -> int {
    if v < 0 {
        -v
    } else {
        v
    }
}

/// How far something moves along one axis in `dt` time units, when the
/// component of its direction along that axis is `component` millionths and
/// its speed is `speed` sub-pixel units per second.
pub open spec fn travel(component: int, speed: int, dt: int) -> int {
    quot(component * speed * dt, UNIT as int * SECOND as int)
}

/// Where something `size` long begins when it is centred in a span `extent`
/// long that begins at zero: half the span less half the size, each half
/// rounded toward zero.
pub open spec fn centered(extent: int, size: int) -> int {
    quot(extent, 2) - quot(size, 2)
}

/// `r` is the integer part of the square root of `n`.
pub open spec fn is_floor_sqrt(n: int, r: int) -> bool {
    0 <= r && r * r <= n < (r + 1) * (r + 1)
}

/// The integer part of the square root of a non-negative `n`.
pub open spec fn floor_sqrt(n: int) -> int {
    choose|r: int| is_floor_sqrt(n, r)
}

/// At most one number is the integer part of the square root of `n`.
pub proof fn lemma_floor_sqrt_unique(n: int, a: int, b: int)
    requires
        is_floor_sqrt(n, a),
        is_floor_sqrt(n, b),
    ensures
        a == b,
{
    if a < b {
        assert((a + 1) * (a + 1) <= b * b) by (nonlinear_arith)
            requires
                0 <= a,
                a + 1 <= b,
        ;
    }
    if b < a {
        assert((b + 1) * (b + 1) <= a * a) by (nonlinear_arith)
            requires
                0 <= b,
                b + 1 <= a,
        ;
    }
}

/// A number that passes the defining test is the integer square root.
pub proof fn lemma_floor_sqrt_is(n: int, r: int)
    requires
        is_floor_sqrt(n, r),
    ensures
        floor_sqrt(n) == r,
{
    lemma_floor_sqrt_unique(n, r, floor_sqrt(n));
}

/// Every non-negative number below `2^64` has an integer square root.
pub proof fn lemma_floor_sqrt_exists(n: int)
    requires
        0 <= n < 0x1_0000_0000_0000_0000,
    ensures
        is_floor_sqrt(n, floor_sqrt(n)),
{
    lemma_floor_sqrt_search(n, 0, 0x1_0000_0000);
}

/// Bisection finds the integer square root of `n` between a number whose
/// square is at most `n` and one whose square is above it.
proof fn lemma_floor_sqrt_search(n: int, lo: int, hi: int)
    requires
        0 <= lo < hi,
        lo * lo <= n < hi * hi,
    ensures
        is_floor_sqrt(n, floor_sqrt(n)),
    decreases hi - lo,
{
    if hi == lo + 1 {
        assert(is_floor_sqrt(n, lo));
    } else {
        let mid = lo + (hi - lo) / 2;
        if mid * mid <= n {
            lemma_floor_sqrt_search(n, mid, hi);
        } else {
            lemma_floor_sqrt_search(n, lo, mid);
        }
    }
}

/// Saturates a 64-bit value into a 32-bit coordinate.
pub fn clip_i64(v: i64) -> (r: i32)
    ensures
        r == clip(v as int),
{
    if v < i32::MIN as i64 {
        i32::MIN
    } else if v > i32::MAX as i64 {
        i32::MAX
    } else {
        v as i32
    }
}

/// The sign of a 64-bit value.
pub fn sign_i64(v: i64) -> (r: i32)
    ensures
        r == sign(v as int),
{
    if v > 0 {
        1
    } else if v < 0 {
        -1
    } else {
        0
    }
}

/// The absolute value of a 32-bit value, widened so that it always fits.
pub fn magnitude_i32(v: i32) -> (r: i64)
    ensures
        r == magnitude(v as int),
{
    if v < 0 {
        -(v as i64)
    } else {
        v as i64
    }
}

/// Computes [`centered`], which always fits a 32-bit coordinate.
pub fn center_in(extent: i32, size: i32) -> (r: i32)
    ensures
        r == centered(extent as int, size as int),
{
    ((extent / 2) as i64 - (size / 2) as i64) as i32
}

/// Computes [`travel`] for a direction component, a speed and a time step.
pub fn travel_i64(component: i32, speed: i32, dt: u32) -> (d: i64)
    ensures
        d == travel(component as int, speed as int, dt as int),
        -0x80_0000_0000_0000 < d < 0x80_0000_0000_0000,
{
    let c: i128 = component as i128;
    let s: i128 = speed as i128;
    let t: i128 = dt as i128;
    assert(-0x4000_0000_0000_0000 <= c * s <= 0x4000_0000_0000_0000) by (nonlinear_arith)
        requires
            -0x8000_0000 <= c <= 0x8000_0000,
            -0x8000_0000 <= s <= 0x8000_0000,
    ;
    let cs: i128 = c * s;
    assert(-0x4000_0000_0000_0000_0000_0000 <= cs * t <= 0x4000_0000_0000_0000_0000_0000)
        by (nonlinear_arith)
        requires
            -0x4000_0000_0000_0000 <= cs <= 0x4000_0000_0000_0000,
            0 <= t <= 0x1_0000_0000,
    ;
    let product: i128 = cs * t;
    let d: i128 = product / 1_000_000_000_000;
    assert(UNIT as int * SECOND as int == 1_000_000_000_000);
    d as i64
}

/// Computes the integer part of the square root of `n`.
pub fn isqrt(n: u64) -> (r: u64)
    ensures
        r == floor_sqrt(n as int),
        is_floor_sqrt(n as int, r as int),
        r < 0x1_0000_0000,
{
    let mut lo: u64 = 0;
    let mut hi: u64 = 0x1_0000_0000;
    assert(0x1_0000_0000int * 0x1_0000_0000int == 0x1_0000_0000_0000_0000int);
    while hi - lo > 1
        invariant
            lo < hi <= 0x1_0000_0000,
            lo * lo <= n < hi * hi,
        decreases hi - lo,
    {
        let mid: u64 = lo + (hi - lo) / 2;
        assert(mid * mid <= 0xffff_ffff * 0xffff_ffff) by (nonlinear_arith)
            requires
                0 <= mid <= 0xffff_ffff,
        ;
        if mid * mid <= n {
            lo = mid;
        } else {
            hi = mid;
        }
    }
    proof {
        assert(hi == lo + 1);
        lemma_floor_sqrt_is(n as int, lo as int);
    }
    lo
}

} // verus!
