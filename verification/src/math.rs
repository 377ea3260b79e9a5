//! Integer vector and rectangle types, and the exact integer square root
//! that the penetration depths are measured with.
//!
//! Positions live on an `i32` grid. Everything derived from them (bounds,
//! translations between shapes) is held in `i64`, which is wide enough for
//! twice any sum of a position, a motion and a size.

use vstd::prelude::*;

verus! {

/// A point or a vector on the world grid.
#[derive(Clone, Copy, Debug, PartialEq, Eq, Structural)]
pub struct Vec2 {
    pub x: i32,
    pub y: i32,
}

impl Vec2 {
    pub fn new(x: i32, y: i32) -> (v: Vec2)
        ensures
            v.x == x,
            v.y == y,
    {
        Vec2 { x, y }
    }

    /// The origin.
    pub fn zero() -> (v: Vec2)
        ensures
            v.x == 0,
            v.y == 0,
    {
        Vec2 { x: 0, y: 0 }
    }
}

/// A vector with wide components: the sum or difference of grid vectors, or
/// a translation that separates two shapes.
#[derive(Clone, Copy, Debug, PartialEq, Eq, Structural)]
pub struct Displacement {
    pub x: i64,
    pub y: i64,
}

/// An axis-aligned rectangle given by its origin corner and its size.
///
/// The size is in grid units. The origin corner is held doubled: it lies at
/// `(x2 / 2, y2 / 2)`, which for a box of odd size centred on a grid point
/// is half a unit off the grid.
#[derive(Clone, Copy, Debug, PartialEq, Eq, Structural)]
pub struct Rect {
    /// Twice the x coordinate of the origin corner.
    pub x2: i64,
    /// Twice the y coordinate of the origin corner.
    pub y2: i64,
    pub width: i64,
    pub height: i64,
}

impl Rect {
    /// The rectangle of the given size whose origin corner is at
    /// `(x2 / 2, y2 / 2)`.
    pub fn new(x2: i64, y2: i64, width: i64, height: i64) -> (r: Rect)
        ensures
            r.x2 == x2,
            r.y2 == y2,
            r.width == width,
            r.height == height,
    {
        Rect { x2, y2, width, height }
    }
}

/// `r` is the integer square root of `n`: the largest `r >= 0` with `r * r <= n`.
pub open spec fn is_isqrt(n: int, r: int) -> bool {
    0 <= r && r * r <= n && n < (r + 1) * (r + 1)
}

/// The integer square root of `n`, rounded down.
pub open spec fn isqrt_spec(n: int) -> int {
    choose|r: int| is_isqrt(n, r)
}

/// Squaring is monotone on the non-negative integers.
pub proof fn lemma_square_monotone(a: int, b: int)
    requires
        0 <= a <= b,
    ensures
        a * a <= b * b,
{
    assert(a * a <= b * b) by (nonlinear_arith)
        requires
            0 <= a <= b,
    ;
}

/// A number has at most one integer square root.
pub proof fn lemma_isqrt_unique(n: int, a: int, b: int)
    requires
        is_isqrt(n, a),
        is_isqrt(n, b),
    ensures
        a == b,
{
    if a < b {
        lemma_square_monotone(a + 1, b);
    }
    if b < a {
        lemma_square_monotone(b + 1, a);
    }
}

/// Any witness of the integer square root is the integer square root.
pub proof fn lemma_isqrt_is(n: int, r: int)
    requires
        is_isqrt(n, r),
    ensures
        isqrt_spec(n) == r,
{
    lemma_isqrt_unique(n, r, isqrt_spec(n));
}

/// Every non-negative number has an integer square root.
pub proof fn lemma_isqrt_exists(n: int)
    requires
        0 <= n,
    ensures
        is_isqrt(n, isqrt_spec(n)),
    decreases n,
{
    if n == 0 {
        assert(is_isqrt(0, 0));
    } else {
        lemma_isqrt_exists(n - 1);
        let r = isqrt_spec(n - 1);
        if (r + 1) * (r + 1) <= n {
            assert((r + 1) * (r + 1) < (r + 2) * (r + 2)) by (nonlinear_arith)
                requires
                    0 <= r,
            ;
            assert(is_isqrt(n, r + 1));
        } else {
            assert(is_isqrt(n, r));
        }
    }
}

/// For whole numbers `s >= 0`, a squared length is below `s * s` exactly
/// when its rounded-down root is below `s`.
pub proof fn lemma_isqrt_below(n: int, s: int)
    requires
        0 <= n,
        0 <= s,
    ensures
        n < s * s <==> isqrt_spec(n) < s,
{
    lemma_isqrt_exists(n);
    let r = isqrt_spec(n);
    if r < s {
        lemma_square_monotone(r + 1, s);
    } else {
        lemma_square_monotone(s, r);
    }
}

/// The integer square root of `n`, rounded down, by bisection.
pub fn isqrt(n: u128) -> (r: u64)
    ensures
        is_isqrt(n as int, r as int),
        r as int == isqrt_spec(n as int),
{
    let mut lo: u128 = 0;
    let mut hi: u128 = 0x1_0000_0000_0000_0000;
    assert(0x1_0000_0000_0000_0000 * 0x1_0000_0000_0000_0000 > u128::MAX);
    while hi - lo > 1
        invariant
            lo < hi <= 0x1_0000_0000_0000_0000,
            lo * lo <= n,
            n < hi * hi,
        decreases hi - lo,
    {
        let mid: u128 = lo + (hi - lo) / 2;
        assert(mid * mid <= 0xffff_ffff_ffff_ffff * 0xffff_ffff_ffff_ffff) by (nonlinear_arith)
            requires
                0 <= mid <= 0xffff_ffff_ffff_ffff,
        ;
        assert(0xffff_ffff_ffff_ffff * 0xffff_ffff_ffff_ffff < u128::MAX);
        if mid * mid <= n {
            lo = mid;
        } else {
            hi = mid;
        }
    }
    proof {
        lemma_isqrt_is(n as int, lo as int);
    }
    lo as u64
}

} // verus!
