//! Boolean overlap tests between circles and axis-aligned boxes.
//!
//! A circle is its centre and radius. A box is centred on its position and
//! reaches half its width and half its height to either side. So that half
//! of an odd size stays exact, the tests on boxes compare doubled lengths.
//! Touching shapes do not overlap: every comparison is strict.

use vstd::prelude::*;
use crate::math::Vec2;

verus! {

pub open spec fn abs(a: int) -> int {
    if a >= 0 {
        a
    } else {
        -a
    }
}

/// The squared length of the vector `(dx, dy)`.
pub open spec fn dist_sq(dx: int, dy: int) -> int {
    dx * dx + dy * dy
}

/// How far `d` lies outside the interval `[-half, half]`, with its sign;
/// zero inside. It is `d` minus `d` clamped to the interval.
pub open spec fn excess(d: int, half: int) -> int {
    if d > half {
        d - half
    } else if d < -half {
        d + half
    } else {
        0
    }
}

/// Two circles whose centres are `(dx, dy)` apart and whose radii add up to
/// `r_sum` overlap when the distance is strictly below `r_sum`.
pub open spec fn circles_overlap(dx: int, dy: int, r_sum: int) -> bool {
    dist_sq(dx, dy) < r_sum * r_sum
}

/// A circle of radius `r` whose centre is `(dx, dy)` away from the centre of
/// a box of size `w` by `h` overlaps the box when its centre is in the box,
/// or the nearest point of the box is closer than `r`. All lengths are
/// doubled: the box reaches `w` either way where the offset is `2 * dx`.
pub open spec fn rect_circle_overlap(dx: int, dy: int, w: int, h: int, r: int) -> bool {
    (excess(2 * dx, w) == 0 && excess(2 * dy, h) == 0) || dist_sq(
        excess(2 * dx, w),
        excess(2 * dy, h),
    ) < (2 * r) * (2 * r)
}

/// Two boxes whose centres are `(dx, dy)` apart, and whose widths and
/// heights add up to `w_sum` and `h_sum`, overlap when on both axes the
/// distance is strictly below half the sum.
pub open spec fn rects_overlap(dx: int, dy: int, w_sum: int, h_sum: int) -> bool {
    2 * abs(dx) < w_sum && 2 * abs(dy) < h_sum
}

pub open spec fn circle_to_circle_spec(pos_a: Vec2, r_a: u32, pos_b: Vec2, r_b: u32) -> bool {
    circles_overlap(pos_a.x - pos_b.x, pos_a.y - pos_b.y, r_a + r_b)
}

pub open spec fn rect_to_circle_spec(
    r_x: i32,
    r_y: i32,
    r_w: u32,
    r_h: u32,
    c_position: Vec2,
    c_radius: u32,
) -> bool {
    rect_circle_overlap(
        c_position.x - r_x,
        c_position.y - r_y,
        r_w as int,
        r_h as int,
        c_radius as int,
    )
}

pub open spec fn rect_to_rect_spec(
    x1: i32,
    y1: i32,
    w1: u32,
    h1: u32,
    x2: i32,
    y2: i32,
    w2: u32,
    h2: u32,
) -> bool {
    rects_overlap(x1 - x2, y1 - y2, w1 + w2, h1 + h2)
}

/// A square is bounded by the square of a bound on its root.
pub proof fn lemma_square_bound(a: int, m: int)
    requires
        -m <= a <= m,
    ensures
        0 <= a * a <= m * m,
{
    assert(0 <= a * a <= m * m) by (nonlinear_arith)
        requires
            -m <= a <= m,
    ;
}

/// A coordinate that is at least `m >= 0` away from zero has a square of at
/// least `m * m`.
pub proof fn lemma_square_at_least(a: int, m: int)
    requires
        0 <= m,
        a >= m || a <= -m,
    ensures
        a * a >= m * m,
{
    assert(a * a >= m * m) by (nonlinear_arith)
        requires
            0 <= m,
            a >= m || a <= -m,
    ;
}

/// Whether two circles overlap: the distance between the centres is
/// strictly below the sum of the radii.
pub fn circle_to_circle(pos_a: Vec2, r_a: u32, pos_b: Vec2, r_b: u32) -> (res: bool)
    ensures
        res == circle_to_circle_spec(pos_a, r_a, pos_b, r_b),
{
    let dx: i128 = pos_a.x as i128 - pos_b.x as i128;
    let dy: i128 = pos_a.y as i128 - pos_b.y as i128;
    let r_sum: i128 = r_a as i128 + r_b as i128;
    proof {
        lemma_square_bound(dx as int, 0x1_0000_0000);
        lemma_square_bound(dy as int, 0x1_0000_0000);
        lemma_square_bound(r_sum as int, 0x2_0000_0000);
    }
    dx * dx + dy * dy < r_sum * r_sum
}

/// Whether a box centred on `(r_x, r_y)` and a circle overlap: the circle's
/// centre is in the box, or the point of the box nearest to the centre is
/// closer to it than the radius.
pub fn rect_to_circle(
    r_x: i32,
    r_y: i32,
    r_w: u32,
    r_h: u32,
    c_position: Vec2,
    c_radius: u32,
) -> (res: bool)
    ensures
        res == rect_to_circle_spec(r_x, r_y, r_w, r_h, c_position, c_radius),
{
    let dx: i128 = 2 * (c_position.x as i128 - r_x as i128);
    let dy: i128 = 2 * (c_position.y as i128 - r_y as i128);
    let w: i128 = r_w as i128;
    let h: i128 = r_h as i128;
    let ex: i128 = if dx > w {
        dx - w
    } else if dx < -w {
        dx + w
    } else {
        0
    };
    let ey: i128 = if dy > h {
        dy - h
    } else if dy < -h {
        dy + h
    } else {
        0
    };
    if ex == 0 && ey == 0 {
        return true;
    }
    let r: i128 = 2 * (c_radius as i128);
    proof {
        lemma_square_bound(ex as int, 0x2_0000_0000);
        lemma_square_bound(ey as int, 0x2_0000_0000);
        lemma_square_bound(r as int, 0x2_0000_0000);
    }
    ex * ex + ey * ey < r * r
}

/// Whether two boxes, each centred on its position, overlap.
pub fn rect_to_rect(
    x1: i32,
    y1: i32,
    w1: u32,
    h1: u32,
    x2: i32,
    y2: i32,
    w2: u32,
    h2: u32,
) -> (res: bool)
    ensures
        res == rect_to_rect_spec(x1, y1, w1, h1, x2, y2, w2, h2),
{
    let dx: i64 = 2 * (x1 as i64 - x2 as i64);
    let dy: i64 = 2 * (y1 as i64 - y2 as i64);
    let w_sum: i64 = w1 as i64 + w2 as i64;
    let h_sum: i64 = h1 as i64 + h2 as i64;
    -w_sum < dx && dx < w_sum && -h_sum < dy && dy < h_sum
}

/// Two circles overlap exactly when the rounded-down distance between their
/// centres is below the sum of their radii.
pub proof fn lemma_circles_overlap_by_distance(dx: int, dy: int, r_sum: int)
    requires
        0 <= r_sum,
    ensures
        circles_overlap(dx, dy, r_sum) <==> crate::math::isqrt_spec(dist_sq(dx, dy)) < r_sum,
{
    lemma_square_bound(dx, abs(dx));
    lemma_square_bound(dy, abs(dy));
    crate::math::lemma_isqrt_exists(dist_sq(dx, dy));
    crate::math::lemma_isqrt_below(dist_sq(dx, dy), r_sum);
}

/// The circle test does not depend on the order of the two circles.
pub proof fn lemma_circle_to_circle_symmetric(pos_a: Vec2, r_a: u32, pos_b: Vec2, r_b: u32)
    ensures
        circle_to_circle_spec(pos_a, r_a, pos_b, r_b) == circle_to_circle_spec(
            pos_b,
            r_b,
            pos_a,
            r_a,
        ),
{
    let dx = pos_a.x - pos_b.x;
    let dy = pos_a.y - pos_b.y;
    assert((-dx) * (-dx) == dx * dx) by (nonlinear_arith);
    assert((-dy) * (-dy) == dy * dy) by (nonlinear_arith);
    assert(pos_b.x - pos_a.x == -dx);
    assert(pos_b.y - pos_a.y == -dy);
}

/// A circle whose centre lies in a box overlaps the box, whatever its radius.
pub proof fn lemma_center_inside_overlaps(
    r_x: i32,
    r_y: i32,
    r_w: u32,
    r_h: u32,
    c_position: Vec2,
    c_radius: u32,
)
    requires
        2 * abs(c_position.x - r_x) <= r_w,
        2 * abs(c_position.y - r_y) <= r_h,
    ensures
        rect_to_circle_spec(r_x, r_y, r_w, r_h, c_position, c_radius),
{
}

} // verus!
