//! Penetration results: how deep two overlapping shapes reach into each
//! other, and a translation that pushes the first away from the second.
//!
//! Each function takes the offset of the first shape from the second (first
//! centre minus second centre). A depth is the true depth rounded up to a
//! whole unit, and a translation is rounded away from zero, so that moving
//! by it always separates the shapes.

use vstd::prelude::*;
use crate::math::{
    isqrt, isqrt_spec, lemma_isqrt_below, lemma_isqrt_exists, lemma_square_monotone, Displacement,
};
use crate::overlap::{
    abs, circles_overlap, dist_sq, excess, lemma_square_at_least, lemma_square_bound,
    rect_circle_overlap, rects_overlap,
};

verus! {

/// The depth of an overlap and the translation that undoes it.
#[derive(Clone, Copy, Debug, PartialEq, Eq, Structural)]
pub struct Penetration {
    /// How far the shapes reach into each other; never negative.
    pub depth: i64,
    /// The minimum translation vector: moving the first shape by it pushes
    /// it out of the second.
    pub min_translation: Displacement,
}

/// The mathematical value of a [`Penetration`].
pub struct PenetrationView {
    pub depth: int,
    pub x: int,
    pub y: int,
}

impl View for Penetration {
    type V = PenetrationView;

    open spec fn view(&self) -> PenetrationView {
        PenetrationView {
            depth: self.depth as int,
            x: self.min_translation.x as int,
            y: self.min_translation.y as int,
        }
    }
}

/// `a / b`, rounded up, for `a >= 0` and `b > 0`.
pub open spec fn ceil_div(a: int, b: int) -> int {
    (a + b - 1) / b
}

/// `c * num / den`, rounded away from zero.
pub open spec fn scale_away(c: int, num: int, den: int) -> int {
    if c >= 0 {
        ceil_div(c * num, den)
    } else {
        -ceil_div((-c) * num, den)
    }
}

/// `depth` with the sign of `d` (positive where `d` is zero).
pub open spec fn signed(d: int, depth: int) -> int {
    if d >= 0 {
        depth
    } else {
        -depth
    }
}

/// The penetration of two overlapping circles: the depth is the sum of the
/// radii less the distance, and the translation has that length along the
/// line from the second centre to the first. Circles with one centre are
/// pushed apart along the x axis.
pub open spec fn circle_circle_penetration(dx: int, dy: int, r_sum: int) -> PenetrationView {
    let dist = isqrt_spec(dist_sq(dx, dy));
    if dist == 0 {
        PenetrationView { depth: r_sum, x: r_sum, y: 0 }
    } else {
        PenetrationView {
            depth: r_sum - dist,
            x: scale_away(dx, r_sum - dist, dist),
            y: scale_away(dy, r_sum - dist, dist),
        }
    }
}

/// The penetration of a circle of radius `r` into a box of size `w` by `h`,
/// as a translation of the circle. A centre inside the box leaves through
/// the nearer pair of faces (the vertical ones on a tie) and then by the
/// radius; a centre outside is pushed along the line from the nearest point
/// of the box. As in the overlap test, the lengths compared are doubled.
pub open spec fn circle_box_penetration(dx: int, dy: int, w: int, h: int, r: int)
    -> PenetrationView {
    let ex = excess(2 * dx, w);
    let ey = excess(2 * dy, h);
    if ex == 0 && ey == 0 {
        if w - 2 * abs(dx) <= h - 2 * abs(dy) {
            PenetrationView {
                depth: ceil_div(w - 2 * abs(dx), 2) + r,
                x: signed(dx, ceil_div(w - 2 * abs(dx), 2) + r),
                y: 0,
            }
        } else {
            PenetrationView {
                depth: ceil_div(h - 2 * abs(dy), 2) + r,
                x: 0,
                y: signed(dy, ceil_div(h - 2 * abs(dy), 2) + r),
            }
        }
    } else {
        let dist = isqrt_spec(dist_sq(ex, ey));
        PenetrationView {
            depth: ceil_div(2 * r - dist, 2),
            x: scale_away(ex, 2 * r - dist, 2 * dist),
            y: scale_away(ey, 2 * r - dist, 2 * dist),
        }
    }
}

/// The penetration of two overlapping boxes whose widths and heights add
/// up to `w_sum` and `h_sum`: the smaller of the overlaps on the two axes
/// (the x axis on a tie), as a translation along that axis.
pub open spec fn box_box_penetration(dx: int, dy: int, w_sum: int, h_sum: int)
    -> PenetrationView {
    if w_sum - 2 * abs(dx) <= h_sum - 2 * abs(dy) {
        PenetrationView {
            depth: ceil_div(w_sum - 2 * abs(dx), 2),
            x: signed(dx, ceil_div(w_sum - 2 * abs(dx), 2)),
            y: 0,
        }
    } else {
        PenetrationView {
            depth: ceil_div(h_sum - 2 * abs(dy), 2),
            x: 0,
            y: signed(dy, ceil_div(h_sum - 2 * abs(dy), 2)),
        }
    }
}

/// A component of a vector is no longer than the vector, rounded down.
proof fn lemma_component_within_root(c: int, other: int)
    ensures
        abs(c) <= isqrt_spec(dist_sq(c, other)),
{
    let n = dist_sq(c, other);
    lemma_square_bound(c, abs(c));
    lemma_square_bound(other, abs(other));
    lemma_isqrt_exists(n);
    let r = isqrt_spec(n);
    if abs(c) > r {
        lemma_square_at_least(c, r + 1);
    }
}

/// A quotient rounded up, times the divisor, reaches the dividend and
/// stays less than one divisor above it.
pub proof fn lemma_ceil_div(a: int, b: int)
    requires
        0 <= a,
        0 < b,
    ensures
        0 <= ceil_div(a, b),
        a <= ceil_div(a, b) * b < a + b,
{
    let q = (a + b - 1) / b;
    vstd::arithmetic::div_mod::lemma_fundamental_div_mod(a + b - 1, b);
    vstd::arithmetic::div_mod::lemma_mod_pos_bound(a + b - 1, b);
    assert(b * q == q * b) by (nonlinear_arith);
    assert(0 <= q) by (nonlinear_arith)
        requires
            q * b >= a,
            0 <= a,
            0 < b,
    ;
}

/// Scaling a part `a` of `den` by `num / den` gives a part of `num`.
proof fn lemma_scaled_within(a: int, num: int, den: int)
    requires
        0 <= a <= den,
        0 < den,
        0 <= num,
    ensures
        0 <= a * num,
        0 <= ceil_div(a * num, den) <= num,
{
    assert(0 <= a * num <= den * num) by (nonlinear_arith)
        requires
            0 <= a <= den,
            0 <= num,
    ;
    lemma_ceil_div(a * num, den);
    let q = ceil_div(a * num, den);
    assert(q <= num) by (nonlinear_arith)
        requires
            q * den < a * num + den,
            a * num <= den * num,
            0 < den,
    ;
}

/// A vector of length at least `f`, each of whose components grows by the
/// factor `big_r / f` or more, ends with a length of at least `big_r`.
proof fn lemma_pushed_out(ax: int, ay: int, nx: int, ny: int, f: int, big_r: int)
    requires
        0 <= ax,
        0 <= ay,
        0 < f,
        0 <= big_r,
        nx * f >= ax * big_r,
        ny * f >= ay * big_r,
        ax * ax + ay * ay >= f * f,
    ensures
        nx * nx + ny * ny >= big_r * big_r,
{
    assert(0 <= ax * big_r && 0 <= ay * big_r) by (nonlinear_arith)
        requires
            0 <= ax,
            0 <= ay,
            0 <= big_r,
    ;
    lemma_square_monotone(ax * big_r, nx * f);
    lemma_square_monotone(ay * big_r, ny * f);
    let a = nx * nx + ny * ny;
    let b = big_r * big_r;
    let ff = f * f;
    assert((nx * f) * (nx * f) + (ny * f) * (ny * f) == a * ff) by (nonlinear_arith)
        requires
            a == nx * nx + ny * ny,
            ff == f * f,
    ;
    assert((ax * big_r) * (ax * big_r) + (ay * big_r) * (ay * big_r) == (ax * ax + ay * ay) * b)
        by (nonlinear_arith)
        requires
            b == big_r * big_r,
    ;
    assert((ax * ax + ay * ay) * b >= ff * b) by (nonlinear_arith)
        requires
            ax * ax + ay * ay >= ff,
            b == big_r * big_r,
    ;
    assert(a >= b) by (nonlinear_arith)
        requires
            a * ff >= ff * b,
            ff == f * f,
            0 < f,
    ;
}

/// `c * num / den` rounded away from zero, for a component `c` of a vector
/// no longer than `den`.
fn scale(c: i64, num: i64, den: i64) -> (res: i64)
    requires
        0 <= num <= 0x4_0000_0000,
        0 < den <= 0x4_0000_0000,
        -den <= c <= den,
    ensures
        res == scale_away(c as int, num as int, den as int),
        -num <= res <= num,
{
    let a: i128 = if c >= 0 {
        c as i128
    } else {
        -(c as i128)
    };
    assert(0 <= a * num <= den * num && den * num <= 0x4_0000_0000 * 0x4_0000_0000)
        by (nonlinear_arith)
        requires
            0 <= a <= den,
            0 <= num <= 0x4_0000_0000,
            0 < den <= 0x4_0000_0000,
    ;
    proof {
        lemma_scaled_within(a as int, num as int, den as int);
    }
    let q: i128 = (a * num as i128 + den as i128 - 1) / den as i128;
    if c >= 0 {
        q as i64
    } else {
        -(q as i64)
    }
}

/// Penetration of the first circle into the second, or `None` where the
/// circles do not overlap.
pub fn circle_to_circle(offset: Displacement, r_first: u32, r_second: u32) -> (res: Option<
    Penetration,
>)
    ensures
        res is Some <==> circles_overlap(offset.x as int, offset.y as int, r_first + r_second),
        res matches Some(p) ==> p@ == circle_circle_penetration(
            offset.x as int,
            offset.y as int,
            r_first + r_second,
        ) && p.depth > 0,
{
    let dx: i64 = offset.x;
    let dy: i64 = offset.y;
    let r_sum: i64 = r_first as i64 + r_second as i64;
    if dx >= r_sum || dx <= -r_sum || dy >= r_sum || dy <= -r_sum {
        proof {
            lemma_square_bound(dx as int, abs(dx as int));
            lemma_square_bound(dy as int, abs(dy as int));
            if dx >= r_sum || dx <= -r_sum {
                lemma_square_at_least(dx as int, r_sum as int);
            } else {
                lemma_square_at_least(dy as int, r_sum as int);
            }
        }
        return None;
    }
    proof {
        lemma_square_bound(dx as int, 0x2_0000_0000);
        lemma_square_bound(dy as int, 0x2_0000_0000);
        lemma_square_bound(r_sum as int, 0x2_0000_0000);
    }
    let d2: i128 = dx as i128 * dx as i128 + dy as i128 * dy as i128;
    if d2 >= r_sum as i128 * r_sum as i128 {
        return None;
    }
    let dist: i64 = isqrt(d2 as u128) as i64;
    proof {
        lemma_isqrt_below(d2 as int, r_sum as int);
        lemma_component_within_root(dx as int, dy as int);
        lemma_component_within_root(dy as int, dx as int);
        assert(dist_sq(dy as int, dx as int) == dist_sq(dx as int, dy as int));
    }
    let depth: i64 = r_sum - dist;
    let min_translation = if dist == 0 {
        Displacement { x: depth, y: 0 }
    } else {
        Displacement { x: scale(dx, depth, dist), y: scale(dy, depth, dist) }
    };
    Some(Penetration { depth, min_translation })
}

/// Penetration of a circle into a box, or `None` where they do not overlap.
/// `offset` is the circle's centre less the box's position.
pub fn circle_to_box(offset: Displacement, radius: u32, width: u32, height: u32) -> (res: Option<
    Penetration,
>)
    ensures
        res is Some <==> rect_circle_overlap(
            offset.x as int,
            offset.y as int,
            width as int,
            height as int,
            radius as int,
        ),
        res matches Some(p) ==> p@ == circle_box_penetration(
            offset.x as int,
            offset.y as int,
            width as int,
            height as int,
            radius as int,
        ) && p.depth >= 0,
{
    let dx: i128 = 2 * (offset.x as i128);
    let dy: i128 = 2 * (offset.y as i128);
    let w: i128 = width as i128;
    let h: i128 = height as i128;
    let r: i128 = 2 * (radius as i128);
    let ex: i128 = if dx > w {
        dx - w
    } else if dx < -w {
        dx + w
    } else {
        0
    };
    let ey: i128 = if dy > h {
        dy - h
    } else if dy < -h {
        dy + h
    } else {
        0
    };
    if ex == 0 && ey == 0 {
        let px: i128 = if dx >= 0 {
            w - dx
        } else {
            w + dx
        };
        let py: i128 = if dy >= 0 {
            h - dy
        } else {
            h + dy
        };
        if px <= py {
            let depth: i64 = ((px + 1) / 2) as i64 + radius as i64;
            let x: i64 = if dx >= 0 {
                depth
            } else {
                -depth
            };
            return Some(Penetration { depth, min_translation: Displacement { x, y: 0 } });
        } else {
            let depth: i64 = ((py + 1) / 2) as i64 + radius as i64;
            let y: i64 = if dy >= 0 {
                depth
            } else {
                -depth
            };
            return Some(Penetration { depth, min_translation: Displacement { x: 0, y } });
        }
    }
    if ex >= r || ex <= -r || ey >= r || ey <= -r {
        proof {
            lemma_square_bound(ex as int, abs(ex as int));
            lemma_square_bound(ey as int, abs(ey as int));
            if ex >= r || ex <= -r {
                lemma_square_at_least(ex as int, r as int);
            } else {
                lemma_square_at_least(ey as int, r as int);
            }
        }
        return None;
    }
    proof {
        lemma_square_bound(ex as int, 0x2_0000_0000);
        lemma_square_bound(ey as int, 0x2_0000_0000);
        lemma_square_bound(r as int, 0x2_0000_0000);
    }
    let e2: i128 = ex * ex + ey * ey;
    if e2 >= r * r {
        return None;
    }
    let dist: i64 = isqrt(e2 as u128) as i64;
    proof {
        lemma_isqrt_below(e2 as int, r as int);
        lemma_component_within_root(ex as int, ey as int);
        lemma_component_within_root(ey as int, ex as int);
        assert(dist_sq(ey as int, ex as int) == dist_sq(ex as int, ey as int));
    }
    let gap: i64 = r as i64 - dist;
    Some(
        Penetration {
            depth: (gap + 1) / 2,
            min_translation: Displacement {
                x: scale(ex as i64, gap, 2 * dist),
                y: scale(ey as i64, gap, 2 * dist),
            },
        },
    )
}

/// Penetration of the first box into the second, or `None` where they do
/// not overlap.
pub fn box_to_box(
    offset: Displacement,
    w_first: u32,
    h_first: u32,
    w_second: u32,
    h_second: u32,
) -> (res: Option<Penetration>)
    ensures
        res is Some <==> rects_overlap(
            offset.x as int,
            offset.y as int,
            w_first + w_second,
            h_first + h_second,
        ),
        res matches Some(p) ==> p@ == box_box_penetration(
            offset.x as int,
            offset.y as int,
            w_first + w_second,
            h_first + h_second,
        ) && p.depth > 0,
{
    let dx: i128 = 2 * (offset.x as i128);
    let dy: i128 = 2 * (offset.y as i128);
    let w_sum: i128 = w_first as i128 + w_second as i128;
    let h_sum: i128 = h_first as i128 + h_second as i128;
    if dx >= w_sum || dx <= -w_sum || dy >= h_sum || dy <= -h_sum {
        return None;
    }
    let ox: i128 = if dx >= 0 {
        w_sum - dx
    } else {
        w_sum + dx
    };
    let oy: i128 = if dy >= 0 {
        h_sum - dy
    } else {
        h_sum + dy
    };
    if ox <= oy {
        let depth: i64 = ((ox + 1) / 2) as i64;
        let x: i64 = if dx >= 0 {
            depth
        } else {
            -depth
        };
        Some(Penetration { depth, min_translation: Displacement { x, y: 0 } })
    } else {
        let depth: i64 = ((oy + 1) / 2) as i64;
        let y: i64 = if dy >= 0 {
            depth
        } else {
            -depth
        };
        Some(Penetration { depth, min_translation: Displacement { x: 0, y } })
    }
}

/// Moving the first of two overlapping boxes by the minimum translation
/// separates them.
pub proof fn lemma_box_translation_separates(dx: int, dy: int, w_sum: int, h_sum: int)
    requires
        rects_overlap(dx, dy, w_sum, h_sum),
    ensures
        !rects_overlap(
            dx + box_box_penetration(dx, dy, w_sum, h_sum).x,
            dy + box_box_penetration(dx, dy, w_sum, h_sum).y,
            w_sum,
            h_sum,
        ),
{
}

/// The depth of two overlapping circles is their true depth rounded up to
/// the next whole unit: the distance between the centres lies between the
/// sum of the radii less the depth and one unit more.
pub proof fn lemma_circle_depth_brackets_distance(dx: int, dy: int, r_sum: int)
    requires
        0 <= r_sum,
        circles_overlap(dx, dy, r_sum),
    ensures
        0 < circle_circle_penetration(dx, dy, r_sum).depth <= r_sum,
        (r_sum - circle_circle_penetration(dx, dy, r_sum).depth) * (r_sum
            - circle_circle_penetration(dx, dy, r_sum).depth) <= dist_sq(dx, dy),
        dist_sq(dx, dy) < (r_sum - circle_circle_penetration(dx, dy, r_sum).depth + 1) * (r_sum
            - circle_circle_penetration(dx, dy, r_sum).depth + 1),
{
    lemma_square_bound(dx, abs(dx));
    lemma_square_bound(dy, abs(dy));
    lemma_isqrt_exists(dist_sq(dx, dy));
    lemma_isqrt_below(dist_sq(dx, dy), r_sum);
}

/// The translation of two overlapping circles points from the second
/// centre to the first, and neither of its components is longer than the
/// depth.
pub proof fn lemma_circle_translation_within_depth(dx: int, dy: int, r_sum: int)
    requires
        0 <= r_sum,
        circles_overlap(dx, dy, r_sum),
    ensures
        abs(circle_circle_penetration(dx, dy, r_sum).x) <= circle_circle_penetration(
            dx,
            dy,
            r_sum,
        ).depth,
        abs(circle_circle_penetration(dx, dy, r_sum).y) <= circle_circle_penetration(
            dx,
            dy,
            r_sum,
        ).depth,
        dx > 0 ==> circle_circle_penetration(dx, dy, r_sum).x >= 0,
        dx < 0 ==> circle_circle_penetration(dx, dy, r_sum).x <= 0,
        dy > 0 ==> circle_circle_penetration(dx, dy, r_sum).y >= 0,
        dy < 0 ==> circle_circle_penetration(dx, dy, r_sum).y <= 0,
{
    lemma_circle_depth_brackets_distance(dx, dy, r_sum);
    lemma_component_within_root(dx, dy);
    lemma_component_within_root(dy, dx);
    assert(dist_sq(dy, dx) == dist_sq(dx, dy));
    let dist = isqrt_spec(dist_sq(dx, dy));
    let depth = r_sum - dist;
    if dist != 0 {
        lemma_scaled_within(abs(dx), depth, dist);
        lemma_scaled_within(abs(dy), depth, dist);
    }
}

/// Moving the first of two overlapping circles by the minimum translation
/// separates them.
pub proof fn lemma_circle_translation_separates(dx: int, dy: int, r_sum: int)
    requires
        0 <= r_sum,
        circles_overlap(dx, dy, r_sum),
    ensures
        !circles_overlap(
            dx + circle_circle_penetration(dx, dy, r_sum).x,
            dy + circle_circle_penetration(dx, dy, r_sum).y,
            r_sum,
        ),
{
    let n = dist_sq(dx, dy);
    lemma_square_bound(dx, abs(dx));
    lemma_square_bound(dy, abs(dy));
    lemma_isqrt_exists(n);
    lemma_isqrt_below(n, r_sum);
    let dist = isqrt_spec(n);
    let p = circle_circle_penetration(dx, dy, r_sum);
    if dist == 0 {
        if dx != 0 {
            lemma_square_at_least(dx, 1);
        }
        if dy != 0 {
            lemma_square_at_least(dy, 1);
        }
        assert(dx == 0 && dy == 0);
    } else {
        let depth = r_sum - dist;
        lemma_grown_component(dx, depth, dist, r_sum, 1);
        lemma_grown_component(dy, depth, dist, r_sum, 1);
        let nx = abs(dx) + abs(p.x);
        let ny = abs(dy) + abs(p.y);
        lemma_square_bound(dx, abs(dx));
        lemma_square_bound(dy, abs(dy));
        assert(abs(dx) * abs(dx) == dx * dx) by (nonlinear_arith);
        assert(abs(dy) * abs(dy) == dy * dy) by (nonlinear_arith);
        lemma_pushed_out(abs(dx), abs(dy), nx, ny, dist, r_sum);
        assert((dx + p.x) * (dx + p.x) == nx * nx) by (nonlinear_arith)
            requires
                dx + p.x == nx || dx + p.x == -nx,
        ;
        assert((dy + p.y) * (dy + p.y) == ny * ny) by (nonlinear_arith)
            requires
                dy + p.y == ny || dy + p.y == -ny,
        ;
    }
}

/// A component `c` that is pushed `k` times by `scale_away(c, gap, k * dist)`
/// keeps its sign and grows by the factor `(dist + gap) / dist` or more.
proof fn lemma_grown_component(c: int, gap: int, dist: int, total: int, k: int)
    requires
        0 < dist,
        0 <= gap,
        total == dist + gap,
        k == 1 || k == 2,
    ensures
        abs(scale_away(c, gap, k * dist)) == ceil_div(abs(c) * gap, k * dist),
        c >= 0 ==> scale_away(c, gap, k * dist) >= 0,
        c <= 0 ==> scale_away(c, gap, k * dist) <= 0,
        (abs(c) + k * abs(scale_away(c, gap, k * dist))) * dist >= abs(c) * total,
{
    let a = abs(c);
    assert(0 <= a * gap) by (nonlinear_arith)
        requires
            0 <= a,
            0 <= gap,
    ;
    lemma_ceil_div(a * gap, k * dist);
    let q = ceil_div(a * gap, k * dist);
    if c == 0 {
        assert(a * gap == 0) by (nonlinear_arith)
            requires
                a == 0,
        ;
        assert(q == 0) by (nonlinear_arith)
            requires
                0 <= q,
                q * (k * dist) < 0 + k * dist,
                0 < k * dist,
        ;
    }
    assert((a + k * q) * dist >= a * total) by (nonlinear_arith)
        requires
            q * (k * dist) >= a * gap,
            total == dist + gap,
    ;
}

/// Moving a circle that overlaps a box from outside by the minimum
/// translation separates the two.
pub proof fn lemma_circle_translation_clears_box(dx: int, dy: int, w: int, h: int, r: int)
    requires
        0 <= w,
        0 <= h,
        0 <= r,
        rect_circle_overlap(dx, dy, w, h, r),
        excess(2 * dx, w) != 0 || excess(2 * dy, h) != 0,
    ensures
        !rect_circle_overlap(
            dx + circle_box_penetration(dx, dy, w, h, r).x,
            dy + circle_box_penetration(dx, dy, w, h, r).y,
            w,
            h,
            r,
        ),
{
    let ex = excess(2 * dx, w);
    let ey = excess(2 * dy, h);
    let n = dist_sq(ex, ey);
    lemma_square_bound(ex, abs(ex));
    lemma_square_bound(ey, abs(ey));
    if ex != 0 {
        lemma_square_at_least(ex, 1);
    }
    if ey != 0 {
        lemma_square_at_least(ey, 1);
    }
    lemma_isqrt_exists(n);
    lemma_isqrt_below(n, 2 * r);
    let dist = isqrt_spec(n);
    assert(dist > 0) by {
        if dist == 0 {
            assert(n < 1);
        }
    }
    let gap = 2 * r - dist;
    let p = circle_box_penetration(dx, dy, w, h, r);
    lemma_grown_component(ex, gap, dist, 2 * r, 2);
    lemma_grown_component(ey, gap, dist, 2 * r, 2);
    let fx = excess(2 * (dx + p.x), w);
    let fy = excess(2 * (dy + p.y), h);
    let nx = abs(ex) + 2 * abs(p.x);
    let ny = abs(ey) + 2 * abs(p.y);
    assert(fx == ex + 2 * p.x);
    assert(fy == ey + 2 * p.y);
    assert(abs(ex) * abs(ex) == ex * ex) by (nonlinear_arith);
    assert(abs(ey) * abs(ey) == ey * ey) by (nonlinear_arith);
    lemma_pushed_out(abs(ex), abs(ey), nx, ny, dist, 2 * r);
    assert(fx * fx == nx * nx) by (nonlinear_arith)
        requires
            fx == nx || fx == -nx,
    ;
    assert(fy * fy == ny * ny) by (nonlinear_arith)
        requires
            fy == ny || fy == -ny,
    ;
}

/// Moving a circle of positive radius whose centre lies in a box by the
/// minimum translation puts it outside the box, no longer overlapping.
pub proof fn lemma_circle_translation_leaves_box(dx: int, dy: int, w: int, h: int, r: int)
    requires
        0 <= w,
        0 <= h,
        0 < r,
        2 * abs(dx) <= w,
        2 * abs(dy) <= h,
    ensures
        !rect_circle_overlap(
            dx + circle_box_penetration(dx, dy, w, h, r).x,
            dy + circle_box_penetration(dx, dy, w, h, r).y,
            w,
            h,
            r,
        ),
{
    let p = circle_box_penetration(dx, dy, w, h, r);
    let fx = excess(2 * (dx + p.x), w);
    let fy = excess(2 * (dy + p.y), h);
    lemma_square_bound(fx, abs(fx));
    lemma_square_bound(fy, abs(fy));
    if w - 2 * abs(dx) <= h - 2 * abs(dy) {
        lemma_square_at_least(fx, 2 * r);
    } else {
        lemma_square_at_least(fy, 2 * r);
    }
}

} // verus!
