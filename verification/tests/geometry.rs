use collisions::math::{isqrt, Displacement, Rect, Vec2};
use collisions::overlap::{circle_to_circle, rect_to_circle, rect_to_rect};
use collisions::shapes::collisions::{box_to_box, circle_to_box, Penetration};
use collisions::shapes::{compute_bounds, ColliderShapeType};

fn penetration(depth: i64, x: i64, y: i64) -> Option<Penetration> {
    Some(Penetration { depth, min_translation: Displacement { x, y } })
}

#[test]
fn isqrt_rounds_down() {
    assert_eq!(isqrt(0), 0);
    assert_eq!(isqrt(1), 1);
    assert_eq!(isqrt(3), 1);
    assert_eq!(isqrt(4), 2);
    assert_eq!(isqrt(15), 3);
    assert_eq!(isqrt(16), 4);
    assert_eq!(isqrt(17), 4);
    assert_eq!(isqrt(1_000_000), 1000);
    assert_eq!(isqrt(999_999), 999);
}

#[test]
fn isqrt_of_largest_values() {
    assert_eq!(isqrt(u128::MAX), u64::MAX);
    let root: u128 = u64::MAX as u128;
    assert_eq!(isqrt(root * root), u64::MAX);
    assert_eq!(isqrt(root * root - 1), u64::MAX - 1);
}

#[test]
fn circles_closer_than_radii_overlap() {
    assert!(circle_to_circle(Vec2::new(0, 0), 5, Vec2::new(8, 0), 4));
}

#[test]
fn circles_further_than_radii_do_not_overlap() {
    assert!(!circle_to_circle(Vec2::new(0, 0), 5, Vec2::new(10, 0), 4));
}

#[test]
fn touching_circles_do_not_overlap() {
    assert!(!circle_to_circle(Vec2::new(0, 0), 5, Vec2::new(9, 0), 4));
    assert!(!circle_to_circle(Vec2::new(0, 0), 2, Vec2::new(3, 4), 3));
    assert!(circle_to_circle(Vec2::new(0, 0), 3, Vec2::new(3, 4), 3));
}

#[test]
fn circle_overlap_is_symmetric() {
    let cases = [
        (Vec2::new(0, 0), 5u32, Vec2::new(8, 0), 4u32),
        (Vec2::new(0, 0), 5, Vec2::new(10, 0), 4),
        (Vec2::new(-7, 3), 1, Vec2::new(-6, 3), 0),
        (Vec2::new(-7, 3), 1, Vec2::new(-7, 3), 0),
        (Vec2::new(100, -100), 70, Vec2::new(0, 0), 72),
    ];
    for (a, ra, b, rb) in cases {
        assert_eq!(circle_to_circle(a, ra, b, rb), circle_to_circle(b, rb, a, ra));
    }
}

#[test]
fn points_never_overlap_as_circles() {
    assert!(!circle_to_circle(Vec2::new(1, 1), 0, Vec2::new(1, 1), 0));
}

#[test]
fn circles_at_the_ends_of_the_grid() {
    let low = Vec2::new(i32::MIN, i32::MIN);
    let high = Vec2::new(i32::MAX, i32::MAX);
    assert!(circle_to_circle(low, u32::MAX, high, u32::MAX));
    assert!(!circle_to_circle(low, 1, high, 1));
    assert!(!rect_to_circle(i32::MIN, i32::MIN, 2, 2, high, 1));
    assert!(rect_to_circle(i32::MIN, i32::MIN, u32::MAX, u32::MAX, high, u32::MAX));
    assert!(!rect_to_rect(i32::MIN, i32::MIN, 2, 2, i32::MAX, i32::MAX, 2, 2));
}

#[test]
fn box_and_circle_near_its_edge_overlap() {
    assert!(rect_to_circle(0, 0, 10, 10, Vec2::new(6, 0), 2));
}

#[test]
fn box_and_circle_touching_do_not_overlap() {
    assert!(!rect_to_circle(0, 0, 10, 10, Vec2::new(7, 0), 2));
    assert!(!rect_to_circle(0, 0, 10, 10, Vec2::new(8, 9), 5));
    assert!(rect_to_circle(0, 0, 10, 10, Vec2::new(8, 9), 6));
}

#[test]
fn circle_with_centre_in_box_always_overlaps() {
    for x in -5..=5 {
        for y in -2..=2 {
            for r in [0u32, 1, 9] {
                assert!(rect_to_circle(0, 0, 10, 4, Vec2::new(x, y), r));
            }
        }
    }
    assert!(!rect_to_circle(0, 0, 10, 4, Vec2::new(6, 0), 0));
}

#[test]
fn odd_box_sizes_keep_their_half_units() {
    // A box of width 5 reaches 2.5 to either side.
    assert!(rect_to_rect(0, 0, 5, 5, 4, 0, 5, 5));
    assert!(!rect_to_rect(0, 0, 5, 5, 5, 0, 5, 5));
    assert!(rect_to_rect(0, 0, 7, 7, 6, 0, 7, 7));
    assert!(!rect_to_rect(0, 0, 7, 7, 7, 0, 7, 7));
    assert!(rect_to_rect(0, 0, 5, 5, 0, 4, 4, 4));
    assert!(!rect_to_rect(0, 0, 5, 5, 0, 5, 5, 5));
    assert!(rect_to_circle(0, 0, 5, 5, Vec2::new(3, 0), 1));
    assert!(!rect_to_circle(0, 0, 5, 5, Vec2::new(4, 0), 1));
    assert!(rect_to_circle(0, 0, 7, 7, Vec2::new(4, 0), 1));
    assert!(rect_to_circle(0, 0, 8, 8, Vec2::new(4, 0), 1));
    assert!(!rect_to_circle(0, 0, 8, 8, Vec2::new(5, 0), 1));
    // Half a unit diagonally off the corner of a 5 by 5 box.
    assert!(rect_to_circle(0, 0, 5, 5, Vec2::new(3, 3), 1));
    assert!(!rect_to_circle(0, 0, 5, 5, Vec2::new(3, 4), 1));
}

#[test]
fn boxes_overlap_on_both_axes_only() {
    assert!(rect_to_rect(0, 0, 4, 4, 3, 3, 4, 4));
    assert!(!rect_to_rect(0, 0, 4, 4, 4, 0, 4, 4));
    assert!(!rect_to_rect(0, 0, 4, 4, 3, 4, 4, 4));
    assert!(rect_to_rect(0, 0, 4, 4, -3, -3, 4, 4));
}

#[test]
fn circle_penetration_along_axis() {
    let res = collisions::shapes::collisions::circle_to_circle(Displacement { x: -8, y: 0 }, 5, 4);
    assert_eq!(res, penetration(1, -1, 0));
}

#[test]
fn circle_penetration_along_diagonal() {
    let hit = collisions::shapes::collisions::circle_to_circle;
    assert_eq!(hit(Displacement { x: 3, y: 4 }, 6, 4), penetration(5, 3, 4));
    assert_eq!(hit(Displacement { x: -3, y: -4 }, 6, 4), penetration(5, -3, -4));
    assert_eq!(hit(Displacement { x: 1, y: 1 }, 1, 2), penetration(2, 2, 2));
    assert_eq!(hit(Displacement { x: -6, y: 8 }, 7, 7), penetration(4, -3, 4));
    assert_eq!(hit(Displacement { x: 3, y: 4 }, 5, 1), penetration(1, 1, 1));
}

#[test]
fn circle_penetration_with_one_centre() {
    let res = collisions::shapes::collisions::circle_to_circle(Displacement { x: 0, y: 0 }, 2, 3);
    assert_eq!(res, penetration(5, 5, 0));
}

#[test]
fn circle_penetration_none_when_apart() {
    let hit = collisions::shapes::collisions::circle_to_circle;
    assert_eq!(hit(Displacement { x: 9, y: 0 }, 5, 4), None);
    assert_eq!(hit(Displacement { x: 0, y: 0 }, 0, 0), None);
    assert_eq!(hit(Displacement { x: i64::MAX, y: i64::MIN }, u32::MAX, u32::MAX), None);
    assert_eq!(hit(Displacement { x: 0, y: i64::MIN }, u32::MAX, u32::MAX), None);
}

#[test]
fn circle_penetration_of_largest_circles() {
    let res = collisions::shapes::collisions::circle_to_circle(
        Displacement { x: -4294967295, y: 0 },
        u32::MAX,
        u32::MAX,
    );
    assert_eq!(res, penetration(4294967295, -4294967295, 0));
}

#[test]
fn circle_outside_box_is_pushed_from_nearest_point() {
    assert_eq!(circle_to_box(Displacement { x: 6, y: 0 }, 2, 10, 10), penetration(1, 1, 0));
    assert_eq!(circle_to_box(Displacement { x: -6, y: -7 }, 5, 10, 10), penetration(3, -2, -3));
    assert_eq!(circle_to_box(Displacement { x: 3, y: 0 }, 1, 5, 5), penetration(1, 1, 0));
    assert_eq!(circle_to_box(Displacement { x: 3, y: 3 }, 1, 5, 5), penetration(1, 1, 1));
    assert_eq!(circle_to_box(Displacement { x: 7, y: 0 }, 2, 10, 10), None);
}

#[test]
fn circle_inside_box_leaves_through_nearer_face() {
    assert_eq!(circle_to_box(Displacement { x: 3, y: 0 }, 2, 10, 10), penetration(4, 4, 0));
    assert_eq!(circle_to_box(Displacement { x: -3, y: 0 }, 2, 10, 10), penetration(4, -4, 0));
    assert_eq!(circle_to_box(Displacement { x: 0, y: -4 }, 2, 10, 10), penetration(3, 0, -3));
    assert_eq!(circle_to_box(Displacement { x: 0, y: 0 }, 2, 10, 10), penetration(7, 7, 0));
    assert_eq!(circle_to_box(Displacement { x: 1, y: 0 }, 1, 5, 5), penetration(3, 3, 0));
    assert_eq!(circle_to_box(Displacement { x: 0, y: -2 }, 1, 5, 5), penetration(2, 0, -2));
}

#[test]
fn point_on_box_corner_has_depth_zero() {
    assert_eq!(circle_to_box(Displacement { x: 5, y: 5 }, 0, 10, 10), penetration(0, 0, 0));
}

#[test]
fn circle_far_from_box_does_not_collide() {
    assert_eq!(circle_to_box(Displacement { x: i64::MAX, y: 0 }, u32::MAX, 4, 4), None);
    assert_eq!(circle_to_box(Displacement { x: 0, y: i64::MIN }, u32::MAX, u32::MAX, 4), None);
}

#[test]
fn box_penetration_takes_smaller_axis() {
    assert_eq!(box_to_box(Displacement { x: 3, y: 0 }, 4, 4, 4, 4), penetration(1, 1, 0));
    assert_eq!(box_to_box(Displacement { x: -3, y: 1 }, 4, 4, 4, 4), penetration(1, -1, 0));
    assert_eq!(box_to_box(Displacement { x: 1, y: -3 }, 4, 4, 4, 4), penetration(1, 0, -1));
    assert_eq!(box_to_box(Displacement { x: 0, y: 0 }, 4, 4, 4, 6), penetration(4, 4, 0));
    assert_eq!(box_to_box(Displacement { x: 4, y: 0 }, 4, 4, 4, 4), None);
    assert_eq!(box_to_box(Displacement { x: i64::MIN, y: i64::MAX }, 4, 4, 4, 4), None);
    assert_eq!(box_to_box(Displacement { x: 4, y: 0 }, 5, 5, 5, 5), penetration(1, 1, 0));
    assert_eq!(box_to_box(Displacement { x: 2, y: 0 }, 5, 5, 4, 4), penetration(3, 3, 0));
    assert_eq!(box_to_box(Displacement { x: 0, y: -4 }, 5, 5, 4, 4), penetration(1, 0, -1));
    assert_eq!(box_to_box(Displacement { x: 5, y: 0 }, 5, 5, 5, 5), None);
}

#[test]
fn box_translation_separates_the_boxes() {
    for dx in -5i64..=5 {
        for dy in -5i64..=5 {
            for (w, h) in [(4u32, 4u32), (5, 4), (5, 3)] {
                if let Some(p) = box_to_box(Displacement { x: dx, y: dy }, w, h, 4, 5) {
                    let moved = Displacement {
                        x: dx + p.min_translation.x,
                        y: dy + p.min_translation.y,
                    };
                    assert_eq!(box_to_box(moved, w, h, 4, 5), None);
                }
            }
        }
    }
}

#[test]
fn circle_translation_separates_the_circles() {
    let hit = collisions::shapes::collisions::circle_to_circle;
    let mut hits: u32 = 0;
    for dx in -15i64..=15 {
        for dy in -15i64..=15 {
            for (r1, r2) in [(7u32, 7u32), (5, 1), (1, 0), (10, 3)] {
                if let Some(p) = hit(Displacement { x: dx, y: dy }, r1, r2) {
                    hits += 1;
                    let moved = Displacement {
                        x: dx + p.min_translation.x,
                        y: dy + p.min_translation.y,
                    };
                    assert_eq!(hit(moved, r1, r2), None);
                }
            }
        }
    }
    assert!(hits > 0);
}

#[test]
fn circle_translation_separates_circle_and_box() {
    let mut hits: u32 = 0;
    for dx in -12i64..=12 {
        for dy in -12i64..=12 {
            for (r, w, h) in [(2u32, 10u32, 10u32), (1, 5, 5), (6, 7, 2), (3, 0, 0)] {
                if let Some(p) = circle_to_box(Displacement { x: dx, y: dy }, r, w, h) {
                    hits += 1;
                    let moved = Displacement {
                        x: dx + p.min_translation.x,
                        y: dy + p.min_translation.y,
                    };
                    assert_eq!(circle_to_box(moved, r, w, h), None);
                }
            }
        }
    }
    assert!(hits > 0);
}

#[test]
fn bounds_of_circle_surround_centre() {
    let r = compute_bounds(
        ColliderShapeType::Circle { radius: 5 },
        Vec2::new(100, 100),
        Vec2::new(3, -7),
    );
    assert_eq!(r, Rect::new(-4, -24, 10, 10));
    assert_eq!(r.x2, 2 * (3 - 5));
    assert_eq!(r.y2, 2 * (-7 - 5));
}

#[test]
fn bounds_of_box_start_half_extent_before_position() {
    let r = compute_bounds(
        ColliderShapeType::Box { width: 7, height: 4 },
        Vec2::new(10, 20),
        Vec2::new(0, 0),
    );
    // The corner is at (6.5, 18), held doubled.
    assert_eq!(r, Rect::new(13, 36, 7, 4));
    let odd = compute_bounds(
        ColliderShapeType::Box { width: 5, height: 5 },
        Vec2::new(0, 0),
        Vec2::new(0, 0),
    );
    assert_eq!(odd, Rect::new(-5, -5, 5, 5));
}

#[test]
fn bounds_of_largest_shapes() {
    let r = compute_bounds(
        ColliderShapeType::Circle { radius: u32::MAX },
        Vec2::new(0, 0),
        Vec2::new(i32::MIN, i32::MAX),
    );
    assert_eq!(r, Rect::new(-12884901886, -4294967296, 8589934590, 8589934590));
}
