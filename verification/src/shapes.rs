//! Collider shapes: a kind with its size, placed at a position, with a
//! cached bounding rectangle.

use vstd::prelude::*;
use crate::math::{Rect, Vec2};

pub mod collisions;

verus! {

/// The kind of a shape and its size.
#[derive(Clone, Copy, Debug, PartialEq, Eq, Structural)]
pub enum ColliderShapeType {
    Circle { radius: u32 },
    Box { width: u32, height: u32 },
}

/// A shape placed in the world.
///
/// `bounds` caches the bounding rectangle of the shape; it is up to date
/// when it equals [`bounds_of`] of the other three fields.
#[derive(Clone, Copy, Debug, PartialEq, Eq, Structural)]
pub struct ColliderShape {
    pub shape_type: ColliderShapeType,
    pub position: Vec2,
    pub center: Vec2,
    pub bounds: Rect,
}

/// The bounding rectangle of a shape. A circle's is the square of side
/// `2 * radius` around its centre; a box's has the box's size and starts
/// half its width and half its height before its position. The origin is
/// held doubled, so that half of an odd size is exact.
pub open spec fn bounds_of(shape_type: ColliderShapeType, position: Vec2, center: Vec2) -> Rect {
    match shape_type {
        ColliderShapeType::Circle { radius } => Rect {
            x2: (2 * (center.x - radius)) as i64,
            y2: (2 * (center.y - radius)) as i64,
            width: (2 * radius) as i64,
            height: (2 * radius) as i64,
        },
        ColliderShapeType::Box { width, height } => Rect {
            x2: (2 * position.x - width) as i64,
            y2: (2 * position.y - height) as i64,
            width: width as i64,
            height: height as i64,
        },
    }
}

/// Computes [`bounds_of`].
pub fn compute_bounds(shape_type: ColliderShapeType, position: Vec2, center: Vec2) -> (r: Rect)
    ensures
        r == bounds_of(shape_type, position, center),
        r.width >= 0,
        r.height >= 0,
        r.x2 + r.width == 2 * (match shape_type {
            ColliderShapeType::Circle { .. } => center.x,
            ColliderShapeType::Box { .. } => position.x,
        }),
        r.y2 + r.height == 2 * (match shape_type {
            ColliderShapeType::Circle { .. } => center.y,
            ColliderShapeType::Box { .. } => position.y,
        }),
{
    match shape_type {
        ColliderShapeType::Circle { radius } => Rect {
            x2: 2 * (center.x as i64 - radius as i64),
            y2: 2 * (center.y as i64 - radius as i64),
            width: 2 * (radius as i64),
            height: 2 * (radius as i64),
        },
        ColliderShapeType::Box { width, height } => Rect {
            x2: 2 * (position.x as i64) - width as i64,
            y2: 2 * (position.y as i64) - height as i64,
            width: width as i64,
            height: height as i64,
        },
    }
}

impl ColliderShape {
    /// The cached bounds are those of the shape where it stands.
    pub open spec fn bounds_current(&self) -> bool {
        self.bounds == bounds_of(self.shape_type, self.position, self.center)
    }
}

} // verus!
