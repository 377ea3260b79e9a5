//! Colliders: a shape with its collision settings, and the queries between
//! two of them.

use vstd::prelude::*;
use crate::math::{Displacement, Rect, Vec2};
use crate::overlap::{
    abs, circle_to_circle, circles_overlap, excess, lemma_square_at_least, lemma_square_bound,
    rect_circle_overlap, rect_to_circle, rect_to_rect, rects_overlap,
};
use crate::shapes::collisions::{
    box_box_penetration, box_to_box, circle_box_penetration, circle_circle_penetration,
    circle_to_box, Penetration, PenetrationView,
};
use crate::shapes::{bounds_of, compute_bounds, ColliderShape, ColliderShapeType};

verus! {

/// The layer mask that matches every layer.
pub const ALL_LAYERS: i32 = -1;

/// Whether a shape of kind `first` overlaps one of kind `second`, the first
/// standing `(dx, dy)` away from the second.
pub open spec fn shapes_overlap_at(
    first: ColliderShapeType,
    second: ColliderShapeType,
    dx: int,
    dy: int,
) -> bool {
    match (first, second) {
        (ColliderShapeType::Circle { radius: r1 }, ColliderShapeType::Circle { radius: r2 }) => {
            circles_overlap(dx, dy, r1 + r2)
        },
        (ColliderShapeType::Circle { radius }, ColliderShapeType::Box { width, height }) => {
            rect_circle_overlap(dx, dy, width as int, height as int, radius as int)
        },
        (ColliderShapeType::Box { width, height }, ColliderShapeType::Circle { radius }) => {
            rect_circle_overlap(-dx, -dy, width as int, height as int, radius as int)
        },
        (
            ColliderShapeType::Box { width: w1, height: h1 },
            ColliderShapeType::Box { width: w2, height: h2 },
        ) => rects_overlap(dx, dy, w1 + w2, h1 + h2),
    }
}

/// The penetration of two overlapping shapes, the first standing `(dx, dy)`
/// away from the second. Between a circle and a box the translation is the
/// circle's, whichever of the two comes first; otherwise it is the first
/// shape's.
pub open spec fn penetration_at(
    first: ColliderShapeType,
    second: ColliderShapeType,
    dx: int,
    dy: int,
) -> PenetrationView {
    match (first, second) {
        (ColliderShapeType::Circle { radius: r1 }, ColliderShapeType::Circle { radius: r2 }) => {
            circle_circle_penetration(dx, dy, r1 + r2)
        },
        (ColliderShapeType::Circle { radius }, ColliderShapeType::Box { width, height }) => {
            circle_box_penetration(dx, dy, width as int, height as int, radius as int)
        },
        (ColliderShapeType::Box { width, height }, ColliderShapeType::Circle { radius }) => {
            circle_box_penetration(-dx, -dy, width as int, height as int, radius as int)
        },
        (
            ColliderShapeType::Box { width: w1, height: h1 },
            ColliderShapeType::Box { width: w2, height: h2 },
        ) => box_box_penetration(dx, dy, w1 + w2, h1 + h2),
    }
}

/// A circle whose centre is further from a box's centre, along one axis,
/// than the box's size and the radius together does not overlap the box.
proof fn lemma_far_circle_misses_box(dx: int, dy: int, w: int, h: int, r: int)
    requires
        0 <= r,
        0 <= w,
        0 <= h,
        dx >= w + r + 1 || dy >= h + r + 1,
    ensures
        !rect_circle_overlap(dx, dy, w, h, r),
{
    let ex = excess(2 * dx, w);
    let ey = excess(2 * dy, h);
    lemma_square_bound(ex, abs(ex));
    lemma_square_bound(ey, abs(ey));
    if dx >= w + r + 1 {
        lemma_square_at_least(ex, 2 * r);
    } else {
        lemma_square_at_least(ey, 2 * r);
    }
}

/// The penetration of a shape of kind `first` into one of kind `second`,
/// the first standing `offset` away from the second; `None` where they do
/// not overlap.
pub fn penetration_between(
    first: ColliderShapeType,
    second: ColliderShapeType,
    offset: Displacement,
) -> (res: Option<Penetration>)
    ensures
        res is Some <==> shapes_overlap_at(first, second, offset.x as int, offset.y as int),
        res matches Some(p) ==> p@ == penetration_at(
            first,
            second,
            offset.x as int,
            offset.y as int,
        ) && p.depth >= 0,
{
    match first {
        ColliderShapeType::Circle { radius: r1 } => match second {
            ColliderShapeType::Circle { radius: r2 } => crate::shapes::collisions::circle_to_circle(
                offset,
                r1,
                r2,
            ),
            ColliderShapeType::Box { width, height } => circle_to_box(offset, r1, width, height),
        },
        ColliderShapeType::Box { width: w1, height: h1 } => match second {
            ColliderShapeType::Circle { radius } => {
                if offset.x == i64::MIN || offset.y == i64::MIN {
                    proof {
                        lemma_far_circle_misses_box(
                            -offset.x,
                            -offset.y,
                            w1 as int,
                            h1 as int,
                            radius as int,
                        );
                    }
                    None
                } else {
                    circle_to_box(Displacement { x: -offset.x, y: -offset.y }, radius, w1, h1)
                }
            },
            ColliderShapeType::Box { width: w2, height: h2 } => box_to_box(offset, w1, h1, w2, h2),
        },
    }
}

/// A shape with its collision settings.
#[derive(Clone, Copy, Debug, PartialEq, Eq, Structural)]
pub struct Collider {
    /// The underlying shape.
    pub shape: ColliderShape,
    /// A trigger overlaps other colliders but never collides with them.
    pub is_trigger: bool,
    /// Added to the shape's position to place the collider's geometry.
    pub local_offset: Vec2,
    /// The layer this collider is on, as a bit mask.
    pub physics_layer: i32,
    /// The layers this collider collides with, as a bit mask. No query
    /// consults the layers.
    pub collides_with_layers: i32,
}

/// A collision: the penetration, and the collider that was hit.
#[derive(Clone, Copy, Debug)]
pub struct CollisionResultRef<'a> {
    /// The other participant of the collision.
    pub collider: &'a Collider,
    pub penetration: Penetration,
}

impl Collider {
    /// The collider that `new` makes of a shape kind: at the origin, with
    /// current bounds, no trigger, no offset, on layer bit 0, colliding
    /// with every layer.
    pub open spec fn new_spec(shape_type: ColliderShapeType) -> Collider {
        Collider {
            shape: ColliderShape {
                shape_type,
                position: Vec2 { x: 0, y: 0 },
                center: Vec2 { x: 0, y: 0 },
                bounds: bounds_of(shape_type, Vec2 { x: 0, y: 0 }, Vec2 { x: 0, y: 0 }),
            },
            is_trigger: false,
            local_offset: Vec2 { x: 0, y: 0 },
            physics_layer: 1,
            collides_with_layers: ALL_LAYERS,
        }
    }

    /// The offset of this collider's position from `other`'s.
    pub open spec fn offset_from(&self, other: &Collider) -> (int, int) {
        (
            self.shape.position.x - other.shape.position.x,
            self.shape.position.y - other.shape.position.y,
        )
    }

    /// Whether the two shapes overlap where they stand.
    pub open spec fn overlaps_spec(&self, other: &Collider) -> bool {
        shapes_overlap_at(
            self.shape.shape_type,
            other.shape.shape_type,
            self.offset_from(other).0,
            self.offset_from(other).1,
        )
    }

    /// Whether the two shapes would overlap with this one moved by `motion`.
    pub open spec fn overlaps_after_spec(&self, motion: Vec2, other: &Collider) -> bool {
        shapes_overlap_at(
            self.shape.shape_type,
            other.shape.shape_type,
            self.offset_from(other).0 + motion.x,
            self.offset_from(other).1 + motion.y,
        )
    }

    /// The penetration of this collider into `other` once moved by `motion`.
    pub open spec fn penetration_after_spec(&self, motion: Vec2, other: &Collider)
        -> PenetrationView {
        penetration_at(
            self.shape.shape_type,
            other.shape.shape_type,
            self.offset_from(other).0 + motion.x,
            self.offset_from(other).1 + motion.y,
        )
    }

    /// Whether a transform at `translation` differs from where the shape is.
    pub open spec fn needs_update_spec(&self, translation: Vec2) -> bool {
        self.shape.position != translation || self.shape.center != translation
    }

    /// This collider with its cached bounds brought up to date.
    pub open spec fn with_current_bounds(self) -> Collider {
        Collider {
            shape: ColliderShape {
                bounds: bounds_of(self.shape.shape_type, self.shape.position, self.shape.center),
                ..self.shape
            },
            ..self
        }
    }

    /// This collider after a transform at `translation` was pushed into it.
    pub open spec fn updated_spec(self, translation: Vec2) -> Collider {
        if self.needs_update_spec(translation) {
            Collider {
                shape: ColliderShape {
                    shape_type: self.shape.shape_type,
                    position: translation,
                    center: translation,
                    bounds: bounds_of(self.shape.shape_type, translation, translation),
                },
                ..self
            }
        } else {
            self
        }
    }

    pub fn new(shape_type: ColliderShapeType) -> (c: Collider)
        ensures
            c == Collider::new_spec(shape_type),
            c.shape.bounds_current(),
    {
        let origin = Vec2::zero();
        Collider {
            shape: ColliderShape {
                shape_type,
                position: origin,
                center: origin,
                bounds: compute_bounds(shape_type, origin, origin),
            },
            is_trigger: false,
            local_offset: origin,
            physics_layer: 1,
            collides_with_layers: ALL_LAYERS,
        }
    }

    pub fn position(&self) -> (p: Vec2)
        ensures
            p == self.shape.position,
    {
        self.shape.position
    }

    /// The shape's position with the local offset added.
    pub fn absolute_position(&self) -> (p: Displacement)
        ensures
            p.x == self.shape.position.x + self.local_offset.x,
            p.y == self.shape.position.y + self.local_offset.y,
    {
        Displacement {
            x: self.shape.position.x as i64 + self.local_offset.x as i64,
            y: self.shape.position.y as i64 + self.local_offset.y as i64,
        }
    }

    pub fn bounds(&self) -> (r: Rect)
        ensures
            r == self.shape.bounds,
    {
        self.shape.bounds
    }

    pub fn center(&self) -> (p: Vec2)
        ensures
            p == self.shape.center,
    {
        self.shape.center
    }

    /// Whether this collider's shape overlaps `other`'s. Triggers and
    /// layers play no part.
    pub fn overlaps(&self, other: &Collider) -> (res: bool)
        ensures
            res == self.overlaps_spec(other),
    {
        let position = self.position();
        match self.shape.shape_type {
            ColliderShapeType::Circle { radius: r1 } => match other.shape.shape_type {
                ColliderShapeType::Circle { radius: r2 } => circle_to_circle(
                    position,
                    r1,
                    other.position(),
                    r2,
                ),
                ColliderShapeType::Box { width, height } => rect_to_circle(
                    other.position().x,
                    other.position().y,
                    width,
                    height,
                    position,
                    r1,
                ),
            },
            ColliderShapeType::Box { width: w1, height: h1 } => match other.shape.shape_type {
                ColliderShapeType::Circle { radius } => rect_to_circle(
                    position.x,
                    position.y,
                    w1,
                    h1,
                    other.position(),
                    radius,
                ),
                ColliderShapeType::Box { width: w2, height: h2 } => rect_to_rect(
                    position.x,
                    position.y,
                    w1,
                    h1,
                    other.position().x,
                    other.position().y,
                    w2,
                    h2,
                ),
            },
        }
    }

    /// The collision of this collider with `other`: `None` where either is
    /// a trigger or the shapes do not overlap. Between a circle and a box
    /// the translation in the result is the circle's, whichever of the two
    /// is asked; otherwise it is this collider's.
    pub fn collides_with<'a>(&self, other: &'a Collider) -> (res: Option<CollisionResultRef<'a>>)
        ensures
            res is Some <==> !self.is_trigger && !other.is_trigger && self.overlaps_spec(other),
            res matches Some(c) ==> c.collider == other && c.penetration.depth >= 0
                && c.penetration@ == self.penetration_after_spec(Vec2 { x: 0, y: 0 }, other),
    {
        if self.is_trigger || other.is_trigger {
            return None;
        }
        let offset = Displacement {
            x: self.shape.position.x as i64 - other.shape.position.x as i64,
            y: self.shape.position.y as i64 - other.shape.position.y as i64,
        };
        match penetration_between(self.shape.shape_type, other.shape.shape_type, offset) {
            Some(penetration) => Some(CollisionResultRef { collider: other, penetration }),
            None => None,
        }
    }

    /// The collision this collider would have with `other` if it moved by
    /// `motion`. The collider itself is left as it was.
    pub fn collides_with_motion<'a>(&mut self, motion: Vec2, other: &'a Collider) -> (res: Option<
        CollisionResultRef<'a>,
    >)
        ensures
            *final(self) == *old(self),
            res is Some <==> !old(self).is_trigger && !other.is_trigger && old(
                self,
            ).overlaps_after_spec(motion, other),
            res matches Some(c) ==> c.collider == other && c.penetration.depth >= 0
                && c.penetration@ == old(self).penetration_after_spec(motion, other),
    {
        if self.is_trigger || other.is_trigger {
            return None;
        }
        let offset = Displacement {
            x: self.shape.position.x as i64 + motion.x as i64 - other.shape.position.x as i64,
            y: self.shape.position.y as i64 + motion.y as i64 - other.shape.position.y as i64,
        };
        match penetration_between(self.shape.shape_type, other.shape.shape_type, offset) {
            Some(penetration) => Some(CollisionResultRef { collider: other, penetration }),
            None => None,
        }
    }

    /// Recomputes the cached bounds from the shape's kind and place.
    pub fn recalc_bounds(&mut self)
        ensures
            *final(self) == old(self).with_current_bounds(),
            final(self).shape.bounds_current(),
    {
        self.shape.bounds = compute_bounds(
            self.shape.shape_type,
            self.shape.position,
            self.shape.center,
        );
    }

    /// Whether a transform at `translation` differs from the shape's
    /// position or centre.
    pub fn needs_update(&self, translation: Vec2) -> (res: bool)
        ensures
            res == self.needs_update_spec(translation),
    {
        self.shape.position.x != translation.x || self.shape.position.y != translation.y
            || self.shape.center.x != translation.x || self.shape.center.y != translation.y
    }

    /// Pushes a transform at `translation` into the shape: where position
    /// and centre are there already, nothing happens; otherwise both move
    /// there and the bounds are recomputed.
    pub fn update_from_transform(&mut self, translation: Vec2)
        ensures
            *final(self) == old(self).updated_spec(translation),
            old(self).shape.bounds_current() ==> final(self).shape.bounds_current(),
    {
        if !self.needs_update(translation) {
            return ;
        }
        self.shape.position.x = translation.x;
        self.shape.position.y = translation.y;
        self.shape.center = self.shape.position;
        self.recalc_bounds();
    }
}

/// Pushing the same transform a second time changes nothing: after the
/// first push no update is needed, so the bounds are not recomputed again.
pub proof fn lemma_update_from_transform_idempotent(c: Collider, translation: Vec2)
    ensures
        !c.updated_spec(translation).needs_update_spec(translation),
        c.updated_spec(translation).updated_spec(translation) == c.updated_spec(translation),
{
}

/// A circle whose centre lies in a box overlaps the box, whichever of the
/// two colliders is asked, and whatever the circle's radius.
pub proof fn lemma_circle_inside_box_overlaps(circle: Collider, cuboid: Collider)
    requires
        circle.shape.shape_type is Circle,
        cuboid.shape.shape_type is Box,
        2 * abs(circle.shape.position.x - cuboid.shape.position.x)
            <= cuboid.shape.shape_type->width,
        2 * abs(circle.shape.position.y - cuboid.shape.position.y)
            <= cuboid.shape.shape_type->height,
    ensures
        circle.overlaps_spec(&cuboid),
        cuboid.overlaps_spec(&circle),
{
}

/// Overlap does not depend on which of the two colliders is asked.
pub proof fn lemma_overlaps_symmetric(a: Collider, b: Collider)
    ensures
        a.overlaps_spec(&b) == b.overlaps_spec(&a),
{
    let dx = a.offset_from(&b).0;
    let dy = a.offset_from(&b).1;
    assert(b.offset_from(&a).0 == -dx);
    assert(b.offset_from(&a).1 == -dy);
    assert((-dx) * (-dx) == dx * dx) by (nonlinear_arith);
    assert((-dy) * (-dy) == dy * dy) by (nonlinear_arith);
}

} // verus!
