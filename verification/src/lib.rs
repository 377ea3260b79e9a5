//! Narrow-phase collision detection for circles and axis-aligned boxes on an
//! integer grid: overlap tests, penetration results, colliders and the
//! registry that owns them.

pub mod math;
pub mod overlap;
pub mod shapes;
pub mod colliders;
pub mod collider_map;
pub mod registry;
