//! Points and vectors of the world, in integer length units.
use vstd::prelude::*;

verus! {

/// Largest magnitude of a world coordinate.
pub const COORD_LIMIT: i64 = 0x100_0000_0000;

/// A vector of the tube's cross-section plane.
#[derive(Clone, Copy, Debug, PartialEq, Eq, Structural)]
pub struct Vec2 {
    pub x: i64,
    pub y: i64,
}

/// A vector of the world; `z` runs along the tube's axis and decreases as the player advances.
#[derive(Clone, Copy, Debug, PartialEq, Eq, Structural)]
pub struct Vec3 {
    pub x: i64,
    pub y: i64,
    pub z: i64,
}

/// Every coordinate of `v` lies within the world's bounds.
pub open spec fn vec3_ok(v: Vec3) -> bool {
    &&& -COORD_LIMIT <= v.x <= COORD_LIMIT
    &&& -COORD_LIMIT <= v.y <= COORD_LIMIT
    &&& -COORD_LIMIT <= v.z <= COORD_LIMIT
}

/// Both coordinates of `v` lie within the world's bounds.
pub open spec fn vec2_ok(v: Vec2) -> bool {
    &&& -COORD_LIMIT <= v.x <= COORD_LIMIT
    &&& -COORD_LIMIT <= v.y <= COORD_LIMIT
}

/// Squared length of the cross-section part of `v`.
pub open spec fn len2_xy(x: int, y: int) -> int {
    x * x + y * y
}

} // verus!
