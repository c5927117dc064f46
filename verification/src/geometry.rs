//! Shared geometric primitives: fixed-point 3D points and component-wise
//! bounding boxes.

use vstd::prelude::*;

use crate::num::COORD_LIMIT;

verus! {

/// A 3-component coordinate in fixed-point units of 1/SCALE of a pixel.
/// Before the screen transform it is a model-space vertex; after it, a
/// screen-space position whose `z` is kept as depth.
#[derive(Clone, Copy, Debug, PartialEq, Eq, Structural)]
pub struct Point3 {
    pub x: i64,
    pub y: i64,
    pub z: i64,
}

impl Point3 {
    /// All components within the coordinate budget of the rasterizer.
    pub open spec fn in_range(self) -> bool {
        &&& -COORD_LIMIT <= self.x <= COORD_LIMIT
        &&& -COORD_LIMIT <= self.y <= COORD_LIMIT
        &&& -COORD_LIMIT <= self.z <= COORD_LIMIT
    }

    pub fn new(x: i64, y: i64, z: i64) -> (r: Point3)
        ensures
            r.x == x,
            r.y == y,
            r.z == z,
    {
        Point3 { x, y, z }
    }
}

/// Component-wise minimum and maximum over a non-empty set of points: the
/// corners of the axis-aligned bounding box.
pub fn minmax(vectors: &[Point3]) -> (r: (Point3, Point3))
    requires
        vectors@.len() > 0,
    ensures
        forall|i: int| 0 <= i < vectors@.len() ==> {
            &&& r.0.x <= #[trigger] vectors@[i].x <= r.1.x
            &&& r.0.y <= vectors@[i].y <= r.1.y
            &&& r.0.z <= vectors@[i].z <= r.1.z
        },
        exists|i: int| 0 <= i < vectors@.len() && r.0.x == #[trigger] vectors@[i].x,
        exists|i: int| 0 <= i < vectors@.len() && r.0.y == #[trigger] vectors@[i].y,
        exists|i: int| 0 <= i < vectors@.len() && r.0.z == #[trigger] vectors@[i].z,
        exists|i: int| 0 <= i < vectors@.len() && r.1.x == #[trigger] vectors@[i].x,
        exists|i: int| 0 <= i < vectors@.len() && r.1.y == #[trigger] vectors@[i].y,
        exists|i: int| 0 <= i < vectors@.len() && r.1.z == #[trigger] vectors@[i].z,
{
    let first = vectors[0];
    let mut min = first;
    let mut max = first;
    proof {
        assert(vectors@[0].x == first.x && vectors@[0].y == first.y && vectors@[0].z == first.z);
    }
    let mut idx: usize = 0;
    while idx < vectors.len()
        invariant
            idx <= vectors@.len(),
            vectors@.len() > 0,
            forall|i: int| 0 <= i < idx ==> {
                &&& min.x <= #[trigger] vectors@[i].x <= max.x
                &&& min.y <= vectors@[i].y <= max.y
                &&& min.z <= vectors@[i].z <= max.z
            },
            exists|i: int| 0 <= i < vectors@.len() && min.x == #[trigger] vectors@[i].x,
            exists|i: int| 0 <= i < vectors@.len() && min.y == #[trigger] vectors@[i].y,
            exists|i: int| 0 <= i < vectors@.len() && min.z == #[trigger] vectors@[i].z,
            exists|i: int| 0 <= i < vectors@.len() && max.x == #[trigger] vectors@[i].x,
            exists|i: int| 0 <= i < vectors@.len() && max.y == #[trigger] vectors@[i].y,
            exists|i: int| 0 <= i < vectors@.len() && max.z == #[trigger] vectors@[i].z,
        decreases vectors@.len() - idx,
    {
        let vector = vectors[idx];
        if vector.x < min.x {
            min.x = vector.x;
        }
        if vector.x > max.x {
            max.x = vector.x;
        }
        if vector.y < min.y {
            min.y = vector.y;
        }
        if vector.y > max.y {
            max.y = vector.y;
        }
        if vector.z < min.z {
            min.z = vector.z;
        }
        if vector.z > max.z {
            max.z = vector.z;
        }
        idx = idx + 1;
    }
    (min, max)
}

} // verus!
