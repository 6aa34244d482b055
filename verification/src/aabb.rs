//! Axis-aligned bounding boxes.
//!
//! The bounding hierarchy never does arithmetic on coordinates: it only
//! compares them and takes componentwise minima and maxima. The scene builder
//! therefore hands coordinates over as order-embedded integers — an injective,
//! order-preserving image of its native scalars — and maps the corners back
//! when it needs the native values. Every comparison and every union below is
//! exact under any such embedding.

use vstd::prelude::*;

verus! {

/// A corner point: one order-embedded coordinate per axis.
#[derive(Clone, Copy, PartialEq, Eq, Structural, Debug)]
pub struct Point3 {
    pub x: i64,
    pub y: i64,
    pub z: i64,
}

impl Point3 {
    /// Coordinate on axis `d` (0, 1 or 2).
    pub open spec fn axis(self, d: int) -> i64 {
        if d == 0 {
            self.x
        } else if d == 1 {
            self.y
        } else {
            self.z
        }
    }

    pub fn new(x: i64, y: i64, z: i64) -> (r: Point3)
        ensures
            r == (Point3 { x, y, z }),
    {
        Point3 { x, y, z }
    }

    pub fn axis_value(&self, d: usize) -> (r: i64)
        requires
            d < 3,
        ensures
            r == self.axis(d as int),
    {
        match d {
            0 => self.x,
            1 => self.y,
            _ => self.z,
        }
    }

    /// Componentwise minimum.
    pub fn component_min(self, o: Point3) -> (r: Point3)
        ensures
            forall|d: int| 0 <= d < 3 ==> #[trigger] r.axis(d) == if self.axis(d) <= o.axis(d) {
                self.axis(d)
            } else {
                o.axis(d)
            },
    {
        Point3 {
            x: if self.x <= o.x {
                self.x
            } else {
                o.x
            },
            y: if self.y <= o.y {
                self.y
            } else {
                o.y
            },
            z: if self.z <= o.z {
                self.z
            } else {
                o.z
            },
        }
    }

    /// Componentwise maximum.
    pub fn component_max(self, o: Point3) -> (r: Point3)
        ensures
            forall|d: int| 0 <= d < 3 ==> #[trigger] r.axis(d) == if self.axis(d) >= o.axis(d) {
                self.axis(d)
            } else {
                o.axis(d)
            },
    {
        Point3 {
            x: if self.x >= o.x {
                self.x
            } else {
                o.x
            },
            y: if self.y >= o.y {
                self.y
            } else {
                o.y
            },
            z: if self.z >= o.z {
                self.z
            } else {
                o.z
            },
        }
    }
}

/// An axis-aligned box, described by its two extreme corners.
#[derive(Clone, Copy, PartialEq, Eq, Structural, Debug)]
pub struct AABB {
    pub min: Point3,
    pub max: Point3,
}

impl AABB {
    /// The box is non-degenerate: the corners are ordered on every axis.
    pub open spec fn well_formed(self) -> bool {
        forall|d: int| 0 <= d < 3 ==> #[trigger] self.min.axis(d) <= self.max.axis(d)
    }

    /// The smallest box holding both `self` and `o`.
    pub open spec fn spec_union(self, o: AABB) -> AABB {
        AABB {
            min: Point3 {
                x: if self.min.x <= o.min.x {
                    self.min.x
                } else {
                    o.min.x
                },
                y: if self.min.y <= o.min.y {
                    self.min.y
                } else {
                    o.min.y
                },
                z: if self.min.z <= o.min.z {
                    self.min.z
                } else {
                    o.min.z
                },
            },
            max: Point3 {
                x: if self.max.x >= o.max.x {
                    self.max.x
                } else {
                    o.max.x
                },
                y: if self.max.y >= o.max.y {
                    self.max.y
                } else {
                    o.max.y
                },
                z: if self.max.z >= o.max.z {
                    self.max.z
                } else {
                    o.max.z
                },
            },
        }
    }

    /// Box `o` lies entirely inside `self`.
    pub open spec fn contains_box(self, o: AABB) -> bool {
        forall|d: int|
            0 <= d < 3 ==> #[trigger] self.min.axis(d) <= o.min.axis(d) && o.max.axis(d)
                <= self.max.axis(d)
    }

    pub fn new(min: Point3, max: Point3) -> (r: AABB)
        ensures
            r.min == min,
            r.max == max,
    {
        AABB { min, max }
    }

    pub fn union(self, o: AABB) -> (r: AABB)
        ensures
            r == self.spec_union(o),
    {
        let min = self.min.component_min(o.min);
        let max = self.max.component_max(o.max);
        proof {
            assert(min.axis(0) == min.x && min.axis(1) == min.y && min.axis(2) == min.z);
            assert(max.axis(0) == max.x && max.axis(1) == max.y && max.axis(2) == max.z);
        }
        AABB { min, max }
    }

    /// The union holds both operands, stays non-degenerate, and is the
    /// smallest such box.
    pub proof fn lemma_union_properties(self, o: AABB)
        ensures
            self.spec_union(o).contains_box(self),
            self.spec_union(o).contains_box(o),
            self.well_formed() && o.well_formed() ==> self.spec_union(o).well_formed(),
            forall|c: AABB|
                c.contains_box(self) && c.contains_box(o) ==> #[trigger] c.contains_box(
                    self.spec_union(o),
                ),
    {
    }

    /// Containment is transitive.
    pub proof fn lemma_contains_transitive(self, mid: AABB, inner: AABB)
        requires
            self.contains_box(mid),
            mid.contains_box(inner),
        ensures
            self.contains_box(inner),
    {
    }
}

/// The bounding box of a triangle: the componentwise minimum and maximum of
/// its three vertices. Like every box operation, it only orders coordinates,
/// so it is exact under the order embedding.
pub fn triangle_bounds(p0: Point3, p1: Point3, p2: Point3) -> (r: AABB)
    ensures
        r.well_formed(),
        forall|d: int|
            0 <= d < 3 ==> #[trigger] r.min.axis(d) <= p0.axis(d) <= r.max.axis(d) && r.min.axis(d)
                <= p1.axis(d) <= r.max.axis(d) && r.min.axis(d) <= p2.axis(d) <= r.max.axis(d),
        forall|d: int|
            0 <= d < 3 ==> (#[trigger] r.min.axis(d) == p0.axis(d) || r.min.axis(d) == p1.axis(d)
                || r.min.axis(d) == p2.axis(d)) && (r.max.axis(d) == p0.axis(d) || r.max.axis(d)
                == p1.axis(d) || r.max.axis(d) == p2.axis(d)),
{
    AABB {
        min: p0.component_min(p1).component_min(p2),
        max: p0.component_max(p1).component_max(p2),
    }
}

} // verus!
