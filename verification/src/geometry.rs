//! Integer geometry in pixel space: points, unsigned extents and axis-aligned
//! bounding boxes.

use vstd::prelude::*;

verus! {

/// A pair of unsigned pixel quantities: a resolution, an offset or a size.
#[derive(Clone, Copy, Debug, PartialEq, Eq, Structural)]
pub struct UVec2 {
    pub x: u32,
    pub y: u32,
}

/// A point in pixel space.
#[derive(Clone, Copy, Debug, PartialEq, Eq, Structural)]
pub struct Point {
    pub x: i64,
    pub y: i64,
}

/// An axis-aligned bounding box, given by its two extreme corners.
#[derive(Clone, Copy, Debug, PartialEq, Eq, Structural)]
pub struct Aabb {
    pub min: Point,
    pub max: Point,
}

/// The smaller of two integers.
pub open spec fn min_int(a: int, b: int) -> int {
    if a <= b {
        a
    } else {
        b
    }
}

/// The larger of two integers.
pub open spec fn max_int(a: int, b: int) -> int {
    if a >= b {
        a
    } else {
        b
    }
}

fn min_i64(a: i64, b: i64) -> (r: i64)
    ensures
        r == min_int(a as int, b as int),
{
    if a <= b {
        a
    } else {
        b
    }
}

fn max_i64(a: i64, b: i64) -> (r: i64)
    ensures
        r == max_int(a as int, b as int),
{
    if a >= b {
        a
    } else {
        b
    }
}

impl Aabb {
    /// The smallest box that contains both `self` and `other`: the
    /// component-wise minimum of the two `min` corners and the component-wise
    /// maximum of the two `max` corners.
    pub open spec fn merged(self, other: Aabb) -> Aabb {
        Aabb {
            min: Point {
                x: min_int(self.min.x as int, other.min.x as int) as i64,
                y: min_int(self.min.y as int, other.min.y as int) as i64,
            },
            max: Point {
                x: max_int(self.max.x as int, other.max.x as int) as i64,
                y: max_int(self.max.y as int, other.max.y as int) as i64,
            },
        }
    }

    /// Twice the x coordinate of the box's centre. Doubling keeps the centre
    /// of a box with an odd width an integer.
    pub open spec fn center_x2(self) -> int {
        self.min.x + self.max.x
    }

    /// Twice the y coordinate of the box's centre.
    pub open spec fn center_y2(self) -> int {
        self.min.y + self.max.y
    }

    /// Whether the point `p` lies inside the box, borders included.
    pub open spec fn contains(self, p: Point) -> bool {
        self.min.x <= p.x <= self.max.x && self.min.y <= p.y <= self.max.y
    }

    /// Unites two boxes.
    pub fn merge(&self, other: &Aabb) -> (r: Aabb)
        ensures
            r == self.merged(*other),
    {
        Aabb {
            min: Point { x: min_i64(self.min.x, other.min.x), y: min_i64(self.min.y, other.min.y) },
            max: Point { x: max_i64(self.max.x, other.max.x), y: max_i64(self.max.y, other.max.y) },
        }
    }
}

} // verus!
