//! Integer points and axis-aligned bounding volumes.
//!
//! Coordinates are fixed-point integers, so every geometric quantity the
//! hierarchy builder computes (areas, costs, split planes) is exact.
use vstd::prelude::*;

verus! {

/// A point (or extent) in three-dimensional fixed-point space.
#[derive(Clone, Copy, Debug, PartialEq, Eq, Structural)]
pub struct Point {
    pub x: i32,
    pub y: i32,
    pub z: i32,
}

impl Point {
    /// The coordinate along `axis` (0 = x, 1 = y, 2 = z).
    pub open spec fn axis(self, axis: int) -> int {
        if axis == 0 {
            self.x as int
        } else if axis == 1 {
            self.y as int
        } else {
            self.z as int
        }
    }

    pub fn new(x: i32, y: i32, z: i32) -> (r: Point)
        ensures
            r == (Point { x, y, z }),
    {
        Point { x, y, z }
    }

    /// The coordinate along `axis`.
    pub fn get(&self, axis: usize) -> (r: i32)
        requires
            axis < 3,
        ensures
            r as int == self.axis(axis as int),
    {
        if axis == 0 {
            self.x
        } else if axis == 1 {
            self.y
        } else {
            self.z
        }
    }

    /// The component-wise minimum of two points.
    pub fn min(self, o: Point) -> (r: Point)
        ensures
            r == point_min(self, o),
    {
        Point {
            x: if self.x <= o.x { self.x } else { o.x },
            y: if self.y <= o.y { self.y } else { o.y },
            z: if self.z <= o.z { self.z } else { o.z },
        }
    }

    /// The component-wise maximum of two points.
    pub fn max(self, o: Point) -> (r: Point)
        ensures
            r == point_max(self, o),
    {
        Point {
            x: if self.x >= o.x { self.x } else { o.x },
            y: if self.y >= o.y { self.y } else { o.y },
            z: if self.z >= o.z { self.z } else { o.z },
        }
    }
}

pub open spec fn min_i32(a: i32, b: i32) -> i32 {
    if a <= b { a } else { b }
}

pub open spec fn max_i32(a: i32, b: i32) -> i32 {
    if a >= b { a } else { b }
}

pub open spec fn point_min(a: Point, b: Point) -> Point {
    Point { x: min_i32(a.x, b.x), y: min_i32(a.y, b.y), z: min_i32(a.z, b.z) }
}

pub open spec fn point_max(a: Point, b: Point) -> Point {
    Point { x: max_i32(a.x, b.x), y: max_i32(a.y, b.y), z: max_i32(a.z, b.z) }
}

/// An axis-aligned box. A box with `min <= max` on every axis is proper;
/// the builder never relies on that, so improper boxes are handled too.
///
/// There is no "empty" sentinel: accumulation starts from `Option::None`.
#[derive(Clone, Copy, Debug, PartialEq, Eq, Structural)]
pub struct BoundingVolume {
    pub min: Point,
    pub max: Point,
}

/// The smallest box containing both `a` and `b`.
pub open spec fn union(a: BoundingVolume, b: BoundingVolume) -> BoundingVolume {
    BoundingVolume { min: point_min(a.min, b.min), max: point_max(a.max, b.max) }
}

/// Accumulating `b` into an optional box; `None` stands for "nothing yet".
pub open spec fn grown(acc: Option<BoundingVolume>, b: BoundingVolume) -> Option<BoundingVolume> {
    match acc {
        Some(a) => Some(union(a, b)),
        None => Some(b),
    }
}

impl BoundingVolume {
    pub open spec fn proper(self) -> bool {
        self.min.x <= self.max.x && self.min.y <= self.max.y && self.min.z <= self.max.z
    }

    /// `self` encloses `o` on every axis.
    pub open spec fn contains(self, o: BoundingVolume) -> bool {
        &&& self.min.x <= o.min.x && o.max.x <= self.max.x
        &&& self.min.y <= o.min.y && o.max.y <= self.max.y
        &&& self.min.z <= o.min.z && o.max.z <= self.max.z
    }

    /// Extent along `axis`.
    pub open spec fn extent(self, axis: int) -> int {
        self.max.axis(axis) - self.min.axis(axis)
    }

    /// `2 * (w*h + w*d + h*d)` for the extent `(w, h, d)`.
    pub open spec fn area(self) -> int {
        let w = self.extent(0);
        let h = self.extent(1);
        let d = self.extent(2);
        2 * (w * h + w * d + h * d)
    }

    /// Twice the center coordinate along `axis` (exact, unlike the center).
    pub open spec fn center2(self, axis: int) -> int {
        self.min.axis(axis) + self.max.axis(axis)
    }

    pub fn new(min: Point, max: Point) -> (r: BoundingVolume)
        ensures
            r == (BoundingVolume { min, max }),
    {
        BoundingVolume { min, max }
    }

    /// The box holding a single point.
    pub fn from_point(point: Point) -> (r: BoundingVolume)
        ensures
            r == (BoundingVolume { min: point, max: point }),
    {
        BoundingVolume { min: point, max: point }
    }

    /// The center, rounded down to the integer grid.
    pub fn center(self) -> (r: Point)
        ensures
            r.x as int == self.center2(0) / 2,
            r.y as int == self.center2(1) / 2,
            r.z as int == self.center2(2) / 2,
    {
        Point {
            x: half_floor(self.min.x as i64 + self.max.x as i64),
            y: half_floor(self.min.y as i64 + self.max.y as i64),
            z: half_floor(self.min.z as i64 + self.max.z as i64),
        }
    }

    /// Twice the center, so that it stays an integer point.
    pub fn center_doubled(self) -> (r: (i64, i64, i64))
        ensures
            r.0 == self.center2(0),
            r.1 == self.center2(1),
            r.2 == self.center2(2),
    {
        (
            self.min.x as i64 + self.max.x as i64,
            self.min.y as i64 + self.max.y as i64,
            self.min.z as i64 + self.max.z as i64,
        )
    }

    /// Surface area of the box.
    pub fn surface_area(self) -> (r: i128)
        ensures
            r == self.area(),
            -0x8_0000_0000_0000_0000 < r < 0x8_0000_0000_0000_0000,
    {
        let w: i128 = self.max.x as i128 - self.min.x as i128;
        let h: i128 = self.max.y as i128 - self.min.y as i128;
        let d: i128 = self.max.z as i128 - self.min.z as i128;
        proof {
            lemma_area_bound(w as int, h as int, d as int);
        }
        2 * (w * h + w * d + h * d)
    }

    /// Grows `self` to the union with the bounding volume of `object`.
    pub fn grow<T: AsBoundingVolume>(&mut self, object: &T)
        ensures
            *final(self) == union(*old(self), object.spec_bounding_volume()),
    {
        let b = object.bounding_volume();
        self.min = self.min.min(b.min);
        self.max = self.max.max(b.max);
    }

    /// A degenerate box: its two corners coincide.
    pub fn is_empty(self) -> (r: bool)
        ensures
            r == (self.min == self.max),
    {
        self.min.x == self.max.x && self.min.y == self.max.y && self.min.z == self.max.z
    }
}

/// `floor(v / 2)` for a sum of two coordinates.
fn half_floor(v: i64) -> (r: i32)
    requires
        2 * i32::MIN <= v <= 2 * i32::MAX,
    ensures
        r as int == v as int / 2,
{
    if v >= 0 {
        (v / 2) as i32
    } else {
        (-((-v + 1) / 2)) as i32
    }
}

/// Every box's surface area fits comfortably in an `i128`.
pub proof fn lemma_area_range(b: BoundingVolume)
    ensures
        -0x8_0000_0000_0000_0000 < b.area() < 0x8_0000_0000_0000_0000,
{
    lemma_area_bound(b.extent(0), b.extent(1), b.extent(2));
}

proof fn lemma_area_bound(w: int, h: int, d: int)
    requires
        -0x1_0000_0000 < w < 0x1_0000_0000,
        -0x1_0000_0000 < h < 0x1_0000_0000,
        -0x1_0000_0000 < d < 0x1_0000_0000,
    ensures
        -0x4_0000_0000_0000_0000 < w * h < 0x4_0000_0000_0000_0000,
        -0x4_0000_0000_0000_0000 < w * d < 0x4_0000_0000_0000_0000,
        -0x4_0000_0000_0000_0000 < h * d < 0x4_0000_0000_0000_0000,
        -0x8_0000_0000_0000_0000 < 2 * (w * h + w * d + h * d) < 0x8_0000_0000_0000_0000,
{
    assert(-0x1_0000_0000_0000_0000 < w * h < 0x1_0000_0000_0000_0000) by (nonlinear_arith)
        requires
            -0x1_0000_0000 < w < 0x1_0000_0000,
            -0x1_0000_0000 < h < 0x1_0000_0000,
    ;
    assert(-0x1_0000_0000_0000_0000 < w * d < 0x1_0000_0000_0000_0000) by (nonlinear_arith)
        requires
            -0x1_0000_0000 < w < 0x1_0000_0000,
            -0x1_0000_0000 < d < 0x1_0000_0000,
    ;
    assert(-0x1_0000_0000_0000_0000 < h * d < 0x1_0000_0000_0000_0000) by (nonlinear_arith)
        requires
            -0x1_0000_0000 < h < 0x1_0000_0000,
            -0x1_0000_0000 < d < 0x1_0000_0000,
    ;
}

/// Anything with an axis-aligned bounding volume.
pub trait AsBoundingVolume {
    spec fn spec_bounding_volume(&self) -> BoundingVolume;

    fn bounding_volume(&self) -> (r: BoundingVolume)
        ensures
            r == self.spec_bounding_volume(),
    ;

    /// The center of the bounding volume, rounded down to the grid.
    fn center(&self) -> (r: Point)
        ensures
            r.x as int == self.spec_bounding_volume().center2(0) / 2,
            r.y as int == self.spec_bounding_volume().center2(1) / 2,
            r.z as int == self.spec_bounding_volume().center2(2) / 2,
    {
        self.bounding_volume().center()
    }
}

impl AsBoundingVolume for BoundingVolume {
    open spec fn spec_bounding_volume(&self) -> BoundingVolume {
        *self
    }

    fn bounding_volume(&self) -> (r: BoundingVolume) {
        *self
    }
}

/// The bounding volume of `t`.
pub open spec fn bv<T: AsBoundingVolume>(t: T) -> BoundingVolume {
    t.spec_bounding_volume()
}

} // verus!
