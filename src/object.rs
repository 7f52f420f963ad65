//! Scene primitives and the versioned primitive lists.
use vstd::prelude::*;
use crate::geometry::{point_max, point_min, AsBoundingVolume, BoundingVolume, Point};

verus! {

/// Inset, in fixed-point units, that keeps touching primitives apart.
pub const PAD_THICKNESS: i32 = 1;

/// A sphere. Its bounding box must be representable, so the center lies at
/// least `radius` away from the ends of the coordinate range.
#[derive(Clone, Copy, Debug)]
pub struct Sphere {
    center: Point,
    radius: i32,
    material: u32,
}

/// The box `center ± radius` fits the coordinate range.
pub open spec fn sphere_fits(center: Point, radius: i32) -> bool {
    &&& 0 <= radius
    &&& i32::MIN <= center.x - radius && center.x + radius <= i32::MAX
    &&& i32::MIN <= center.y - radius && center.y + radius <= i32::MAX
    &&& i32::MIN <= center.z - radius && center.z + radius <= i32::MAX
}

impl Sphere {
    #[verifier::type_invariant]
    spec fn fits(self) -> bool {
        sphere_fits(self.center, self.radius)
    }

    pub closed spec fn spec_center(self) -> Point {
        self.center
    }

    pub closed spec fn spec_radius(self) -> i32 {
        self.radius
    }

    pub closed spec fn spec_material(self) -> u32 {
        self.material
    }

    pub fn new(center: Point, radius: i32, material: u32) -> (r: Sphere)
        requires
            sphere_fits(center, radius),
        ensures
            r.spec_center() == center,
            r.spec_radius() == radius,
            r.spec_material() == material,
    {
        Sphere { center, radius, material }
    }

    /// The sphere, or `None` when its bounding box would leave the
    /// coordinate range (or the radius is negative).
    pub fn try_new(center: Point, radius: i32, material: u32) -> (r: Option<Sphere>)
        ensures
            match r {
                Some(sp) => sphere_fits(center, radius) && sp.spec_center() == center && sp.spec_radius()
                    == radius && sp.spec_material() == material,
                None => !sphere_fits(center, radius),
            },
    {
        let fits = radius >= 0 && center.x as i64 - radius as i64 >= i32::MIN as i64 && center.x as i64
            + radius as i64 <= i32::MAX as i64 && center.y as i64 - radius as i64 >= i32::MIN as i64
            && center.y as i64 + radius as i64 <= i32::MAX as i64 && center.z as i64 - radius as i64
            >= i32::MIN as i64 && center.z as i64 + radius as i64 <= i32::MAX as i64;
        if fits {
            Some(Sphere::new(center, radius, material))
        } else {
            None
        }
    }

    pub fn center(&self) -> (r: Point)
        ensures
            r == self.spec_center(),
    {
        self.center
    }

    pub fn radius(&self) -> (r: i32)
        ensures
            r == self.spec_radius(),
    {
        self.radius
    }

    /// The sphere shrunk by `PAD_THICKNESS` (not below a point).
    pub fn pad(self) -> (r: Sphere)
        ensures
            r.spec_center() == self.spec_center(),
            r.spec_material() == self.spec_material(),
            r.spec_radius() == if self.spec_radius() >= PAD_THICKNESS {
                self.spec_radius() - PAD_THICKNESS
            } else {
                0
            },
    {
        proof {
            use_type_invariant(&self);
        }
        let radius = if self.radius >= PAD_THICKNESS {
            self.radius - PAD_THICKNESS
        } else {
            0
        };
        Sphere { center: self.center, radius, material: self.material }
    }
}

impl AsBoundingVolume for Sphere {
    closed spec fn spec_bounding_volume(&self) -> BoundingVolume {
        BoundingVolume {
            min: Point {
                x: (self.center.x - self.radius) as i32,
                y: (self.center.y - self.radius) as i32,
                z: (self.center.z - self.radius) as i32,
            },
            max: Point {
                x: (self.center.x + self.radius) as i32,
                y: (self.center.y + self.radius) as i32,
                z: (self.center.z + self.radius) as i32,
            },
        }
    }

    fn bounding_volume(&self) -> (r: BoundingVolume) {
        proof {
            use_type_invariant(self);
        }
        let c = self.center;
        let r = self.radius;
        BoundingVolume {
            min: Point { x: c.x - r, y: c.y - r, z: c.z - r },
            max: Point { x: c.x + r, y: c.y + r, z: c.z + r },
        }
    }
}

/// An infinite plane through `point` with the given normal. Planes are not
/// part of the hierarchy.
#[derive(Clone, Copy, Debug)]
pub struct Plane {
    pub normal: Point,
    pub point: Point,
    pub material: u32,
}

impl Plane {
    pub fn new(normal: Point, point: Point, material: u32) -> (r: Plane)
        ensures
            r == (Plane { normal, point, material }),
    {
        Plane { normal, point, material }
    }
}

/// An axis-aligned box primitive.
#[derive(Clone, Copy, Debug)]
pub struct Aabb {
    pub min: Point,
    pub max: Point,
    pub material: u32,
}

impl Aabb {
    pub fn new(min: Point, max: Point, material: u32) -> (r: Aabb)
        ensures
            r == (Aabb { min, max, material }),
    {
        Aabb { min, max, material }
    }

    pub fn min(&self) -> (r: Point)
        ensures
            r == self.min,
    {
        self.min
    }

    pub fn max(&self) -> (r: Point)
        ensures
            r == self.max,
    {
        self.max
    }

    /// The box inset by `PAD_THICKNESS` on every side.
    pub fn pad(self) -> (r: Aabb)
        requires
            self.min.x < i32::MAX && self.min.y < i32::MAX && self.min.z < i32::MAX,
            self.max.x > i32::MIN && self.max.y > i32::MIN && self.max.z > i32::MIN,
        ensures
            r.min.x == self.min.x + PAD_THICKNESS && r.min.y == self.min.y + PAD_THICKNESS && r.min.z
                == self.min.z + PAD_THICKNESS,
            r.max.x == self.max.x - PAD_THICKNESS && r.max.y == self.max.y - PAD_THICKNESS && r.max.z
                == self.max.z - PAD_THICKNESS,
            r.material == self.material,
    {
        Aabb {
            min: Point {
                x: self.min.x + PAD_THICKNESS,
                y: self.min.y + PAD_THICKNESS,
                z: self.min.z + PAD_THICKNESS,
            },
            max: Point {
                x: self.max.x - PAD_THICKNESS,
                y: self.max.y - PAD_THICKNESS,
                z: self.max.z - PAD_THICKNESS,
            },
            material: self.material,
        }
    }
}

impl AsBoundingVolume for Aabb {
    open spec fn spec_bounding_volume(&self) -> BoundingVolume {
        BoundingVolume { min: self.min, max: self.max }
    }

    fn bounding_volume(&self) -> (r: BoundingVolume) {
        BoundingVolume { min: self.min, max: self.max }
    }
}

/// Texture coordinates in fixed point.
#[derive(Clone, Copy, Debug, PartialEq, Eq, Structural)]
pub struct Uv {
    pub u: i32,
    pub v: i32,
}

/// A triangle with its cached bounding volume.
#[derive(Clone, Copy, Debug)]
pub struct Triangle {
    pub a: Point,
    pub b: Point,
    pub c: Point,
    pub uv_a: Uv,
    pub uv_b: Uv,
    pub uv_c: Uv,
    pub material: u32,
    pub bounds: BoundingVolume,
}

impl Triangle {
    /// A triangle whose bounds are the tight box around its three vertices.
    pub fn new(a: Point, b: Point, c: Point, uv_a: Uv, uv_b: Uv, uv_c: Uv, material: u32) -> (r: Triangle)
        ensures
            r == (Triangle {
                a,
                b,
                c,
                uv_a,
                uv_b,
                uv_c,
                material,
                bounds: BoundingVolume {
                    min: point_min(a, point_min(b, c)),
                    max: point_max(a, point_max(b, c)),
                },
            }),
    {
        let bounds = BoundingVolume { min: a.min(b.min(c)), max: a.max(b.max(c)) };
        Triangle { a, b, c, uv_a, uv_b, uv_c, material, bounds }
    }

    pub fn vertices(&self) -> (r: [Point; 3])
        ensures
            r@ == seq![self.a, self.b, self.c],
    {
        let r = [self.a, self.b, self.c];
        assert(r@ =~= seq![self.a, self.b, self.c]);
        r
    }
}

impl AsBoundingVolume for Triangle {
    open spec fn spec_bounding_volume(&self) -> BoundingVolume {
        self.bounds
    }

    fn bounding_volume(&self) -> (r: BoundingVolume) {
        self.bounds
    }
}

/// The contents of an object list as contracts see them.
pub struct ObjectListView {
    pub spheres: Seq<Sphere>,
    pub planes: Seq<Plane>,
    pub aabbs: Seq<Aabb>,
    pub triangles: Seq<Triangle>,
    pub version: u32,
}

/// The scene's primitives, with a version that grows on every change,
/// including every hand-out of mutable access.
pub struct ObjectList {
    spheres: Vec<Sphere>,
    planes: Vec<Plane>,
    aabbs: Vec<Aabb>,
    triangles: Vec<Triangle>,
    version: u32,
}

impl View for ObjectList {
    type V = ObjectListView;

    closed spec fn view(&self) -> ObjectListView {
        ObjectListView {
            spheres: self.spheres@,
            planes: self.planes@,
            aabbs: self.aabbs@,
            triangles: self.triangles@,
            version: self.version,
        }
    }
}

impl ObjectList {
    /// An empty scene at version 0.
    pub fn new() -> (r: ObjectList)
        ensures
            r@ == (ObjectListView {
                spheres: seq![],
                planes: seq![],
                aabbs: seq![],
                triangles: seq![],
                version: 0,
            }),
    {
        let r = ObjectList {
            spheres: Vec::new(),
            planes: Vec::new(),
            aabbs: Vec::new(),
            triangles: Vec::new(),
            version: 0,
        };
        assert(r@.spheres =~= seq![]);
        assert(r@.planes =~= seq![]);
        assert(r@.aabbs =~= seq![]);
        assert(r@.triangles =~= seq![]);
        r
    }

    pub fn push_sphere(&mut self, sphere: Sphere)
        requires
            old(self)@.version < u32::MAX,
        ensures
            final(self)@ == (ObjectListView {
                spheres: old(self)@.spheres.push(sphere),
                version: (old(self)@.version + 1) as u32,
                ..old(self)@
            }),
    {
        self.version = self.version + 1;
        self.spheres.push(sphere);
    }

    pub fn push_plane(&mut self, plane: Plane)
        requires
            old(self)@.version < u32::MAX,
        ensures
            final(self)@ == (ObjectListView {
                planes: old(self)@.planes.push(plane),
                version: (old(self)@.version + 1) as u32,
                ..old(self)@
            }),
    {
        self.version = self.version + 1;
        self.planes.push(plane);
    }

    pub fn push_aabb(&mut self, aabb: Aabb)
        requires
            old(self)@.version < u32::MAX,
        ensures
            final(self)@ == (ObjectListView {
                aabbs: old(self)@.aabbs.push(aabb),
                version: (old(self)@.version + 1) as u32,
                ..old(self)@
            }),
    {
        self.version = self.version + 1;
        self.aabbs.push(aabb);
    }

    pub fn push_triangle(&mut self, triangle: Triangle)
        requires
            old(self)@.version < u32::MAX,
        ensures
            final(self)@ == (ObjectListView {
                triangles: old(self)@.triangles.push(triangle),
                version: (old(self)@.version + 1) as u32,
                ..old(self)@
            }),
    {
        self.version = self.version + 1;
        self.triangles.push(triangle);
    }

    /// Removes every sphere, plane and box, as one change.
    pub fn clear_shapes(&mut self)
        requires
            old(self)@.version < u32::MAX,
        ensures
            final(self)@ == (ObjectListView {
                spheres: seq![],
                planes: seq![],
                aabbs: seq![],
                version: (old(self)@.version + 1) as u32,
                ..old(self)@
            }),
    {
        self.version = self.version + 1;
        self.spheres.clear();
        self.planes.clear();
        self.aabbs.clear();
        assert(self@.spheres =~= seq![]);
        assert(self@.planes =~= seq![]);
        assert(self@.aabbs =~= seq![]);
    }

    /// Removes every triangle, as one change.
    pub fn clear_triangles(&mut self)
        requires
            old(self)@.version < u32::MAX,
        ensures
            final(self)@ == (ObjectListView {
                triangles: seq![],
                version: (old(self)@.version + 1) as u32,
                ..old(self)@
            }),
    {
        self.version = self.version + 1;
        self.triangles.clear();
        assert(self@.triangles =~= seq![]);
    }

    pub fn spheres(&self) -> (r: &[Sphere])
        ensures
            r@ == self@.spheres,
    {
        self.spheres.as_slice()
    }

    /// Mutable access to the spheres; handing it out counts as a change.
    pub fn spheres_mut(&mut self) -> (r: &mut [Sphere])
        requires
            old(self)@.version < u32::MAX,
        ensures
            r@ == old(self)@.spheres,
            final(self)@ == (ObjectListView {
                spheres: final(r)@,
                version: (old(self)@.version + 1) as u32,
                ..old(self)@
            }),
    {
        self.version = self.version + 1;
        self.spheres.as_mut_slice()
    }

    pub fn planes(&self) -> (r: &[Plane])
        ensures
            r@ == self@.planes,
    {
        self.planes.as_slice()
    }

    pub fn aabbs(&self) -> (r: &[Aabb])
        ensures
            r@ == self@.aabbs,
    {
        self.aabbs.as_slice()
    }

    pub fn triangles(&self) -> (r: &[Triangle])
        ensures
            r@ == self@.triangles,
    {
        self.triangles.as_slice()
    }

    /// Mutable access to the triangles; handing it out counts as a change.
    pub fn triangles_mut(&mut self) -> (r: &mut [Triangle])
        requires
            old(self)@.version < u32::MAX,
        ensures
            r@ == old(self)@.triangles,
            final(self)@ == (ObjectListView {
                triangles: final(r)@,
                version: (old(self)@.version + 1) as u32,
                ..old(self)@
            }),
    {
        self.version = self.version + 1;
        self.triangles.as_mut_slice()
    }

    pub fn version(&self) -> (r: u32)
        ensures
            r == self@.version,
    {
        self.version
    }
}

} // verus!
