use goldenrod::bvh::{partition, BoundingVolumeHierarchy, BvhNode, MIN_SPLIT_LEN};
use goldenrod::geometry::{AsBoundingVolume, BoundingVolume, Point};
use goldenrod::object::{Aabb, ObjectList, Sphere, Triangle, Uv};
use goldenrod::split::{choose_split_axis, evaluate_split_cost, SplitChoice};

fn p(x: i32, y: i32, z: i32) -> Point {
    Point::new(x, y, z)
}

fn uv0() -> Uv {
    Uv { u: 0, v: 0 }
}

fn tri(a: Point, b: Point, c: Point, material: u32) -> Triangle {
    Triangle::new(a, b, c, uv0(), uv0(), uv0(), material)
}

struct Lcg(u64);

impl Lcg {
    fn next(&mut self, range: i32) -> i32 {
        self.0 = self.0.wrapping_mul(6364136223846793005).wrapping_add(1442695040888963407);
        ((self.0 >> 33) % (2 * range as u64)) as i32 - range
    }
}

fn scene_triangles(count: usize, seed: u64) -> Vec<Triangle> {
    let mut rng = Lcg(seed);
    (0..count)
        .map(|i| {
            let base = p(rng.next(1000), rng.next(1000), rng.next(1000));
            let b = p(base.x + rng.next(20), base.y + rng.next(20), base.z + rng.next(20));
            let c = p(base.x + rng.next(20), base.y + rng.next(20), base.z + rng.next(20));
            tri(base, b, c, i as u32)
        })
        .collect()
}

fn encloses(outer: &BoundingVolume, inner: &BoundingVolume) -> bool {
    outer.min.x <= inner.min.x
        && outer.min.y <= inner.min.y
        && outer.min.z <= inner.min.z
        && inner.max.x <= outer.max.x
        && inner.max.y <= outer.max.y
        && inner.max.z <= outer.max.z
}

fn build(tris: &mut Vec<Triangle>) -> Vec<BvhNode> {
    let h = BoundingVolumeHierarchy::new(tris.as_mut_slice(), 1);
    h.nodes().to_vec()
}

#[test]
fn surface_area_of_box() {
    let b = BoundingVolume::new(p(0, 0, 0), p(2, 3, 4));
    assert_eq!(b.surface_area(), 2 * (2 * 3 + 2 * 4 + 3 * 4));
    assert_eq!(BoundingVolume::from_point(p(5, 5, 5)).surface_area(), 0);
}

#[test]
fn center_rounds_down() {
    let b = BoundingVolume::new(p(-3, 0, 1), p(0, 4, 2));
    assert_eq!(b.center(), p(-2, 2, 1));
    assert_eq!(b.center_doubled(), (-3, 4, 3));
}

#[test]
fn grow_takes_union_and_is_empty_detects_points() {
    let mut b = BoundingVolume::from_point(p(1, 1, 1));
    assert!(b.is_empty());
    b.grow(&BoundingVolume::new(p(-1, 2, 0), p(0, 5, 3)));
    assert_eq!(b, BoundingVolume::new(p(-1, 1, 0), p(1, 5, 3)));
    assert!(!b.is_empty());
}

#[test]
fn primitive_bounds() {
    let s = Sphere::new(p(10, 0, -5), 3, 0);
    assert_eq!(s.bounding_volume(), BoundingVolume::new(p(7, -3, -8), p(13, 3, -2)));
    assert_eq!(s.pad().radius(), 2);
    let a = Aabb::new(p(0, 0, 0), p(4, 4, 4), 1);
    assert_eq!(a.bounding_volume(), BoundingVolume::new(p(0, 0, 0), p(4, 4, 4)));
    assert_eq!(a.pad().min(), p(1, 1, 1));
    assert_eq!(a.pad().max(), p(3, 3, 3));
    let t = tri(p(0, 5, 1), p(3, -2, 1), p(1, 1, 7), 2);
    assert_eq!(t.bounding_volume(), BoundingVolume::new(p(0, -2, 1), p(3, 5, 7)));
    assert_eq!(t.vertices(), [p(0, 5, 1), p(3, -2, 1), p(1, 1, 7)]);
}

#[test]
fn split_cost_exact() {
    let boxes = vec![
        BoundingVolume::new(p(0, 0, 0), p(1, 1, 1)),
        BoundingVolume::new(p(10, 0, 0), p(11, 1, 1)),
    ];
    // centers on x are 0.5 and 10.5; the plane x = 5 separates them
    assert_eq!(evaluate_split_cost(&boxes, 0, 5, 1), Some(2 * (6 + 6)));
    // on y both centers are 0.5: one side is empty
    assert_eq!(evaluate_split_cost(&boxes, 1, 0, 1), None);
}

#[test]
fn empty_scene_has_no_nodes() {
    let mut tris: Vec<Triangle> = Vec::new();
    let h = BoundingVolumeHierarchy::new(tris.as_mut_slice(), 3);
    assert!(h.nodes().is_empty());
    assert_eq!(h.version, 3);
}

#[test]
fn single_primitive_is_leaf_root() {
    let t = tri(p(1, 2, 3), p(4, 0, 3), p(2, 2, 9), 0);
    let mut tris = vec![t];
    let nodes = build(&mut tris);
    assert_eq!(nodes.len(), 1);
    assert_eq!(nodes[0].bounds, t.bounding_volume());
    assert_eq!(nodes[0].start_index, 0);
    assert_eq!(nodes[0].len, 1);
    assert_eq!(nodes[0].child_node, 0);
}

#[test]
fn known_split_chooses_x() {
    let boxes = vec![
        BoundingVolume::new(p(0, 0, 0), p(1, 1, 1)),
        BoundingVolume::new(p(1000, 0, 0), p(1001, 1, 1)),
    ];
    let bounds = BoundingVolume::new(p(0, 0, 0), p(1001, 1, 1));
    let choice = choose_split_axis(bounds, &boxes).expect("a split along x exists");
    assert_eq!(choice.axis, 0);
    assert_eq!(choice.cost, 2 * (6 + 6));
}

#[test]
fn version_gating() {
    let mut scene = ObjectList::new();
    for t in scene_triangles(4, 7) {
        scene.push_triangle(t);
    }
    scene.push_sphere(Sphere::new(p(0, 0, 0), 1, 0));
    assert_eq!(scene.version(), 5);
    let h = BoundingVolumeHierarchy::from_objects(&mut scene);
    assert_eq!(h.version, 6);
    assert_eq!(scene.version(), 6);
    let again = BoundingVolumeHierarchy::from_objects(&mut scene);
    assert_eq!(again.version, 7);
    assert_eq!(again.nodes().len(), h.nodes().len());
    assert_eq!(again.nodes()[0].len, 4);
}

#[test]
fn build_permutes_primitives() {
    let mut tris = scene_triangles(300, 1);
    let mut before: Vec<u32> = tris.iter().map(|t| t.material).collect();
    build(&mut tris);
    let mut after: Vec<u32> = tris.iter().map(|t| t.material).collect();
    before.sort();
    after.sort();
    assert_eq!(before, after);
}

#[test]
fn nodes_contain_and_partition() {
    let mut tris = scene_triangles(500, 2);
    let nodes = build(&mut tris);
    assert!(nodes.len() > 1);
    assert_eq!(nodes[0].start_index, 0);
    assert_eq!(nodes[0].len, 500);
    for (i, n) in nodes.iter().enumerate() {
        let start = n.start_index as usize;
        for t in &tris[start..start + n.len as usize] {
            assert!(encloses(&n.bounds, &t.bounding_volume()));
        }
        if n.child_node != 0 {
            let c = n.child_node as usize;
            assert!(c > i && c + 1 < nodes.len());
            let (a, b) = (nodes[c], nodes[c + 1]);
            assert!(encloses(&n.bounds, &a.bounds));
            assert!(encloses(&n.bounds, &b.bounds));
            assert_eq!(a.start_index, n.start_index);
            assert_eq!(b.start_index, a.start_index + a.len);
            assert_eq!(a.len + b.len, n.len);
            assert!(a.len > 0 && b.len > 0);
        }
    }
}

#[test]
fn leaves_are_small_or_deep() {
    let mut tris = scene_triangles(400, 3);
    let nodes = build(&mut tris);
    let max_depth = 8 + 2; // floor(log2(400)) + 2
    let mut depth = vec![0u32; nodes.len()];
    for i in 0..nodes.len() {
        let n = nodes[i];
        if n.child_node != 0 {
            depth[n.child_node as usize] = depth[i] + 1;
            depth[n.child_node as usize + 1] = depth[i] + 1;
        }
    }
    let mut leaves = 0;
    for i in 0..nodes.len() {
        if nodes[i].child_node == 0 {
            leaves += 1;
            assert!(depth[i] <= max_depth);
        }
    }
    assert!(leaves > 1);
    assert!(nodes.iter().filter(|n| n.child_node == 0).any(|n| n.len <= MIN_SPLIT_LEN));
}

#[test]
fn build_is_deterministic() {
    let mut a = scene_triangles(250, 4);
    let mut b = a.clone();
    let na = build(&mut a);
    let nb = build(&mut b);
    assert_eq!(na, nb);
    let ma: Vec<u32> = a.iter().map(|t| t.material).collect();
    let mb: Vec<u32> = b.iter().map(|t| t.material).collect();
    assert_eq!(ma, mb);
}

#[test]
fn three_primitives_stay_one_leaf() {
    let mut tris = scene_triangles(3, 5);
    let nodes = build(&mut tris);
    assert_eq!(nodes.len(), 1);
    assert_eq!(nodes[0].child_node, 0);
}

#[test]
fn object_list_mut_access_bumps_version() {
    let mut scene = ObjectList::new();
    assert_eq!(scene.version(), 0);
    scene.push_aabb(Aabb::new(p(0, 0, 0), p(1, 1, 1), 0));
    let _ = scene.spheres_mut();
    let _ = scene.triangles_mut();
    assert_eq!(scene.version(), 3);
    assert_eq!(scene.aabbs().len(), 1);
    assert!(scene.triangles().is_empty());
    assert!(scene.planes().is_empty());
    assert!(scene.spheres().is_empty());
}

#[test]
fn clearing_counts_as_a_change() {
    let mut scene = ObjectList::new();
    scene.push_sphere(Sphere::new(p(0, 0, 0), 2, 0));
    scene.push_triangle(tri(p(0, 0, 0), p(1, 0, 0), p(0, 1, 0), 0));
    scene.clear_shapes();
    assert!(scene.spheres().is_empty());
    assert_eq!(scene.triangles().len(), 1);
    scene.clear_triangles();
    assert!(scene.triangles().is_empty());
    assert_eq!(scene.version(), 4);
}

#[test]
fn sphere_range_is_checked() {
    assert!(Sphere::try_new(p(i32::MAX - 1, 0, 0), 2, 0).is_none());
    assert!(Sphere::try_new(p(0, 0, 0), -1, 0).is_none());
    assert_eq!(Sphere::try_new(p(1, 2, 3), 4, 0).map(|s| s.radius()), Some(4));
}

#[test]
fn trait_center_of_triangle() {
    let t = tri(p(0, 0, 0), p(4, 2, 0), p(2, 6, 1), 0);
    assert_eq!(AsBoundingVolume::center(&t), p(2, 3, 0));
}

#[test]
fn split_choice_is_first_cheapest_sample() {
    let boxes = vec![
        BoundingVolume::new(p(0, 0, 0), p(1, 1, 1)),
        BoundingVolume::new(p(1000, 0, 0), p(1001, 1, 1)),
    ];
    let bounds = BoundingVolume::new(p(-50, -50, -50), p(2000, 50, 50));
    // two primitives: five samples per axis over the tight extent [0, 1001]
    let choice = choose_split_axis(bounds, &boxes);
    assert_eq!(choice, Some(SplitChoice { cost: 24, axis: 0, numer: 1001, denom: 10 }));
}

#[test]
fn partition_swaps_above_to_front() {
    let at = |x: i32| BoundingVolume::new(p(x, 0, 0), p(x, 0, 0));
    let mut boxes = vec![at(5), at(1), at(7), at(2), at(9)];
    let (g, above, rest) = partition(&mut boxes, 0, 4, 1);
    assert_eq!(g, 3);
    assert_eq!(boxes, vec![at(5), at(7), at(9), at(2), at(1)]);
    assert_eq!(above, Some(BoundingVolume::new(p(5, 0, 0), p(9, 0, 0))));
    assert_eq!(rest, Some(BoundingVolume::new(p(1, 0, 0), p(2, 0, 0))));
}

#[test]
fn root_and_slice() {
    let mut boxes = vec![
        BoundingVolume::new(p(0, 0, 0), p(1, 1, 1)),
        BoundingVolume::new(p(-2, 3, 0), p(0, 4, 5)),
    ];
    let root = BvhNode::root(&mut boxes);
    assert_eq!(root.bounds, BoundingVolume::new(p(-2, 0, 0), p(1, 4, 5)));
    assert_eq!((root.start_index, root.len, root.child_node), (0, 2, 0));
    assert_eq!(root.slice(&boxes).len(), 2);
}
