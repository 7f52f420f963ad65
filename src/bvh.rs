//! The bounding-volume hierarchy: a flat array of nodes over a primitive
//! slice that the builder reorders in place.
use vstd::prelude::*;
use crate::geometry::{grown, union, AsBoundingVolume, BoundingVolume, Point, bv};
use crate::object::{ObjectList, ObjectListView};
use crate::split::{
    above, best_of, best_split, choose_split_axis, sample, samples, search_box, split_cost, step_count,
    SplitChoice, grow_opt, hull, hull_of, lemma_sides_counts,
    lemma_split_cost_range, sides, NODE_COST, OBJECT_COST,
};

verus! {

/// Swaps two elements of a slice. Relies on `slice::swap`, which exchanges
/// the elements at the two indices (and leaves the slice alone when they
/// are equal); it panics only on an index out of bounds.
pub assume_specification<X>[ <[X]>::swap ](v: &mut [X], a: usize, b: usize)
    requires
        a < old(v)@.len(),
        b < old(v)@.len(),
    ensures
        final(v)@ == old(v)@.update(a as int, old(v)@[b as int]).update(b as int, old(v)@[a as int]),
;

/// Nodes with at most this many primitives are never split.
pub const MIN_SPLIT_LEN: u32 = 3;

/// One node of the flat hierarchy. It covers the primitives
/// `[start_index, start_index + len)`; a `child_node` of 0 marks a leaf,
/// otherwise its children sit at `child_node` and `child_node + 1`.
#[derive(Clone, Copy, Debug, PartialEq, Eq, Structural)]
pub struct BvhNode {
    pub bounds: BoundingVolume,
    pub start_index: u32,
    pub len: u32,
    pub child_node: u32,
}

/// State of the in-place partition after examining the first `k` elements:
/// the reordered sequence and how many elements lie above the plane. Each
/// element above the plane is swapped to the end of the front block.
pub open spec fn lomuto<T: AsBoundingVolume>(s: Seq<T>, axis: int, numer: int, denom: int, k: nat) -> (
    Seq<T>,
    nat,
)
    decreases k,
{
    if k == 0 {
        (s, 0)
    } else {
        let (p, g) = lomuto(s, axis, numer, denom, (k - 1) as nat);
        let x = p[k - 1];
        if above(x, axis, numer, denom) {
            (p.update(g as int, x).update(k - 1, p[g as int]), g + 1)
        } else {
            (p, g)
        }
    }
}

/// SAH cost of leaving `len` primitives inside `bounds` unsplit.
pub open spec fn leaf_cost(bounds: BoundingVolume, len: int) -> int {
    NODE_COST + OBJECT_COST * (bounds.area() * len)
}

/// The result of splitting `node`, which covers `s`, at the given depth:
/// the reordered primitives, the finished node, the nodes appended to the
/// array (the first of them at index `next`), and the depth of each
/// appended node.
pub open spec fn build<T: AsBoundingVolume>(
    s: Seq<T>,
    node: BvhNode,
    depth: int,
    max_depth: int,
    next: int,
) -> (Seq<T>, BvhNode, Seq<BvhNode>, Seq<int>)
    decreases max_depth - depth,
{
    if depth >= max_depth || s.len() <= MIN_SPLIT_LEN {
        (s, node, seq![], seq![])
    } else {
        match best_split(s, node.bounds) {
            None => (s, node, seq![], seq![]),
            Some(c) => {
                if c.cost >= leaf_cost(node.bounds, s.len() as int) {
                    (s, node, seq![], seq![])
                } else {
                    let (p, g) = lomuto(s, c.axis as int, c.numer as int, c.denom as int, s.len());
                    let (ab, an, ob, on) = sides(s, c.axis as int, c.numer as int, c.denom as int);
                    let gt = BvhNode {
                        bounds: ab.unwrap(),
                        start_index: node.start_index,
                        len: g as u32,
                        child_node: 0,
                    };
                    let lt = BvhNode {
                        bounds: ob.unwrap(),
                        start_index: (node.start_index + g) as u32,
                        len: (s.len() - g) as u32,
                        child_node: 0,
                    };
                    let (ord_a, gt2, n1, d1) = build(p.take(g as int), gt, depth + 1, max_depth, next + 2);
                    let (ord_b, lt2, n2, d2) = build(
                        p.skip(g as int),
                        lt,
                        depth + 1,
                        max_depth,
                        next + 2 + n1.len(),
                    );
                    (
                        ord_a + ord_b,
                        BvhNode { child_node: next as u32, ..node },
                        seq![gt2, lt2] + n1 + n2,
                        seq![depth + 1, depth + 1] + d1 + d2,
                    )
                }
            },
        }
    }
}

pub proof fn lemma_union_contains(a: BoundingVolume, b: BoundingVolume, x: BoundingVolume)
    ensures
        union(a, b).contains(b),
        union(a, b).contains(a),
        a.contains(x) ==> union(a, b).contains(x),
{
}

proof fn lemma_swap_multiset<T>(p: Seq<T>, i: int, j: int)
    requires
        0 <= i < p.len(),
        0 <= j < p.len(),
    ensures
        p.update(i, p[j]).update(j, p[i]).to_multiset() =~= p.to_multiset(),
{
    broadcast use vstd::seq_lib::group_to_multiset_ensures;

    let q = p.update(i, p[j]);
    assert(q.to_multiset() =~= p.to_multiset().remove(p[i]).insert(p[j]));
    assert(q.update(j, p[i]).to_multiset() =~= q.to_multiset().remove(q[j]).insert(p[i]));
    if i == j {
        assert(p.update(i, p[j]).update(j, p[i]) =~= p);
    } else {
        assert(q[j] == p[j]);
        assert(p.to_multiset().count(p[i]) > 0) by {
            assert(p.contains(p[i]));
        }
    }
}

/// What the in-place partition guarantees after `k` steps.
pub proof fn lemma_lomuto<T: AsBoundingVolume>(s: Seq<T>, axis: int, numer: int, denom: int, k: nat)
    requires
        k <= s.len(),
    ensures
        ({
            let (p, g) = lomuto(s, axis, numer, denom, k);
            let (ab, an, ob, on) = sides(s.take(k as int), axis, numer, denom);
            &&& p.len() == s.len()
            &&& g == an
            &&& g <= k
            &&& forall|i: int| k <= i < s.len() ==> p[i] == s[i]
            &&& forall|i: int| 0 <= i < g ==> above(#[trigger] p[i], axis, numer, denom)
            &&& forall|i: int| g <= i < k ==> !above(#[trigger] p[i], axis, numer, denom)
            &&& forall|i: int| 0 <= i < g ==> ab.unwrap().contains(bv(#[trigger] p[i]))
            &&& forall|i: int| g <= i < k ==> ob.unwrap().contains(bv(#[trigger] p[i]))
            &&& p.to_multiset() == s.to_multiset()
        }),
    decreases k,
{
    if k > 0 {
        let k1 = (k - 1) as nat;
        lemma_lomuto(s, axis, numer, denom, k1);
        let (p, g) = lomuto(s, axis, numer, denom, k1);
        let (ab, an, ob, on) = sides(s.take(k1 as int), axis, numer, denom);
        assert(s.take(k as int).drop_last() =~= s.take(k1 as int));
        let x = p[k1 as int];
        assert(x == s[k1 as int]);
        lemma_sides_counts(s.take(k1 as int), axis, numer, denom);
        if above(x, axis, numer, denom) {
            let ab2 = grown(ab, bv(x));
            assert forall|i: int| 0 <= i < g implies ab2.unwrap().contains(bv(#[trigger] p[i])) by {
                lemma_union_contains(ab.unwrap(), bv(x), bv(p[i]));
            }
            if ab is Some {
                lemma_union_contains(ab.unwrap(), bv(x), bv(x));
            }
            lemma_swap_multiset(p, g as int, k1 as int);
        } else {
            let ob2 = grown(ob, bv(x));
            assert forall|i: int| g <= i < k1 implies ob2.unwrap().contains(bv(#[trigger] p[i])) by {
                lemma_union_contains(ob.unwrap(), bv(x), bv(p[i]));
            }
            if ob is Some {
                lemma_union_contains(ob.unwrap(), bv(x), bv(x));
            }
        }
    }
}

/// Shape facts of a build: it only permutes the primitives, keeps the
/// node's bounds and range, and appends at most two nodes per primitive.
pub proof fn lemma_build_shape<T: AsBoundingVolume>(
    s: Seq<T>,
    node: BvhNode,
    depth: int,
    max_depth: int,
    next: int,
)
    ensures
        ({
            let (p, n2, app, dep) = build(s, node, depth, max_depth, next);
            &&& p.len() == s.len()
            &&& dep.len() == app.len()
            &&& p.to_multiset() == s.to_multiset()
            &&& n2 == (BvhNode { child_node: n2.child_node, ..node })
            &&& (app.len() == 0 ==> n2 == node)
            &&& (app.len() > 0 ==> n2.child_node == next as u32 && s.len() > MIN_SPLIT_LEN)
            &&& (s.len() > 0 ==> app.len() <= 2 * (s.len() - 1))
            &&& (s.len() == 0 ==> app.len() == 0)
        }),
    decreases max_depth - depth,
{
    if depth >= max_depth || s.len() <= MIN_SPLIT_LEN {
    } else {
        match best_split(s, node.bounds) {
            None => {},
            Some(c) => {
                if c.cost >= leaf_cost(node.bounds, s.len() as int) {
                } else {
                    let (axis, numer, denom) = (c.axis as int, c.numer as int, c.denom as int);
                    let (p, g) = lomuto(s, axis, numer, denom, s.len());
                    let (ab, an, ob, on) = sides(s, axis, numer, denom);
                    {
                        lemma_split_choice_range(s, node.bounds);
                        lemma_lomuto(s, axis, numer, denom, s.len());
                        lemma_sides_counts(s, axis, numer, denom);
                        assert(s.take(s.len() as int) =~= s);
                        assert(0 < g < s.len());
                        let gt = BvhNode {
                            bounds: ab.unwrap(),
                            start_index: node.start_index,
                            len: g as u32,
                            child_node: 0,
                        };
                        let lt = BvhNode {
                            bounds: ob.unwrap(),
                            start_index: (node.start_index + g) as u32,
                            len: (s.len() - g) as u32,
                            child_node: 0,
                        };
                        let (ord_a, gt2, n1, d1) = build(p.take(g as int), gt, depth + 1, max_depth, next + 2);
                        lemma_build_shape(p.take(g as int), gt, depth + 1, max_depth, next + 2);
                        lemma_build_shape(p.skip(g as int), lt, depth + 1, max_depth, next + 2 + n1.len());
                        let (ord_b, lt2, n2, d2) = build(
                            p.skip(g as int),
                            lt,
                            depth + 1,
                            max_depth,
                            next + 2 + n1.len(),
                        );
                        vstd::seq_lib::lemma_multiset_commutative(ord_a, ord_b);
                        vstd::seq_lib::lemma_multiset_commutative(p.take(g as int), p.skip(g as int));
                        assert(p.take(g as int) + p.skip(g as int) =~= p);
                    }
                }
            },
        }
    }
}

impl BvhNode {
    /// SAH cost of this node as a leaf.
    fn cost(&self) -> (r: i128)
        ensures
            r == leaf_cost(self.bounds, self.len as int),
    {
        let area = self.bounds.surface_area();
        proof {
            crate::geometry::lemma_area_range(self.bounds);
            assert(-0x8_0000_0000_0000_0000_0000_0000 < area * self.len < 0x8_0000_0000_0000_0000_0000_0000)
                by (nonlinear_arith)
                requires
                    -0x8_0000_0000_0000_0000 < area < 0x8_0000_0000_0000_0000,
                    0 <= self.len <= 0xffff_ffff,
            ;
        }
        NODE_COST + OBJECT_COST * (area * self.len as i128)
    }

    /// A root node over the whole list: its bounds enclose every primitive.
    /// An empty list gets the zero box.
    pub fn root<T: AsBoundingVolume>(list: &mut [T]) -> (r: BvhNode)
        requires
            old(list)@.len() <= 0xffff_ffff,
        ensures
            final(list)@ == old(list)@,
            r == (BvhNode {
                bounds: match hull(old(list)@) {
                    Some(b) => b,
                    None => zero_box(),
                },
                start_index: 0,
                len: old(list)@.len() as u32,
                child_node: 0,
            }),
    {
        let bounds = match hull_of(list) {
            Some(b) => b,
            None => BoundingVolume::new(Point::new(0, 0, 0), Point::new(0, 0, 0)),
        };
        BvhNode { bounds, start_index: 0, len: list.len() as u32, child_node: 0 }
    }

    /// The primitives this node covers.
    pub fn slice<T>(self, list: &[T]) -> (r: &[T])
        requires
            self.start_index + self.len <= list@.len(),
        ensures
            r@ == list@.subrange(self.start_index as int, self.start_index + self.len),
    {
        let n = list.len();
        let start = self.start_index as usize;
        let end = start + self.len as usize;
        &list[start..end]
    }

    /// Splits this node, which covers exactly `list`, recursively: reorders
    /// `list` in place and appends the descendants to `nodes`, children
    /// before grandchildren, each pair of siblings side by side.
    #[verifier::rlimit(60)]
    pub fn split<T: AsBoundingVolume + Sync>(
        &mut self,
        list: &mut [T],
        nodes: &mut Vec<BvhNode>,
        depth: u32,
        max_depth: u32,
    )
        requires
            old(self).len == old(list)@.len(),
            old(self).start_index + old(list)@.len() <= 0xffff_ffff,
            old(nodes)@.len() + 2 * old(list)@.len() <= 0xffff_ffff,
        ensures
            ({
                let (p, n2, app, dep) = build(
                    old(list)@,
                    *old(self),
                    depth as int,
                    max_depth as int,
                    old(nodes)@.len() as int,
                );
                &&& final(list)@ == p
                &&& *final(self) == n2
                &&& final(nodes)@ == old(nodes)@ + app
            }),
        decreases max_depth - depth,
    {
        let ghost s = list@;
        let ghost node = *self;
        let ghost next = nodes@.len() as int;
        proof {
            lemma_build_shape(s, node, depth as int, max_depth as int, next);
        }
        let n = list.len();
        if depth >= max_depth || n <= MIN_SPLIT_LEN as usize {
            assert(nodes@ =~= nodes@ + seq![]);
            return;
        }
        let choice = choose_split_axis(self.bounds, &*list);
        let c = match choice {
            Some(c) => c,
            None => {
                assert(nodes@ =~= nodes@ + seq![]);
                return;
            },
        };
        if c.cost >= self.cost() {
            assert(nodes@ =~= nodes@ + seq![]);
            return;
        }
        proof {
            lemma_split_choice_range(s, node.bounds);
        }
        let (g, ab, ob) = partition(list, c.axis, c.numer, c.denom);
        proof {
            lemma_lomuto(s, c.axis as int, c.numer as int, c.denom as int, s.len());
            lemma_sides_counts(s, c.axis as int, c.numer as int, c.denom as int);
            assert(s.take(s.len() as int) =~= s);
        }
        let mut child_gt = BvhNode {
            bounds: ab.unwrap(),
            start_index: self.start_index,
            len: g as u32,
            child_node: 0,
        };
        let mut child_lt = BvhNode {
            bounds: ob.unwrap(),
            start_index: self.start_index + g as u32,
            len: (n - g) as u32,
            child_node: 0,
        };
        let child = nodes.len();
        self.child_node = child as u32;
        nodes.push(child_gt);
        nodes.push(child_lt);
        let ghost p = list@;
        let ghost gt0 = child_gt;
        let ghost lt0 = child_lt;
        let ghost base = nodes@;
        let (left, right) = list.split_at_mut(g);
        assert(left@ =~= p.take(g as int));
        assert(right@ =~= p.skip(g as int));
        proof {
            lemma_build_shape(p.take(g as int), gt0, depth + 1, max_depth as int, next + 2);
        }
        child_gt.split(left, nodes, depth + 1, max_depth);
        let ghost mid = nodes@;
        child_lt.split(right, nodes, depth + 1, max_depth);
        nodes[child] = child_gt;
        nodes[child + 1] = child_lt;
        proof {
            let (ord_a, gt2, n1, d1) = build(p.take(g as int), gt0, depth + 1, max_depth as int, next + 2);
            let (ord_b, lt2, n2, d2) = build(p.skip(g as int), lt0, depth + 1, max_depth as int, next + 2 + n1.len());
            assert(nodes@ =~= old(nodes)@ + (seq![gt2, lt2] + n1 + n2));
        }
    }
}

/// The box at the origin with no extent.
pub open spec fn zero_box() -> BoundingVolume {
    BoundingVolume { min: Point { x: 0, y: 0, z: 0 }, max: Point { x: 0, y: 0, z: 0 } }
}

/// The fields of a chosen split stay in the ranges the partition needs.
proof fn lemma_split_choice_range<T: AsBoundingVolume>(s: Seq<T>, bounds: BoundingVolume)
    ensures
        best_split(s, bounds) matches Some(c) ==> {
            &&& c.axis < 3
            &&& 0 < c.denom <= 40
            &&& -0x100_0000_0000 < c.numer < 0x100_0000_0000
            &&& sides(s, c.axis as int, c.numer as int, c.denom as int).1 > 0
            &&& sides(s, c.axis as int, c.numer as int, c.denom as int).3 > 0
        },
{
    let steps = step_count(s.len() as int);
    let c = samples(s, bounds);
    lemma_best_of_member(c);
    if let Some(x) = best_of(c) {
        let j = choose|j: int| 0 <= j < c.len() && c[j] == Some(x);
        let sb = search_box(s, bounds);
        let axis = j / steps;
        let i = j % steps;
        assert(0 <= axis < 3 && 0 <= i < steps) by (nonlinear_arith)
            requires
                axis == j / steps,
                i == j % steps,
                0 <= j < 3 * steps,
                steps > 0,
        ;
        let lo = sb.min.axis(axis);
        let hi = sb.max.axis(axis);
        assert(-40 * 0x8000_0000 <= 2 * steps * lo <= 40 * 0x8000_0000) by (nonlinear_arith)
            requires
                0 < steps <= 20,
                -0x8000_0000 <= lo < 0x8000_0000,
        ;
        assert(-40 * 0x1_0000_0000 <= (hi - lo) * (2 * i + 1) <= 40 * 0x1_0000_0000) by (nonlinear_arith)
            requires
                0 <= i < steps <= 20,
                -0x1_0000_0000 <= hi - lo <= 0x1_0000_0000,
        ;
    }
}

/// The best candidate is one of the candidates.
proof fn lemma_best_of_member(c: Seq<Option<SplitChoice>>)
    ensures
        best_of(c) matches Some(x) ==> exists|j: int| 0 <= j < c.len() && c[j] == Some(x),
    decreases c.len(),
{
    if c.len() > 0 {
        let d = c.drop_last();
        lemma_best_of_member(d);
        if let Some(x) = best_of(c) {
            if c.last() == Some(x) {
                assert(c[c.len() - 1] == Some(x));
            } else {
                let j = choose|j: int| 0 <= j < d.len() && d[j] == Some(x);
                assert(c[j] == Some(x));
            }
        }
    }
}

/// Partitions `list` in place in one pass: elements whose center lies above
/// `numer / denom` on `axis` are swapped to the front as they are met.
/// Returns how many went to the front and the bounds of either side.
pub fn partition<T: AsBoundingVolume>(list: &mut [T], axis: usize, numer: i64, denom: i64) -> (r: (
    usize,
    Option<BoundingVolume>,
    Option<BoundingVolume>,
))
    requires
        axis < 3,
        0 < denom <= 40,
        -0x100_0000_0000 < numer < 0x100_0000_0000,
    ensures
        ({
            let (p, g) = lomuto(old(list)@, axis as int, numer as int, denom as int, old(list)@.len());
            let (ab, an, ob, on) = sides(old(list)@, axis as int, numer as int, denom as int);
            &&& final(list)@ == p
            &&& r.0 == g
            &&& r.1 == ab
            &&& r.2 == ob
        }),
{
    let ghost s = list@;
    let mut ab: Option<BoundingVolume> = None;
    let mut ob: Option<BoundingVolume> = None;
    let mut g: usize = 0;
    let mut k: usize = 0;
    while k < list.len()
        invariant
            k <= s.len(),
            list@.len() == s.len(),
            axis < 3,
            0 < denom <= 40,
            -0x100_0000_0000 < numer < 0x100_0000_0000,
            (list@, g as nat) == lomuto(s, axis as int, numer as int, denom as int, k as nat),
            ab == sides(s.take(k as int), axis as int, numer as int, denom as int).0,
            ob == sides(s.take(k as int), axis as int, numer as int, denom as int).2,
        decreases s.len() - k,
    {
        proof {
            lemma_lomuto(s, axis as int, numer as int, denom as int, k as nat);
        }
        assert(s.take(k + 1).drop_last() =~= s.take(k as int));
        let b = list[k].bounding_volume();
        let c2: i64 = b.min.get(axis) as i64 + b.max.get(axis) as i64;
        assert(denom * c2 <= 40 * 0x1_0000_0000 && denom * c2 >= -40 * 0x1_0000_0000) by (nonlinear_arith)
            requires
                0 < denom <= 40,
                -0x1_0000_0000 <= c2 <= 0x1_0000_0000,
        ;
        if denom * c2 > 2 * numer {
            ab = grow_opt(ab, &list[k]);
            list.swap(g, k);
            g = g + 1;
        } else {
            ob = grow_opt(ob, &list[k]);
        }
        k += 1;
    }
    assert(s.take(k as int) =~= s);
    (g, ab, ob)
}

/// `floor(log2(n))`, with 0 for `n <= 1`.
pub open spec fn log2_floor(n: nat) -> nat
    decreases n,
{
    if n <= 1 {
        0
    } else {
        1 + log2_floor(n / 2)
    }
}

/// Deepest level a node may be split at for `n` primitives.
pub open spec fn max_depth_for(n: nat) -> nat {
    log2_floor(n) + 2
}

/// The root node over `s`.
pub open spec fn root_node<T: AsBoundingVolume>(s: Seq<T>) -> BvhNode {
    BvhNode {
        bounds: match hull(s) {
            Some(b) => b,
            None => zero_box(),
        },
        start_index: 0,
        len: s.len() as u32,
        child_node: 0,
    }
}

/// The build over a whole primitive list: root at index 0, the rest from 1.
pub open spec fn build_all<T: AsBoundingVolume>(s: Seq<T>) -> (Seq<T>, BvhNode, Seq<BvhNode>, Seq<int>) {
    build(s, root_node(s), 0, max_depth_for(s.len()) as int, 1)
}

/// The node array built for `s`; empty for an empty `s`.
pub open spec fn hierarchy_nodes<T: AsBoundingVolume>(s: Seq<T>) -> Seq<BvhNode> {
    if s.len() == 0 {
        seq![]
    } else {
        seq![build_all(s).1] + build_all(s).2
    }
}

/// The order the build leaves the primitives in.
pub open spec fn hierarchy_order<T: AsBoundingVolume>(s: Seq<T>) -> Seq<T> {
    if s.len() == 0 {
        s
    } else {
        build_all(s).0
    }
}

proof fn lemma_log2_floor_le(n: nat)
    ensures
        log2_floor(n) <= n,
    decreases n,
{
    if n > 1 {
        lemma_log2_floor_le(n / 2);
    }
}

/// `floor(log2(n))` for a positive `n`.
fn floor_log2(n: usize) -> (r: u32)
    requires
        1 <= n <= 0x7fff_ffff,
    ensures
        r == log2_floor(n as nat),
        r <= n,
{
    let mut m = n;
    let mut r: u32 = 0;
    proof {
        lemma_log2_floor_le(n as nat);
    }
    while m > 1
        invariant
            1 <= m <= n,
            n <= 0x7fff_ffff,
            log2_floor(n as nat) <= n,
            r + log2_floor(m as nat) == log2_floor(n as nat),
        decreases m,
    {
        m = m / 2;
        r = r + 1;
    }
    r
}

/// A finished hierarchy: the node array over a reordered primitive list,
/// tagged with the scene version it was built from.
pub struct BoundingVolumeHierarchy {
    pub version: u32,
    nodes: Vec<BvhNode>,
}

/// A hierarchy is seen as its version and its node array.
impl View for BoundingVolumeHierarchy {
    type V = (u32, Seq<BvhNode>);

    closed spec fn view(&self) -> (u32, Seq<BvhNode>) {
        (self.version, self.nodes@)
    }
}

impl BoundingVolumeHierarchy {
    /// Builds the hierarchy over `list` from scratch, reordering `list` so
    /// that every leaf's primitives are contiguous.
    pub fn new<T: AsBoundingVolume + Sync>(list: &mut [T], version: u32) -> (r: BoundingVolumeHierarchy)
        requires
            old(list)@.len() <= 0x7fff_fffe,
        ensures
            r@ == (version, hierarchy_nodes(old(list)@)),
            final(list)@ == hierarchy_order(old(list)@),
    {
        let n = list.len();
        if n == 0 {
            return BoundingVolumeHierarchy { version, nodes: Vec::with_capacity(1) };
        }
        let max_depth = floor_log2(n) + 2;
        let mut root = BvhNode::root(list);
        let mut nodes: Vec<BvhNode> = Vec::with_capacity(n * 2 / 3);
        nodes.push(root);
        root.split(list, &mut nodes, 0, max_depth);
        nodes[0] = root;
        proof {
            let s = old(list)@;
            lemma_build_shape(s, root_node(s), 0, max_depth_for(s.len()) as int, 1);
            assert(nodes@ =~= hierarchy_nodes(s));
        }
        let r = BoundingVolumeHierarchy { version, nodes };
        assert(r@ == (version, hierarchy_nodes(old(list)@)));
        r
    }

    /// Rebuilds over the scene's triangles. The hierarchy carries the
    /// version the scene has after the build, which counts the reordering
    /// as its one change.
    pub fn from_objects(object_list: &mut ObjectList) -> (r: BoundingVolumeHierarchy)
        requires
            old(object_list)@.version < u32::MAX,
            old(object_list)@.triangles.len() <= 0x7fff_fffe,
        ensures
            r@ == ((old(object_list)@.version + 1) as u32, hierarchy_nodes(old(object_list)@.triangles)),
            final(object_list)@ == (ObjectListView {
                triangles: hierarchy_order(old(object_list)@.triangles),
                version: (old(object_list)@.version + 1) as u32,
                ..old(object_list)@
            }),
    {
        let version = object_list.version() + 1;
        Self::new(object_list.triangles_mut(), version)
    }

    /// The node array, root first; empty when there are no primitives.
    pub fn nodes(&self) -> (r: &[BvhNode])
        ensures
            r@ == self@.1,
    {
        self.nodes.as_slice()
    }
}

/// The primitives that node `i` covers.
pub open spec fn node_range<T>(nodes: Seq<BvhNode>, prims: Seq<T>, i: int) -> Seq<T> {
    prims.subrange(nodes[i].start_index as int, nodes[i].start_index + nodes[i].len)
}

/// Node `i`'s bounds enclose every primitive in its range and, for an
/// internal node, the bounds of both children.
pub open spec fn node_contains<T: AsBoundingVolume>(nodes: Seq<BvhNode>, prims: Seq<T>, i: int) -> bool {
    let n = nodes[i];
    &&& n.start_index + n.len <= prims.len()
    &&& forall|j: int|
        n.start_index <= j < n.start_index + n.len ==> n.bounds.contains(bv(#[trigger] prims[j]))
    &&& n.child_node != 0 ==> {
        &&& n.child_node + 1 < nodes.len()
        &&& n.bounds.contains(nodes[n.child_node as int].bounds)
        &&& n.bounds.contains(nodes[n.child_node + 1].bounds)
    }
}

/// An internal node's two children follow it in the array and cut its
/// range into two non-empty, adjacent parts that make up the whole.
pub open spec fn node_partitions(nodes: Seq<BvhNode>, i: int) -> bool {
    let n = nodes[i];
    n.child_node != 0 ==> {
        let a = nodes[n.child_node as int];
        let b = nodes[n.child_node + 1];
        &&& i < n.child_node
        &&& n.child_node + 1 < nodes.len()
        &&& a.start_index == n.start_index
        &&& b.start_index == a.start_index + a.len
        &&& a.len + b.len == n.len
        &&& a.len > 0
        &&& b.len > 0
    }
}

/// Splitting `s` (held in `bounds`) once more would lower its SAH cost.
pub open spec fn splits_further<T: AsBoundingVolume>(s: Seq<T>, bounds: BoundingVolume) -> bool {
    &&& s.len() > MIN_SPLIT_LEN
    &&& match best_split(s, bounds) {
        Some(c) => c.cost < leaf_cost(bounds, s.len() as int),
        None => false,
    }
}

/// Children sit one level below their parent.
pub open spec fn depth_steps(nodes: Seq<BvhNode>, depths: Seq<int>, i: int) -> bool {
    let n = nodes[i];
    n.child_node != 0 ==> {
        &&& depths[n.child_node as int] == depths[i] + 1
        &&& depths[n.child_node + 1] == depths[i] + 1
    }
}

/// A leaf that a split would still improve lies at the depth limit.
pub open spec fn leaf_settled<T: AsBoundingVolume>(
    nodes: Seq<BvhNode>,
    depths: Seq<int>,
    prims: Seq<T>,
    max_depth: int,
    i: int,
) -> bool {
    nodes[i].child_node == 0 && splits_further(node_range(nodes, prims, i), nodes[i].bounds) ==> depths[i]
        == max_depth
}

pub open spec fn node_valid<T: AsBoundingVolume>(
    nodes: Seq<BvhNode>,
    depths: Seq<int>,
    prims: Seq<T>,
    max_depth: int,
    i: int,
) -> bool {
    &&& node_contains(nodes, prims, i)
    &&& node_partitions(nodes, i)
    &&& depth_steps(nodes, depths, i)
    &&& leaf_settled(nodes, depths, prims, max_depth, i)
}

proof fn lemma_sides_within<T: AsBoundingVolume>(
    s: Seq<T>,
    axis: int,
    numer: int,
    denom: int,
    b: BoundingVolume,
)
    requires
        forall|j: int| 0 <= j < s.len() ==> b.contains(bv(#[trigger] s[j])),
    ensures
        sides(s, axis, numer, denom).0 matches Some(x) ==> b.contains(x),
        sides(s, axis, numer, denom).2 matches Some(x) ==> b.contains(x),
    decreases s.len(),
{
    if s.len() > 0 {
        let d = s.drop_last();
        assert forall|j: int| 0 <= j < d.len() implies b.contains(bv(#[trigger] d[j])) by {
            assert(d[j] == s[j]);
        }
        lemma_sides_within(d, axis, numer, denom, b);
        assert(b.contains(bv(s[s.len() - 1])));
    }
}

/// A box that holds every element of `s` holds every element of a
/// permutation of `s`.
proof fn lemma_permuted_within<T: AsBoundingVolume>(s: Seq<T>, q: Seq<T>, b: BoundingVolume)
    requires
        q.to_multiset() == s.to_multiset(),
        forall|j: int| 0 <= j < s.len() ==> b.contains(bv(#[trigger] s[j])),
    ensures
        forall|j: int| 0 <= j < q.len() ==> b.contains(bv(#[trigger] q[j])),
{
    assert forall|j: int| 0 <= j < q.len() implies b.contains(bv(#[trigger] q[j])) by {
        let x = q[j];
        assert(q.contains(x));
        vstd::seq_lib::to_multiset_contains(q, x);
        vstd::seq_lib::to_multiset_contains(s, x);
        let k = choose|k: int| 0 <= k < s.len() && s[k] == x;
    }
}

/// Every node a build produces is valid within the final arrays.
#[verifier::rlimit(100)]
proof fn lemma_build_valid<T: AsBoundingVolume>(
    s: Seq<T>,
    node: BvhNode,
    depth: int,
    max_depth: int,
    next: int,
    nodes: Seq<BvhNode>,
    depths: Seq<int>,
    prims: Seq<T>,
    i: int,
)
    requires
        ({
            let (p, n2, app, dep) = build(s, node, depth, max_depth, next);
            &&& node.len == s.len()
            &&& node.child_node == 0
            &&& node.start_index + s.len() <= prims.len() <= 0xffff_ffff
            &&& forall|j: int| 0 <= j < s.len() ==> node.bounds.contains(bv(#[trigger] s[j]))
            &&& 0 <= i < next
            &&& nodes.len() == depths.len()
            &&& next + app.len() <= nodes.len() <= 0xffff_ffff
            &&& nodes[i] == n2
            &&& depths[i] == depth
            &&& 0 <= depth <= max_depth
            &&& forall|t: int| 0 <= t < app.len() ==> nodes[next + t] == #[trigger] app[t]
            &&& forall|t: int| 0 <= t < dep.len() ==> depths[next + t] == #[trigger] dep[t]
            &&& prims.subrange(node.start_index as int, node.start_index + s.len()) == p
        }),
    ensures
        node_valid(nodes, depths, prims, max_depth, i),
        forall|k: int|
            next <= k < next + build(s, node, depth, max_depth, next).2.len() ==> #[trigger] node_valid(
                nodes,
                depths,
                prims,
                max_depth,
                k,
            ),
    decreases max_depth - depth,
{
    let (ordered, n2, app, dep) = build(s, node, depth, max_depth, next);
    let off = node.start_index as int;
    lemma_build_shape(s, node, depth, max_depth, next);
    if app.len() == 0 {
        assert(node_range(nodes, prims, i) == s);
        assert forall|j: int| off <= j < off + node.len implies node.bounds.contains(bv(#[trigger] prims[j])) by {
            assert(prims[j] == s[j - off]);
        }
        return;
    }
    let c = best_split(s, node.bounds).unwrap();
    let (axis, numer, denom) = (c.axis as int, c.numer as int, c.denom as int);
    let (p, g) = lomuto(s, axis, numer, denom, s.len());
    let (ab, an, ob, on) = sides(s, axis, numer, denom);
    lemma_split_choice_range(s, node.bounds);
    lemma_lomuto(s, axis, numer, denom, s.len());
    lemma_sides_counts(s, axis, numer, denom);
    lemma_sides_within(s, axis, numer, denom, node.bounds);
    assert(s.take(s.len() as int) =~= s);
    let gt = BvhNode { bounds: ab.unwrap(), start_index: node.start_index, len: g as u32, child_node: 0 };
    let lt = BvhNode {
        bounds: ob.unwrap(),
        start_index: (node.start_index + g) as u32,
        len: (s.len() - g) as u32,
        child_node: 0,
    };
    let sa = p.take(g as int);
    let sb = p.skip(g as int);
    let (ord_a, gt2, n1, d1) = build(sa, gt, depth + 1, max_depth, next + 2);
    let (ord_b, lt2, n2b, d2) = build(sb, lt, depth + 1, max_depth, next + 2 + n1.len());
    lemma_build_shape(sa, gt, depth + 1, max_depth, next + 2);
    lemma_build_shape(sb, lt, depth + 1, max_depth, next + 2 + n1.len());
    assert(ordered == ord_a + ord_b);
    assert(app == seq![gt2, lt2] + n1 + n2b);
    assert(dep == seq![depth + 1, depth + 1] + d1 + d2);
    // the first child
    assert(app[0] == gt2 && dep[0] == depth + 1);
    assert(app[1] == lt2 && dep[1] == depth + 1);
    assert forall|j: int| 0 <= j < sa.len() implies gt.bounds.contains(bv(#[trigger] sa[j])) by {
        assert(sa[j] == p[j]);
    }
    assert forall|t: int| 0 <= t < n1.len() implies nodes[next + 2 + t] == #[trigger] n1[t] by {
        assert(app[2 + t] == n1[t]);
    }
    assert forall|t: int| 0 <= t < d1.len() implies depths[next + 2 + t] == #[trigger] d1[t] by {
        assert(dep[2 + t] == d1[t]);
    }
    assert(prims.subrange(off, off + g) =~= ord_a) by {
        assert forall|k: int| 0 <= k < g implies prims.subrange(off, off + g)[k] == ord_a[k] by {
            assert(prims.subrange(off, off + s.len())[k] == ordered[k]);
        }
    }
    lemma_build_valid(sa, gt, depth + 1, max_depth, next + 2, nodes, depths, prims, next);
    // the second child
    assert forall|j: int| 0 <= j < sb.len() implies lt.bounds.contains(bv(#[trigger] sb[j])) by {
        assert(sb[j] == p[g + j]);
    }
    let next2 = next + 2 + n1.len();
    assert forall|t: int| 0 <= t < n2b.len() implies nodes[next2 + t] == #[trigger] n2b[t] by {
        assert(app[2 + n1.len() + t] == n2b[t]);
    }
    assert forall|t: int| 0 <= t < d2.len() implies depths[next2 + t] == #[trigger] d2[t] by {
        assert(dep[2 + d1.len() + t] == d2[t]);
    }
    assert(prims.subrange(off + g, off + s.len()) =~= ord_b) by {
        assert forall|k: int| 0 <= k < s.len() - g implies prims.subrange(off + g, off + s.len())[k] == ord_b[k] by {
            assert(prims.subrange(off, off + s.len())[g + k] == ordered[g + k]);
        }
    }
    assert(lt.start_index == off + g);
    lemma_build_valid(sb, lt, depth + 1, max_depth, next2, nodes, depths, prims, next + 1);
    // the node itself
    lemma_permuted_within(s, ordered, node.bounds);
    assert forall|j: int| off <= j < off + node.len implies node.bounds.contains(bv(#[trigger] prims[j])) by {
        assert(ordered[j - off] == prims[j]);
    }
    assert forall|k: int| next <= k < next + app.len() implies #[trigger] node_valid(
        nodes,
        depths,
        prims,
        max_depth,
        k,
    ) by {
        let t = k - next;
        if t >= 2 + n1.len() {
            assert(app[t] == n2b[t - 2 - n1.len()]);
        } else if t >= 2 {
            assert(app[t] == n1[t - 2]);
        }
    }
}

/// The depth of each node of `hierarchy_nodes(s)`, the root at 0.
pub open spec fn hierarchy_depths<T: AsBoundingVolume>(s: Seq<T>) -> Seq<int> {
    if s.len() == 0 {
        seq![]
    } else {
        seq![0] + build_all(s).3
    }
}

/// The union of a non-empty sequence's bounding volumes holds each of them.
pub proof fn lemma_hull_contains<T: AsBoundingVolume>(s: Seq<T>)
    requires
        s.len() > 0,
    ensures
        hull(s) is Some,
        forall|j: int| 0 <= j < s.len() ==> hull(s).unwrap().contains(bv(#[trigger] s[j])),
    decreases s.len(),
{
    let d = s.drop_last();
    let x = bv(s.last());
    if d.len() > 0 {
        lemma_hull_contains(d);
        let h = hull(d).unwrap();
        assert forall|j: int| 0 <= j < s.len() implies hull(s).unwrap().contains(bv(#[trigger] s[j])) by {
            if j < d.len() {
                assert(d[j] == s[j]);
                lemma_union_contains(h, x, bv(s[j]));
            } else {
                lemma_union_contains(h, x, x);
            }
        }
    }
}

proof fn lemma_hierarchy_valid<T: AsBoundingVolume>(s: Seq<T>)
    requires
        s.len() <= 0x7fff_fffe,
    ensures
        forall|i: int|
            0 <= i < hierarchy_nodes(s).len() ==> #[trigger] node_valid(
                hierarchy_nodes(s),
                hierarchy_depths(s),
                hierarchy_order(s),
                max_depth_for(s.len()) as int,
                i,
            ),
{
    if s.len() > 0 {
        let root = root_node(s);
        let md = max_depth_for(s.len()) as int;
        let (p, n2, app, dep) = build_all(s);
        let nodes = hierarchy_nodes(s);
        let depths = hierarchy_depths(s);
        lemma_build_shape(s, root, 0, md, 1);
        lemma_hull_contains(s);
        assert(p.subrange(0, s.len() as int) =~= p);
        assert forall|t: int| 0 <= t < app.len() implies nodes[1 + t] == #[trigger] app[t] by {}
        assert forall|t: int| 0 <= t < dep.len() implies depths[1 + t] == #[trigger] dep[t] by {}
        lemma_build_valid(s, root, 0, md, 1, nodes, depths, p, 0);
        assert forall|i: int| 0 <= i < nodes.len() implies #[trigger] node_valid(
            nodes,
            depths,
            p,
            md,
            i,
        ) by {
            if i > 0 {
                assert(1 <= i < 1 + app.len());
            }
        }
    }
}

/// Building only reorders the primitives: none is added, dropped or
/// duplicated.
pub proof fn lemma_build_permutes<T: AsBoundingVolume>(s: Seq<T>)
    ensures
        hierarchy_order(s).to_multiset() == s.to_multiset(),
{
    if s.len() > 0 {
        lemma_build_shape(s, root_node(s), 0, max_depth_for(s.len()) as int, 1);
    }
}

/// Every node's bounds enclose the bounds of every primitive in its range
/// and, for an internal node, of both its children.
pub proof fn lemma_build_contains<T: AsBoundingVolume>(s: Seq<T>)
    requires
        s.len() <= 0x7fff_fffe,
    ensures
        forall|i: int|
            0 <= i < hierarchy_nodes(s).len() ==> #[trigger] node_contains(
                hierarchy_nodes(s),
                hierarchy_order(s),
                i,
            ),
{
    lemma_hierarchy_valid(s);
    assert forall|i: int| 0 <= i < hierarchy_nodes(s).len() implies #[trigger] node_contains(
        hierarchy_nodes(s),
        hierarchy_order(s),
        i,
    ) by {
        assert(node_valid(
            hierarchy_nodes(s),
            hierarchy_depths(s),
            hierarchy_order(s),
            max_depth_for(s.len()) as int,
            i,
        ));
    }
}

/// The root covers every primitive, and every internal node's two
/// children split its range exactly, with no gap and no overlap.
pub proof fn lemma_build_partitions<T: AsBoundingVolume>(s: Seq<T>)
    requires
        s.len() <= 0x7fff_fffe,
    ensures
        s.len() > 0 ==> hierarchy_nodes(s).len() > 0 && hierarchy_nodes(s)[0].start_index == 0
            && hierarchy_nodes(s)[0].len == s.len(),
        forall|i: int|
            0 <= i < hierarchy_nodes(s).len() ==> #[trigger] node_partitions(hierarchy_nodes(s), i),
{
    lemma_hierarchy_valid(s);
    if s.len() > 0 {
        lemma_build_shape(s, root_node(s), 0, max_depth_for(s.len()) as int, 1);
    }
    assert forall|i: int| 0 <= i < hierarchy_nodes(s).len() implies #[trigger] node_partitions(
        hierarchy_nodes(s),
        i,
    ) by {
        assert(node_valid(
            hierarchy_nodes(s),
            hierarchy_depths(s),
            hierarchy_order(s),
            max_depth_for(s.len()) as int,
            i,
        ));
    }
}

/// A leaf holds more than `MIN_SPLIT_LEN` primitives only where splitting
/// it would not lower its cost, or where it lies at the depth limit; depths
/// count from 0 at the root and grow by one from parent to child.
pub proof fn lemma_leaf_termination<T: AsBoundingVolume>(s: Seq<T>)
    requires
        s.len() <= 0x7fff_fffe,
    ensures
        hierarchy_depths(s).len() == hierarchy_nodes(s).len(),
        s.len() > 0 ==> hierarchy_depths(s)[0] == 0,
        forall|i: int|
            0 <= i < hierarchy_nodes(s).len() ==> #[trigger] depth_steps(hierarchy_nodes(s), hierarchy_depths(s), i)
                && leaf_settled(
                hierarchy_nodes(s),
                hierarchy_depths(s),
                hierarchy_order(s),
                max_depth_for(s.len()) as int,
                i,
            ),
{
    lemma_hierarchy_valid(s);
    if s.len() > 0 {
        lemma_build_shape(s, root_node(s), 0, max_depth_for(s.len()) as int, 1);
    }
    assert forall|i: int| 0 <= i < hierarchy_nodes(s).len() implies #[trigger] depth_steps(
        hierarchy_nodes(s),
        hierarchy_depths(s),
        i,
    ) && leaf_settled(
        hierarchy_nodes(s),
        hierarchy_depths(s),
        hierarchy_order(s),
        max_depth_for(s.len()) as int,
        i,
    ) by {
        assert(node_valid(
            hierarchy_nodes(s),
            hierarchy_depths(s),
            hierarchy_order(s),
            max_depth_for(s.len()) as int,
            i,
        ));
    }
}

/// `s1` and `s2` hold primitives with the same bounding volumes, in the
/// same order.
pub open spec fn same_boxes<T: AsBoundingVolume>(s1: Seq<T>, s2: Seq<T>) -> bool {
    &&& s1.len() == s2.len()
    &&& forall|i: int| 0 <= i < s1.len() ==> bv(#[trigger] s1[i]) == bv(s2[i])
}

proof fn lemma_same_boxes_drop_last<T: AsBoundingVolume>(s1: Seq<T>, s2: Seq<T>)
    requires
        same_boxes(s1, s2),
        s1.len() > 0,
    ensures
        same_boxes(s1.drop_last(), s2.drop_last()),
        bv(s1.last()) == bv(s2.last()),
{
    assert forall|i: int| 0 <= i < s1.len() - 1 implies bv(#[trigger] s1.drop_last()[i]) == bv(
        s2.drop_last()[i],
    ) by {
        assert(s1.drop_last()[i] == s1[i]);
        assert(s2.drop_last()[i] == s2[i]);
    }
}

proof fn lemma_same_boxes_hull_sides<T: AsBoundingVolume>(
    s1: Seq<T>,
    s2: Seq<T>,
    axis: int,
    numer: int,
    denom: int,
)
    requires
        same_boxes(s1, s2),
    ensures
        hull(s1) == hull(s2),
        sides(s1, axis, numer, denom) == sides(s2, axis, numer, denom),
    decreases s1.len(),
{
    if s1.len() > 0 {
        lemma_same_boxes_drop_last(s1, s2);
        lemma_same_boxes_hull_sides(s1.drop_last(), s2.drop_last(), axis, numer, denom);
    }
}

proof fn lemma_same_boxes_best_split<T: AsBoundingVolume>(s1: Seq<T>, s2: Seq<T>, bounds: BoundingVolume)
    requires
        same_boxes(s1, s2),
    ensures
        best_split(s1, bounds) == best_split(s2, bounds),
{
    lemma_same_boxes_hull_sides(s1, s2, 0, 0, 1);
    let steps = step_count(s1.len() as int);
    let sb = search_box(s1, bounds);
    assert(sb == search_box(s2, bounds));
    assert forall|j: int| 0 <= j < 3 * steps implies sample(s1, sb, steps, j) == sample(s2, sb, steps, j) by {
        let axis = j / steps;
        let numer = crate::split::threshold_numer(sb.min.axis(axis), sb.max.axis(axis), steps, j % steps);
        lemma_same_boxes_hull_sides(s1, s2, axis, numer, 2 * steps);
        assert(split_cost(s1, axis, numer, 2 * steps) == split_cost(s2, axis, numer, 2 * steps));
    }
    assert(samples(s1, bounds) =~= samples(s2, bounds));
}

proof fn lemma_same_boxes_lomuto<T: AsBoundingVolume>(
    s1: Seq<T>,
    s2: Seq<T>,
    axis: int,
    numer: int,
    denom: int,
    k: nat,
)
    requires
        same_boxes(s1, s2),
        k <= s1.len(),
    ensures
        same_boxes(lomuto(s1, axis, numer, denom, k).0, lomuto(s2, axis, numer, denom, k).0),
        lomuto(s1, axis, numer, denom, k).1 == lomuto(s2, axis, numer, denom, k).1,
    decreases k,
{
    if k > 0 {
        let k1 = (k - 1) as nat;
        lemma_same_boxes_lomuto(s1, s2, axis, numer, denom, k1);
        lemma_lomuto(s1, axis, numer, denom, k1);
        lemma_lomuto(s2, axis, numer, denom, k1);
        let (ord_a, g) = lomuto(s1, axis, numer, denom, k1);
        let (ord_b, _) = lomuto(s2, axis, numer, denom, k1);
        assert(bv(ord_a[k1 as int]) == bv(ord_b[k1 as int]));
        if above(ord_a[k1 as int], axis, numer, denom) {
            let q1 = ord_a.update(g as int, ord_a[k1 as int]).update(k1 as int, ord_a[g as int]);
            let q2 = ord_b.update(g as int, ord_b[k1 as int]).update(k1 as int, ord_b[g as int]);
            assert forall|i: int| 0 <= i < q1.len() implies bv(#[trigger] q1[i]) == bv(q2[i]) by {
                assert(bv(ord_a[i]) == bv(ord_b[i]));
                assert(bv(ord_a[g as int]) == bv(ord_b[g as int]));
            }
        }
    }
}

proof fn lemma_same_boxes_build<T: AsBoundingVolume>(
    s1: Seq<T>,
    s2: Seq<T>,
    node: BvhNode,
    depth: int,
    max_depth: int,
    next: int,
)
    requires
        same_boxes(s1, s2),
    ensures
        same_boxes(build(s1, node, depth, max_depth, next).0, build(s2, node, depth, max_depth, next).0),
        build(s1, node, depth, max_depth, next).1 == build(s2, node, depth, max_depth, next).1,
        build(s1, node, depth, max_depth, next).2 == build(s2, node, depth, max_depth, next).2,
        build(s1, node, depth, max_depth, next).3 == build(s2, node, depth, max_depth, next).3,
    decreases max_depth - depth,
{
    lemma_same_boxes_best_split(s1, s2, node.bounds);
    if depth >= max_depth || s1.len() <= MIN_SPLIT_LEN {
    } else {
        match best_split(s1, node.bounds) {
            None => {},
            Some(c) => {
                if c.cost >= leaf_cost(node.bounds, s1.len() as int) {
                } else {
                    let (axis, numer, denom) = (c.axis as int, c.numer as int, c.denom as int);
                    lemma_same_boxes_lomuto(s1, s2, axis, numer, denom, s1.len());
                    lemma_same_boxes_hull_sides(s1, s2, axis, numer, denom);
                    lemma_lomuto(s1, axis, numer, denom, s1.len());
                    lemma_lomuto(s2, axis, numer, denom, s2.len());
                    let (ord_a, g) = lomuto(s1, axis, numer, denom, s1.len());
                    let (ord_b, _) = lomuto(s2, axis, numer, denom, s2.len());
                    let (ab, an, ob, on) = sides(s1, axis, numer, denom);
                    let gt = BvhNode { bounds: ab.unwrap(), start_index: node.start_index, len: g as u32, child_node: 0 };
                    let lt = BvhNode {
                        bounds: ob.unwrap(),
                        start_index: (node.start_index + g) as u32,
                        len: (s1.len() - g) as u32,
                        child_node: 0,
                    };
                    assert forall|i: int| 0 <= i < g implies bv(#[trigger] ord_a.take(g as int)[i]) == bv(
                        ord_b.take(g as int)[i],
                    ) by {
                        assert(bv(ord_a[i]) == bv(ord_b[i]));
                    }
                    assert forall|i: int| 0 <= i < s1.len() - g implies bv(#[trigger] ord_a.skip(g as int)[i])
                        == bv(ord_b.skip(g as int)[i]) by {
                        assert(bv(ord_a[g + i]) == bv(ord_b[g + i]));
                    }
                    lemma_same_boxes_build(ord_a.take(g as int), ord_b.take(g as int), gt, depth + 1, max_depth, next + 2);
                    let n1 = build(ord_a.take(g as int), gt, depth + 1, max_depth, next + 2).2;
                    lemma_same_boxes_build(
                        ord_a.skip(g as int),
                        ord_b.skip(g as int),
                        lt,
                        depth + 1,
                        max_depth,
                        next + 2 + n1.len(),
                    );
                    let q1 = build(s1, node, depth, max_depth, next).0;
                    let q2 = build(s2, node, depth, max_depth, next).0;
                    let a1 = build(ord_a.take(g as int), gt, depth + 1, max_depth, next + 2).0;
                    let a2 = build(ord_b.take(g as int), gt, depth + 1, max_depth, next + 2).0;
                    lemma_build_shape(ord_a.take(g as int), gt, depth + 1, max_depth, next + 2);
                    lemma_build_shape(ord_b.take(g as int), gt, depth + 1, max_depth, next + 2);
                    assert forall|i: int| 0 <= i < q1.len() implies bv(#[trigger] q1[i]) == bv(q2[i]) by {
                        if i < a1.len() {
                            assert(q1[i] == a1[i] && q2[i] == a2[i]);
                        }
                    }
                }
            },
        }
    }
}

/// Building depends on nothing but the bounding volumes of the primitives
/// and their order: lists that agree on those get the same node array and
/// are reordered alike. In particular, building twice from the same list
/// gives the same result.
pub proof fn lemma_build_deterministic<T: AsBoundingVolume>(s1: Seq<T>, s2: Seq<T>)
    requires
        same_boxes(s1, s2),
    ensures
        hierarchy_nodes(s1) == hierarchy_nodes(s2),
        same_boxes(hierarchy_order(s1), hierarchy_order(s2)),
{
    if s1.len() > 0 {
        lemma_same_boxes_hull_sides(s1, s2, 0, 0, 1);
        assert(root_node(s1) == root_node(s2));
        lemma_same_boxes_build(s1, s2, root_node(s1), 0, max_depth_for(s1.len()) as int, 1);
    }
}

} // verus!
