//! The surface-area-heuristic cost model and the split-plane search.
use vstd::prelude::*;
use crate::geometry::{grown, lemma_area_range, AsBoundingVolume, BoundingVolume, bv};
use rayon::iter::{IndexedParallelIterator, IntoParallelIterator, ParallelIterator};

verus! {

/// Fixed cost of one traversal step through a node.
pub const NODE_COST: i128 = 0;

/// Cost factor of testing one primitive, per unit of surface area.
pub const OBJECT_COST: i128 = 2;

/// Lists below this length search the tight extent of their primitives
/// instead of the (possibly looser) node bounds.
pub const TIGHT_SEARCH_BELOW: usize = 10;

/// Fewest and most thresholds sampled per axis.
pub const MIN_STEPS: usize = 5;
pub const MAX_STEPS: usize = 20;

/// A candidate split: primitives whose center along `axis` lies strictly
/// above `numer / denom` go to one child, the rest to the other.
#[derive(Clone, Copy, Debug, PartialEq, Eq, Structural)]
pub struct SplitChoice {
    pub cost: i128,
    pub axis: usize,
    pub numer: i64,
    pub denom: i64,
}

/// The union of the bounding volumes of `s`, or `None` for an empty `s`.
pub open spec fn hull<T: AsBoundingVolume>(s: Seq<T>) -> Option<BoundingVolume>
    decreases s.len(),
{
    if s.len() == 0 {
        None
    } else {
        grown(hull(s.drop_last()), bv(s.last()))
    }
}

/// The center of `t` along `axis` lies strictly above `numer / denom`
/// (for a positive `denom`).
pub open spec fn above<T: AsBoundingVolume>(t: T, axis: int, numer: int, denom: int) -> bool {
    denom * bv(t).center2(axis) > 2 * numer
}

/// Bounds and counts of the two sides of a split of `s`:
/// `(above bounds, above count, other bounds, other count)`.
pub open spec fn sides<T: AsBoundingVolume>(s: Seq<T>, axis: int, numer: int, denom: int) -> (
    Option<BoundingVolume>,
    nat,
    Option<BoundingVolume>,
    nat,
)
    decreases s.len(),
{
    if s.len() == 0 {
        (None, 0, None, 0)
    } else {
        let (ab, an, ob, on) = sides(s.drop_last(), axis, numer, denom);
        if above(s.last(), axis, numer, denom) {
            (grown(ab, bv(s.last())), an + 1, ob, on)
        } else {
            (ab, an, grown(ob, bv(s.last())), on + 1)
        }
    }
}

/// Area of an accumulated box (0 when nothing was accumulated).
pub open spec fn opt_area(b: Option<BoundingVolume>) -> int {
    match b {
        Some(v) => v.area(),
        None => 0,
    }
}

/// SAH cost of splitting `s` at `numer / denom` on `axis`; `None` (infinite
/// cost) when one side would be empty.
pub open spec fn split_cost<T: AsBoundingVolume>(s: Seq<T>, axis: int, numer: int, denom: int) -> Option<int> {
    let (ab, an, ob, on) = sides(s, axis, numer, denom);
    if an == 0 || on == 0 {
        None
    } else {
        Some(NODE_COST + OBJECT_COST * (opt_area(ab) * an + opt_area(ob) * on))
    }
}

/// Number of thresholds sampled per axis for `n` primitives.
pub open spec fn step_count(n: int) -> int {
    if n < MIN_STEPS {
        MIN_STEPS as int
    } else if n > MAX_STEPS {
        MAX_STEPS as int
    } else {
        n
    }
}

/// The box whose extent the thresholds are spread over.
pub open spec fn search_box<T: AsBoundingVolume>(s: Seq<T>, bounds: BoundingVolume) -> BoundingVolume {
    if 0 < s.len() < TIGHT_SEARCH_BELOW {
        hull(s).unwrap()
    } else {
        bounds
    }
}

/// Numerator of the `i`-th of `steps` evenly spaced thresholds over
/// `[lo, hi]`, the midpoints of equal cells: `lo + (hi - lo) * (i + 1/2) / steps`.
/// The denominator is `2 * steps`.
pub open spec fn threshold_numer(lo: int, hi: int, steps: int, i: int) -> int {
    2 * steps * lo + (hi - lo) * (2 * i + 1)
}

/// Sample `j` of the search: axis `j / steps`, threshold `j % steps`.
pub open spec fn sample<T: AsBoundingVolume>(
    s: Seq<T>,
    search: BoundingVolume,
    steps: int,
    j: int,
) -> Option<SplitChoice> {
    let axis = j / steps;
    let i = j % steps;
    let numer = threshold_numer(search.min.axis(axis), search.max.axis(axis), steps, i);
    let denom = 2 * steps;
    match split_cost(s, axis, numer, denom) {
        Some(c) => Some(SplitChoice { cost: c as i128, axis: axis as usize, numer: numer as i64, denom: denom as i64 }),
        None => None,
    }
}

/// The first candidate of least cost, skipping infinite ones.
pub open spec fn best_of(c: Seq<Option<SplitChoice>>) -> Option<SplitChoice>
    decreases c.len(),
{
    if c.len() == 0 {
        None
    } else {
        let b = best_of(c.drop_last());
        match c.last() {
            Some(x) => match b {
                Some(y) => if x.cost < y.cost { Some(x) } else { Some(y) },
                None => Some(x),
            },
            None => b,
        }
    }
}

/// All samples of the search, axis by axis.
pub open spec fn samples<T: AsBoundingVolume>(s: Seq<T>, bounds: BoundingVolume) -> Seq<Option<SplitChoice>> {
    let steps = step_count(s.len() as int);
    Seq::new((3 * steps) as nat, |j: int| sample(s, search_box(s, bounds), steps, j))
}

/// The split the search settles on.
pub open spec fn best_split<T: AsBoundingVolume>(s: Seq<T>, bounds: BoundingVolume) -> Option<SplitChoice> {
    best_of(samples(s, bounds))
}

/// Accumulates the bounding volume of `t` into `acc`.
pub fn grow_opt<T: AsBoundingVolume>(acc: Option<BoundingVolume>, t: &T) -> (r: Option<BoundingVolume>)
    ensures
        r == grown(acc, bv(*t)),
{
    match acc {
        Some(mut b) => {
            b.grow(t);
            Some(b)
        },
        None => Some(t.bounding_volume()),
    }
}

/// The union of the bounding volumes of `list`.
pub fn hull_of<T: AsBoundingVolume>(list: &[T]) -> (r: Option<BoundingVolume>)
    ensures
        r == hull(list@),
{
    let mut acc: Option<BoundingVolume> = None;
    let mut k: usize = 0;
    while k < list.len()
        invariant
            k <= list@.len(),
            acc == hull(list@.take(k as int)),
        decreases list@.len() - k,
    {
        assert(list@.take(k + 1).drop_last() =~= list@.take(k as int));
        acc = grow_opt(acc, &list[k]);
        k += 1;
    }
    assert(list@.take(k as int) =~= list@);
    acc
}

proof fn lemma_cost_bound(a1: int, n1: int, a2: int, n2: int)
    requires
        -0x8_0000_0000_0000_0000 < a1 < 0x8_0000_0000_0000_0000,
        -0x8_0000_0000_0000_0000 < a2 < 0x8_0000_0000_0000_0000,
        0 <= n1 <= 0xffff_ffff,
        0 <= n2 <= 0xffff_ffff,
    ensures
        -0x8_0000_0000_0000_0000_0000_0000 < a1 * n1 < 0x8_0000_0000_0000_0000_0000_0000,
        -0x8_0000_0000_0000_0000_0000_0000 < a2 * n2 < 0x8_0000_0000_0000_0000_0000_0000,
{
    assert(-0x8_0000_0000_0000_0000_0000_0000 < a1 * n1 < 0x8_0000_0000_0000_0000_0000_0000)
        by (nonlinear_arith)
        requires
            -0x8_0000_0000_0000_0000 < a1 < 0x8_0000_0000_0000_0000,
            0 <= n1 <= 0xffff_ffff,
    ;
    assert(-0x8_0000_0000_0000_0000_0000_0000 < a2 * n2 < 0x8_0000_0000_0000_0000_0000_0000)
        by (nonlinear_arith)
        requires
            -0x8_0000_0000_0000_0000 < a2 < 0x8_0000_0000_0000_0000,
            0 <= n2 <= 0xffff_ffff,
    ;
}

/// The cost of a split is bounded, so it fits an `i128`.
pub proof fn lemma_split_cost_range<T: AsBoundingVolume>(s: Seq<T>, axis: int, numer: int, denom: int)
    requires
        s.len() <= 0xffff_ffff,
    ensures
        split_cost(s, axis, numer, denom) matches Some(c) ==> -0x20_0000_0000_0000_0000_0000_0000 < c
            < 0x20_0000_0000_0000_0000_0000_0000,
{
    let (ab, an, ob, on) = sides(s, axis, numer, denom);
    lemma_sides_counts(s, axis, numer, denom);
    let a1 = opt_area(ab);
    let a2 = opt_area(ob);
    if let Some(b) = ab {
        lemma_area_range(b);
    }
    if let Some(b) = ob {
        lemma_area_range(b);
    }
    lemma_cost_bound(a1, an as int, a2, on as int);
}

/// The two sides of a split share out the whole sequence, and a side has
/// bounds exactly when it is non-empty.
pub proof fn lemma_sides_counts<T: AsBoundingVolume>(s: Seq<T>, axis: int, numer: int, denom: int)
    ensures
        sides(s, axis, numer, denom).1 + sides(s, axis, numer, denom).3 == s.len(),
        (sides(s, axis, numer, denom).1 == 0) == (sides(s, axis, numer, denom).0 is None),
        (sides(s, axis, numer, denom).3 == 0) == (sides(s, axis, numer, denom).2 is None),
    decreases s.len(),
{
    if s.len() > 0 {
        lemma_sides_counts(s.drop_last(), axis, numer, denom);
    }
}

/// SAH cost of splitting `list` at `numer / denom` on `axis`; `None` when a
/// side would be empty.
pub fn evaluate_split_cost<T: AsBoundingVolume>(list: &[T], axis: usize, numer: i64, denom: i64) -> (r:
    Option<i128>)
    requires
        list@.len() <= 0xffff_ffff,
        axis < 3,
        0 < denom <= 40,
        -0x100_0000_0000 < numer < 0x100_0000_0000,
    ensures
        match r {
            Some(c) => split_cost(list@, axis as int, numer as int, denom as int) == Some(c as int),
            None => split_cost(list@, axis as int, numer as int, denom as int) is None,
        },
{
    let ghost s = list@;
    let mut ab: Option<BoundingVolume> = None;
    let mut ob: Option<BoundingVolume> = None;
    let mut an: usize = 0;
    let mut on: usize = 0;
    let mut k: usize = 0;
    while k < list.len()
        invariant
            k <= s.len(),
            s == list@,
            s.len() <= 0xffff_ffff,
            axis < 3,
            0 < denom <= 40,
            -0x100_0000_0000 < numer < 0x100_0000_0000,
            (ab, an as nat, ob, on as nat) == sides(s.take(k as int), axis as int, numer as int, denom as int),
            an + on == k,
        decreases s.len() - k,
    {
        assert(s.take(k + 1).drop_last() =~= s.take(k as int));
        let t = &list[k];
        let b = t.bounding_volume();
        let c2: i64 = b.min.get(axis) as i64 + b.max.get(axis) as i64;
        assert(denom * c2 <= 40 * 0x1_0000_0000 && denom * c2 >= -40 * 0x1_0000_0000) by (nonlinear_arith)
            requires
                0 < denom <= 40,
                -0x1_0000_0000 <= c2 <= 0x1_0000_0000,
        ;
        if denom * c2 > 2 * numer {
            ab = grow_opt(ab, t);
            an = an + 1;
        } else {
            ob = grow_opt(ob, t);
            on = on + 1;
        }
        k += 1;
    }
    assert(s.take(k as int) =~= s);
    proof {
        lemma_sides_counts(s, axis as int, numer as int, denom as int);
        lemma_split_cost_range(s, axis as int, numer as int, denom as int);
    }
    if an == 0 || on == 0 {
        return None;
    }
    let area_a = ab.unwrap().surface_area();
    let area_b = ob.unwrap().surface_area();
    proof {
        lemma_cost_bound(area_a as int, an as int, area_b as int, on as int);
    }
    Some(NODE_COST + OBJECT_COST * (area_a * an as i128 + area_b * on as i128))
}

/// Evaluates sample `j` of the search over `search`'s extent.
pub fn sample_split<T: AsBoundingVolume>(list: &[T], search: BoundingVolume, steps: usize, j: usize) -> (r:
    Option<SplitChoice>)
    requires
        list@.len() <= 0xffff_ffff,
        MIN_STEPS <= steps <= MAX_STEPS,
        j < 3 * steps,
    ensures
        r == sample(list@, search, steps as int, j as int),
{
    let axis = j / steps;
    let i = j % steps;
    assert(axis < 3) by (nonlinear_arith)
        requires
            axis == j / steps,
            j < 3 * steps,
            steps > 0,
    ;
    let lo = search.min.get(axis) as i64;
    let hi = search.max.get(axis) as i64;
    let s2 = 2 * steps as i64;
    let odd = 2 * i as i64 + 1;
    assert(-40 * 0x8000_0000 <= s2 * lo <= 40 * 0x8000_0000) by (nonlinear_arith)
        requires
            0 < s2 <= 40,
            -0x8000_0000 <= lo < 0x8000_0000,
    ;
    assert(-40 * 0x1_0000_0000 <= (hi - lo) * odd <= 40 * 0x1_0000_0000) by (nonlinear_arith)
        requires
            0 < odd <= 40,
            -0x1_0000_0000 <= hi - lo <= 0x1_0000_0000,
    ;
    let numer = s2 * lo + (hi - lo) * odd;
    match evaluate_split_cost(list, axis, numer, s2) {
        Some(cost) => Some(SplitChoice { cost, axis, numer, denom: s2 }),
        None => None,
    }
}

/// Evaluates every sample of the search, fanned out over rayon's thread
/// pool. Relies on `IndexedParallelIterator::collect_into_vec`, which fills
/// the vector in the order of the indices, whatever order the work runs in.
#[verifier::external_body]
fn par_sample_splits<T: AsBoundingVolume + Sync>(
    list: &[T],
    search: BoundingVolume,
    steps: usize,
    count: usize,
) -> (r: Vec<Option<SplitChoice>>)
    requires
        list@.len() <= 0xffff_ffff,
        MIN_STEPS <= steps <= MAX_STEPS,
        count == 3 * steps,
    ensures
        r@.len() == count,
        forall|j: int| 0 <= j < count ==> r@[j] == sample(list@, search, steps as int, j),
{
    let mut out = Vec::new();
    (0..count).into_par_iter().map(|j| sample_split(list, search, steps, j)).collect_into_vec(&mut out);
    out
}

/// Searches three axes times `clamp(len, 5, 20)` thresholds for the split
/// of least SAH cost. `None` when every candidate leaves a side empty.
pub fn choose_split_axis<T: AsBoundingVolume + Sync>(bounds: BoundingVolume, list: &[T]) -> (r: Option<
    SplitChoice,
>)
    requires
        list@.len() <= 0xffff_ffff,
    ensures
        r == best_split(list@, bounds),
{
    let n = list.len();
    let steps: usize = if n < MIN_STEPS {
        MIN_STEPS
    } else if n > MAX_STEPS {
        MAX_STEPS
    } else {
        n
    };
    let search = if 0 < n && n < TIGHT_SEARCH_BELOW {
        hull_of(list).unwrap()
    } else {
        bounds
    };
    let results = par_sample_splits(list, search, steps, 3 * steps);
    assert(results@ =~= samples(list@, bounds));
    let mut best: Option<SplitChoice> = None;
    let mut j: usize = 0;
    while j < results.len()
        invariant
            j <= results@.len(),
            best == best_of(results@.take(j as int)),
        decreases results@.len() - j,
    {
        assert(results@.take(j + 1).drop_last() =~= results@.take(j as int));
        let c = results[j];
        match c {
            Some(x) => match best {
                Some(y) => {
                    if x.cost < y.cost {
                        best = Some(x);
                    }
                },
                None => {
                    best = Some(x);
                },
            },
            None => {},
        }
        j += 1;
    }
    assert(results@.take(j as int) =~= results@);
    best
}

} // verus!
