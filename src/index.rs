use crate::boid::POS_LIMIT;
use crate::config::RADIUS_LIMIT;
use crate::vec2::{bounded, norm2, vsub, Vec2};
use vstd::multiset::Multiset;
use vstd::prelude::*;

verus! {

/// A k-d tree over points tagged with their index in the snapshot it was built from.
#[verifier::external_body]
pub struct KdIndex {
    tree: kd_tree::KdMap<[i128; 2], usize>,
}

/// The tagged points a `KdIndex` holds.
pub uninterp spec fn kd_entries(t: KdIndex) -> Multiset<(i64, i64, usize)>;

/// Relies on kd_tree::KdTree::build: the tree holds exactly the items it is built from.
#[verifier::external_body]
fn kd_build(items: Vec<(i64, i64, usize)>) -> (t: KdIndex)
    ensures
        kd_entries(t) == items@.to_multiset(),
{
    let items = items.into_iter().map(|(x, y, i)| ([x as i128, y as i128], i)).collect();
    KdIndex { tree: kd_tree::KdTree::build(items) }
}

pub open spec fn entry_within(e: (i64, i64, usize), x: i64, y: i64, radius: i64) -> bool {
    within((e.0 as int, e.1 as int), (x as int, y as int), radius as int)
}

/// Some point that `t` holds under `tag` is strictly inside the circle.
pub open spec fn kd_holds_within(t: KdIndex, tag: usize, x: i64, y: i64, radius: i64) -> bool {
    exists|e: (i64, i64, usize)|
        #[trigger] kd_entries(t).count(e) > 0 && e.2 == tag && entry_within(e, x, y, radius)
}

/// Relies on kd_tree::KdTree::within_radius: the tags of the held points whose
/// squared distance to `(x, y)` is below `radius * radius`.
#[verifier::external_body]
fn kd_within_radius(t: &KdIndex, x: i64, y: i64, radius: i64) -> (r: Vec<usize>)
    requires
        forall|e: (i64, i64, usize)|
            kd_entries(*t).count(e) > 0 ==> bounded((e.0 as int, e.1 as int), POS_LIMIT as int),
        bounded((x as int, y as int), POS_LIMIT as int),
        0 <= radius <= RADIUS_LIMIT,
    ensures
        forall|k: int| 0 <= k < r.len() ==> kd_holds_within(*t, #[trigger] r[k], x, y, radius),
        forall|e: (i64, i64, usize)|
            kd_entries(*t).count(e) > 0 && entry_within(e, x, y, radius) ==> r@.contains(e.2),
        r.len() <= kd_entries(*t).len(),
{
    t.tree.within_radius(&[x as i128, y as i128], radius as i128).into_iter().map(|e| e.1).collect()
}

/// Two increasing sequences of indices that hold the same indices are equal:
/// so the linear and the k-d tree queries return the very same sequence.
pub proof fn lemma_increasing_same_members(a: Seq<usize>, b: Seq<usize>)
    requires
        forall|i: int, j: int| 0 <= i < j < a.len() ==> a[i] < a[j],
        forall|i: int, j: int| 0 <= i < j < b.len() ==> b[i] < b[j],
        forall|x: usize| a.contains(x) <==> b.contains(x),
    ensures
        a == b,
    decreases a.len() + b.len(),
{
    if a.len() == 0 {
        if b.len() > 0 {
            assert(b.contains(b[0]));
        }
        assert(a =~= b);
    } else if b.len() == 0 {
        assert(a.contains(a[0]));
    } else {
        let x = a.last();
        let y = b.last();
        assert(a.contains(x));
        let k = choose|k: int| 0 <= k < b.len() && b[k] == x;
        if k < b.len() - 1 {
            assert(b[k] < y);
        }
        assert(b.contains(y));
        let q = choose|q: int| 0 <= q < a.len() && a[q] == y;
        if q < a.len() - 1 {
            assert(a[q] < x);
        }
        assert(x == y);
        let a2 = a.drop_last();
        let b2 = b.drop_last();
        assert forall|z: usize| a2.contains(z) <==> b2.contains(z) by {
            if a2.contains(z) {
                let i = choose|i: int| 0 <= i < a2.len() && a2[i] == z;
                assert(a[i] < x);
                assert(a.contains(z));
                let j = choose|j: int| 0 <= j < b.len() && b[j] == z;
                assert(j != b.len() - 1);
                assert(b2[j] == z);
            }
            if b2.contains(z) {
                let i = choose|i: int| 0 <= i < b2.len() && b2[i] == z;
                assert(b[i] < y);
                assert(b.contains(z));
                let j = choose|j: int| 0 <= j < a.len() && a[j] == z;
                assert(j != a.len() - 1);
                assert(a2[j] == z);
            }
        }
        lemma_increasing_same_members(a2, b2);
        assert(a =~= a2.push(x));
        assert(b =~= b2.push(y));
    }
}

/// The distinct values of `ids`, in increasing order.
pub fn sorted_distinct(ids: &Vec<usize>) -> (r: Vec<usize>)
    ensures
        forall|a: int, b: int| 0 <= a < b < r.len() ==> r[a] < r[b],
        forall|x: usize| r@.contains(x) <==> ids@.contains(x),
{
    let mut r: Vec<usize> = Vec::new();
    let mut i: usize = 0;
    while i < ids.len()
        invariant
            i <= ids.len(),
            forall|a: int, b: int| 0 <= a < b < r.len() ==> r[a] < r[b],
            forall|x: usize| r@.contains(x) <==> ids@.take(i as int).contains(x),
        decreases ids.len() - i,
    {
        let x = ids[i];
        let mut k: usize = 0;
        while k < r.len() && r[k] < x
            invariant
                k <= r.len(),
                forall|q: int| 0 <= q < k ==> r[q] < x,
            decreases r.len() - k,
        {
            k = k + 1;
        }
        let ghost before = r@;
        if k < r.len() && r[k] == x {
        } else {
            r.insert(k, x);
            proof {
                assert forall|a: int, b: int| 0 <= a < b < r.len() implies r[a] < r[b] by {
                    if b < k {
                        assert(r[a] == before[a] && r[b] == before[b]);
                    } else if b == k {
                        assert(r[a] == before[a]);
                    } else if a < k {
                        assert(r[a] == before[a] && r[b] == before[b - 1]);
                        assert(before[b - 1] >= x);
                    } else if a == k {
                        assert(r[b] == before[b - 1]);
                        assert(before[k as int] >= x);
                        if b - 1 > k {
                            assert(before[k as int] < before[b - 1]);
                        }
                    } else {
                        assert(r[a] == before[a - 1] && r[b] == before[b - 1]);
                    }
                }
            }
        }
        proof {
            assert(ids@.take(i as int + 1) =~= ids@.take(i as int).push(x));
            assert forall|y: usize| r@.contains(y) <==> ids@.take(i as int + 1).contains(y) by {
                if r@.contains(y) {
                    let q = choose|q: int| 0 <= q < r.len() && r[q] == y;
                    if y != x {
                        if r@ == before {
                            assert(before[q] == y);
                        } else if q < k {
                            assert(before[q] == y);
                        } else {
                            assert(q != k);
                            assert(before[q - 1] == y);
                        }
                        assert(before.contains(y));
                    }
                    assert(ids@.take(i as int + 1)[i as int] == x);
                }
                let pre = ids@.take(i as int + 1);
                if pre.contains(y) {
                    let q = choose|q: int| 0 <= q < pre.len() && pre[q] == y;
                    if q < i {
                        assert(ids@.take(i as int)[q] == y);
                        assert(before.contains(y));
                        let t = choose|t: int| 0 <= t < before.len() && before[t] == y;
                        if r@ != before {
                            if t < k {
                                assert(r[t] == y);
                            } else {
                                assert(r[t + 1] == y);
                            }
                        }
                    } else {
                        assert(r[k as int] == x);
                    }
                }
            }
        }
        i = i + 1;
    }
    proof {
        assert(ids@.take(ids.len() as int) =~= ids@);
    }
    r
}

/// `p` lies strictly inside the circle of radius `r` around `c`.
pub open spec fn within(p: (int, int), c: (int, int), r: int) -> bool {
    norm2(vsub(p, c)) < r * r
}

/// How neighbor queries are answered.
#[derive(Clone, Copy, Debug, PartialEq, Eq, Structural)]
pub enum Strategy {
    /// Every point is tested on each query.
    Linear,
    /// A k-d tree is built over the points and searched.
    KdTree,
}

/// Radius queries over a snapshot of points.
pub struct SpatialIndex {
    points: Vec<Vec2>,
    tree: Option<KdIndex>,
}

pub open spec fn tagged(points: Seq<Vec2>) -> Seq<(i64, i64, usize)> {
    Seq::new(points.len(), |j: int| (points[j].x, points[j].y, j as usize))
}

pub open spec fn all_bounded(points: Seq<Vec2>) -> bool {
    forall|j: int| 0 <= j < points.len() ==> bounded(#[trigger] points[j]@, POS_LIMIT as int)
}

impl SpatialIndex {
    pub closed spec fn points(&self) -> Seq<Vec2> {
        self.points@
    }

    /// The strategy the index was built with.
    pub closed spec fn strategy(&self) -> Strategy {
        match self.tree {
            Some(_) => Strategy::KdTree,
            None => Strategy::Linear,
        }
    }

    pub closed spec fn wf(&self) -> bool {
        &&& all_bounded(self.points@)
        &&& self.points.len() <= usize::MAX
        &&& match self.tree {
            Some(t) => kd_entries(t) == tagged(self.points@).to_multiset(),
            None => true,
        }
    }

    /// An index over `points`, searched as `strategy` says.
    pub fn build(points: Vec<Vec2>, strategy: Strategy) -> (r: SpatialIndex)
        requires
            all_bounded(points@),
        ensures
            r.wf(),
            r.points() == points@,
            r.strategy() == strategy,
    {
        match strategy {
            Strategy::Linear => SpatialIndex { points, tree: None },
            Strategy::KdTree => {
                let mut items: Vec<(i64, i64, usize)> = Vec::new();
                let mut j: usize = 0;
                while j < points.len()
                    invariant
                        j <= points.len(),
                        items@ == tagged(points@).take(j as int),
                    decreases points.len() - j,
                {
                    items.push((points[j].x, points[j].y, j));
                    j = j + 1;
                    proof {
                        assert(items@ =~= tagged(points@).take(j as int));
                    }
                }
                proof {
                    assert(items@ =~= tagged(points@));
                }
                let t = kd_build(items);
                SpatialIndex { points, tree: Some(t) }
            },
        }
    }

    /// Indices, in increasing order and each once, of the points strictly
    /// inside the circle of `radius` around `center`; the same sequence
    /// whichever strategy the index was built with.
    pub fn query(&self, center: Vec2, radius: i64) -> (r: Vec<usize>)
        requires
            self.wf(),
            bounded(center@, POS_LIMIT as int),
            0 <= radius <= RADIUS_LIMIT,
        ensures
            forall|k: int| 0 <= k < r.len() ==> r[k] < self.points().len(),
            forall|a: int, b: int| 0 <= a < b < r.len() ==> r[a] < r[b],
            forall|j: usize|
                r@.contains(j) <==> (j < self.points().len() && within(
                    self.points()[j as int]@,
                    center@,
                    radius as int,
                )),
    {
        match &self.tree {
            None => query_linear(&self.points, center, radius),
            Some(t) => {
                let ghost ts = tagged(self.points@);
                proof {
                    assert forall|e: (i64, i64, usize)| kd_entries(*t).count(e) > 0 implies bounded(
                        (e.0 as int, e.1 as int),
                        POS_LIMIT as int,
                    ) by {
                        ts.to_multiset_ensures();
                        let j = choose|j: int| 0 <= j < ts.len() && ts[j] == e;
                        assert(bounded(self.points@[j]@, POS_LIMIT as int));
                    }
                }
                let r = kd_within_radius(t, center.x, center.y, radius);
                proof {
                    ts.to_multiset_ensures();
                    assert forall|k: int| 0 <= k < r.len() implies r[k] < self.points().len()
                        && within(self.points()[r[k] as int]@, center@, radius as int) by {
                        let e = choose|e: (i64, i64, usize)|
                            kd_entries(*t).count(e) > 0 && e.2 == r[k] && entry_within(
                                e,
                                center.x,
                                center.y,
                                radius,
                            );
                        let j = choose|j: int| 0 <= j < ts.len() && ts[j] == e;
                        assert(j == r[k] as int);
                    }
                    assert forall|j: usize|
                        j < self.points().len() && within(
                            self.points()[j as int]@,
                            center@,
                            radius as int,
                        ) implies r@.contains(j) by {
                        let e = ts[j as int];
                        assert(ts.contains(e));
                        assert(entry_within(e, center.x, center.y, radius));
                    }
                    assert forall|j: usize| r@.contains(j) implies (j < self.points().len()
                        && within(self.points()[j as int]@, center@, radius as int)) by {
                        let k = choose|k: int| 0 <= k < r.len() && r[k] == j;
                    }
                }
                let sorted = sorted_distinct(&r);
                proof {
                    assert forall|k: int| 0 <= k < sorted.len() implies sorted[k] < self.points().len() by {
                        assert(sorted@.contains(sorted[k]));
                    }
                }
                sorted
            },
        }
    }
}

/// Indices, in increasing order, of the points strictly inside the circle of
/// `radius` around `center`, found by testing every point.
pub fn query_linear(points: &Vec<Vec2>, center: Vec2, radius: i64) -> (r: Vec<usize>)
    requires
        all_bounded(points@),
        bounded(center@, POS_LIMIT as int),
        0 <= radius <= RADIUS_LIMIT,
    ensures
        r.len() <= points.len(),
        forall|k: int| 0 <= k < r.len() ==> r[k] < points.len(),
        forall|a: int, b: int| 0 <= a < b < r.len() ==> r[a] < r[b],
        forall|j: usize|
            r@.contains(j) <==> (j < points.len() && within(points@[j as int]@, center@, radius as int)),
{
    let mut r: Vec<usize> = Vec::new();
    let mut j: usize = 0;
    proof {
        crate::vec2::lemma_square_monotone(radius as int, RADIUS_LIMIT as int);
    }
    while j < points.len()
        invariant
            j <= points.len(),
            r.len() <= j,
            all_bounded(points@),
            bounded(center@, POS_LIMIT as int),
            0 <= radius <= RADIUS_LIMIT,
            radius * radius <= RADIUS_LIMIT * RADIUS_LIMIT,
            forall|k: int| 0 <= k < r.len() ==> r[k] < j,
            forall|a: int, b: int| 0 <= a < b < r.len() ==> r[a] < r[b],
            forall|i: usize|
                r@.contains(i) <==> (i < j && within(points@[i as int]@, center@, radius as int)),
        decreases points.len() - j,
    {
        proof {
            assert(bounded(points@[j as int]@, POS_LIMIT as int));
        }
        let d = points[j].minus(&center);
        if d.length_squared() < radius as i128 * radius as i128 {
            let ghost before = r@;
            r.push(j);
            proof {
                assert forall|i: usize|
                    r@.contains(i) <==> (i < j + 1 && within(
                        points@[i as int]@,
                        center@,
                        radius as int,
                    )) by {
                    if i == j {
                        assert(r@[r.len() - 1] == j);
                    }
                    if r@.contains(i) && i != j {
                        let k = choose|k: int| 0 <= k < r.len() && r@[k] == i;
                        assert(before[k] == i);
                        assert(before.contains(i));
                    }
                    if i < j && within(points@[i as int]@, center@, radius as int) {
                        assert(before.contains(i));
                        let k = choose|k: int| 0 <= k < before.len() && before[k] == i;
                        assert(r@[k] == i);
                    }
                }
            }
        }
        j = j + 1;
    }
    r
}

} // verus!
