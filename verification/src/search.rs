//! Range and nearest-neighbour queries on a quadtree.
use crate::geometry::{Point, Rectangle};
use crate::quadtree::{inside, QuadTree, TreeView};
use vstd::prelude::*;

verus! {

/// Picking the points inside a rectangle from two sequences one after the
/// other is picking them from the concatenation.
pub proof fn lemma_inside_concat(a: Seq<Point>, b: Seq<Point>, area: Rectangle)
    ensures
        inside(a + b, area) == inside(a, area) + inside(b, area),
    decreases b.len(),
{
    if b.len() == 0 {
        assert(a + b =~= a);
        assert(inside(a, area) + inside(b, area) =~= inside(a, area));
    } else {
        lemma_inside_concat(a, b.drop_last(), area);
        assert((a + b).drop_last() =~= a + b.drop_last());
        assert((a + b).last() == b.last());
        if area.contains(&b.last()) {
            assert(inside(a, area) + inside(b, area) =~= (inside(a, area) + inside(
                b.drop_last(),
                area,
            )).push(b.last()));
        }
    }
}

/// None of the points `ps`, all of which lie in `area`, lies in a rectangle
/// that `area` does not intersect.
pub proof fn lemma_inside_disjoint(ps: Seq<Point>, area: Rectangle, range: Rectangle)
    requires
        forall|i: int| 0 <= i < ps.len() ==> area.contains(&#[trigger] ps[i]),
        !area.intersects(&range),
    ensures
        inside(ps, range) == Seq::<Point>::empty(),
    decreases ps.len(),
{
    if ps.len() > 0 {
        let front = ps.drop_last();
        assert forall|i: int| 0 <= i < front.len() implies area.contains(&#[trigger] front[i]) by {
            assert(front[i] == ps[i]);
        }
        lemma_inside_disjoint(front, area, range);
        assert(area.contains(&ps[ps.len() - 1]));
    }
}

impl TreeView {
    /// Every point held by a well-formed tree lies in its rectangle.
    pub proof fn lemma_points_in_area(self)
        requires
            self.well_formed(),
        ensures
            forall|i: int|
                0 <= i < self.all_points().len() ==> self.area.contains(
                    &#[trigger] self.all_points()[i],
                ),
        decreases self,
    {
        if self.zones.len() == 4 {
            let s0 = self.zones[0].all_points();
            let s1 = self.zones[1].all_points();
            let s2 = self.zones[2].all_points();
            let s3 = self.zones[3].all_points();
            assert forall|k: int| 0 <= k < 4 implies forall|i: int|
                0 <= i < (#[trigger] self.zones[k]).all_points().len() ==> self.area.contains(
                    &#[trigger] self.zones[k].all_points()[i],
                ) by {
                let z = self.zones[k];
                assert(z.well_formed());
                z.lemma_points_in_area();
                self.area.lemma_quadrant_within(k as usize);
            }
            assert forall|i: int| 0 <= i < self.all_points().len() implies self.area.contains(
                &#[trigger] self.all_points()[i],
            ) by {
                let all = s0 + s1 + s2 + s3;
                if i < s0.len() {
                    assert(all[i] == self.zones[0].all_points()[i]);
                } else if i < s0.len() + s1.len() {
                    assert(all[i] == self.zones[1].all_points()[i - s0.len()]);
                } else if i < s0.len() + s1.len() + s2.len() {
                    assert(all[i] == self.zones[2].all_points()[i - s0.len() - s1.len()]);
                } else {
                    assert(all[i] == self.zones[3].all_points()[i - s0.len() - s1.len() - s2.len()]);
                }
            }
        }
    }
}

impl QuadTree {
    /// All the points of the tree that lie in `range`, quarter after
    /// quarter.
    pub fn find_in_range(&self, range: &Rectangle) -> (found: Vec<Point>)
        requires
            self.well_formed(),
        ensures
            found@ == inside(self@.all_points(), *range),
    {
        let mut found: Vec<Point> = Vec::new();
        self.collect_in_range(range, &mut found);
        assert(Seq::<Point>::empty() + inside(self@.all_points(), *range) =~= inside(
            self@.all_points(),
            *range,
        ));
        found
    }

    fn collect_in_range(&self, range: &Rectangle, found: &mut Vec<Point>)
        requires
            self.well_formed(),
        ensures
            final(found)@ == old(found)@ + inside(self@.all_points(), *range),
        decreases self,
    {
        proof {
            self.lemma_view_zones();
            self@.lemma_points_in_area();
        }
        if !self.area.intersects(range) {
            proof {
                lemma_inside_disjoint(self@.all_points(), self.area, *range);
                assert(found@ + Seq::<Point>::empty() =~= found@);
            }
            return ;
        }
        if self.zones.len() == 0 {
            let mut i: usize = 0;
            while i < self.elements.len()
                invariant
                    i <= self.elements.len(),
                    found@ == old(found)@ + inside(self.elements@.take(i as int), *range),
                decreases self.elements.len() - i,
            {
                proof {
                    assert(self.elements@.take(i + 1).drop_last() =~= self.elements@.take(i as int));
                }
                let q: Point = self.elements[i];
                if range.contains(&q) {
                    found.push(q);
                    assert(found@ =~= old(found)@ + inside(self.elements@.take(i + 1), *range));
                }
                i += 1;
            }
            proof {
                assert(self.elements@.take(i as int) =~= self.elements@);
            }
        } else {
            let ghost s0 = self@.zones[0].all_points();
            let ghost s1 = self@.zones[1].all_points();
            let ghost s2 = self@.zones[2].all_points();
            let ghost s3 = self@.zones[3].all_points();
            assert(forall|k: int| 0 <= k < 4 ==> (#[trigger] self@.zones[k]).well_formed());
            self.zones[0].collect_in_range(range, found);
            self.zones[1].collect_in_range(range, found);
            self.zones[2].collect_in_range(range, found);
            self.zones[3].collect_in_range(range, found);
            proof {
                lemma_inside_concat(s0, s1, *range);
                lemma_inside_concat(s0 + s1, s2, *range);
                lemma_inside_concat(s0 + s1 + s2, s3, *range);
                assert(found@ =~= old(found)@ + inside(s0 + s1 + s2 + s3, *range));
            }
        }
    }
}

/// A candidate for the nearest neighbour of `p`: a point other than `p`,
/// with its exact squared distance from `p`.
pub open spec fn is_candidate(best: Option<(Point, u128)>, p: Point) -> bool {
    best matches Some(b) ==> b.0 != p && b.1 == p.spec_gap_squared(&b.0)
}

/// `q` is one of `points`, differs from `p`, and no point of `points` that
/// differs from `p` is nearer to `p`.
pub open spec fn is_nearest(points: Seq<Point>, p: Point, q: Point) -> bool {
    &&& points.contains(q)
    &&& q != p
    &&& forall|i: int|
        0 <= i < points.len() && points[i] != p ==> p.spec_gap_squared(&q) <= p.spec_gap_squared(&#[trigger] points[i])
}

/// `after` is the best candidate once `points` have been looked at,
/// starting from the candidate `before`.
pub open spec fn improves(
    points: Seq<Point>,
    p: Point,
    before: Option<(Point, u128)>,
    after: Option<(Point, u128)>,
) -> bool {
    &&& is_candidate(after, p)
    &&& match after {
        None => before is None && forall|i: int| 0 <= i < points.len() ==> #[trigger] points[i] == p,
        Some(a) => {
            &&& before == after || points.contains(a.0)
            &&& before matches Some(b) ==> a.1 <= b.1
            &&& forall|i: int|
                0 <= i < points.len() && points[i] != p ==> a.1 <= p.spec_gap_squared(&#[trigger] points[i])
        },
    }
}

/// Looking at two sequences of points one after the other is looking at
/// their concatenation.
pub proof fn lemma_improves_concat(
    a: Seq<Point>,
    b: Seq<Point>,
    p: Point,
    start: Option<(Point, u128)>,
    mid: Option<(Point, u128)>,
    end: Option<(Point, u128)>,
)
    requires
        improves(a, p, start, mid),
        improves(b, p, mid, end),
    ensures
        improves(a + b, p, start, end),
{
    let all = a + b;
    assert forall|i: int| 0 <= i < all.len() implies (end is None ==> #[trigger] all[i] == p) && (
    end matches Some(e) ==> all[i] != p ==> e.1 <= p.spec_gap_squared(&all[i])) by {
        if i < a.len() {
            assert(all[i] == a[i]);
        } else {
            assert(all[i] == b[i - a.len()]);
        }
    }
    if end is Some {
        let e = end->0;
        if b.contains(e.0) {
            let j = choose|j: int| 0 <= j < b.len() && b[j] == e.0;
            assert(all[a.len() + j] == e.0);
        } else if mid != start {
            let m = mid->0;
            let j = choose|j: int| 0 <= j < a.len() && a[j] == m.0;
            assert(all[j] == m.0);
        }
    }
}

/// A point is in a concatenation exactly if it is in one of the two parts.
pub proof fn lemma_contains_concat(a: Seq<Point>, b: Seq<Point>, x: Point)
    ensures
        (a + b).contains(x) == (a.contains(x) || b.contains(x)),
{
    let all = a + b;
    if a.contains(x) {
        let j = choose|j: int| 0 <= j < a.len() && a[j] == x;
        assert(all[j] == x);
    }
    if b.contains(x) {
        let j = choose|j: int| 0 <= j < b.len() && b[j] == x;
        assert(all[a.len() + j] == x);
    }
    if all.contains(x) {
        let j = choose|j: int| 0 <= j < all.len() && all[j] == x;
        if j < a.len() {
            assert(a[j] == x);
        } else {
            assert(b[j - a.len()] == x);
        }
    }
}

/// The best candidate depends on which points were looked at, not on their
/// order.
pub proof fn lemma_improves_members(
    a: Seq<Point>,
    b: Seq<Point>,
    p: Point,
    start: Option<(Point, u128)>,
    end: Option<(Point, u128)>,
)
    requires
        improves(a, p, start, end),
        forall|x: Point| a.contains(x) == b.contains(x),
    ensures
        improves(b, p, start, end),
{
    assert forall|i: int| 0 <= i < b.len() implies (end is None ==> #[trigger] b[i] == p) && (
    end is Some ==> b[i] != p ==> (end->0).1 <= p.spec_gap_squared(&b[i])) by {
        assert(b.contains(b[i]));
        assert(a.contains(b[i]));
        let j = choose|j: int| 0 <= j < a.len() && a[j] == b[i];
        assert(a[j] == b[i]);
    }
}

/// The four indices in an order in which the distances do not decrease.
fn order_by_distance(d0: u128, d1: u128, d2: u128, d3: u128) -> (o: (usize, usize, usize, usize))
    ensures
        o.0 < 4 && o.1 < 4 && o.2 < 4 && o.3 < 4,
        o.0 != o.1 && o.0 != o.2 && o.0 != o.3 && o.1 != o.2 && o.1 != o.3 && o.2 != o.3,
        seq![d0, d1, d2, d3][o.0 as int] <= seq![d0, d1, d2, d3][o.1 as int],
        seq![d0, d1, d2, d3][o.1 as int] <= seq![d0, d1, d2, d3][o.2 as int],
        seq![d0, d1, d2, d3][o.2 as int] <= seq![d0, d1, d2, d3][o.3 as int],
{
    let mut a: (u128, usize) = (d0, 0);
    let mut b: (u128, usize) = (d1, 1);
    let mut c: (u128, usize) = (d2, 2);
    let mut d: (u128, usize) = (d3, 3);
    if a.0 > b.0 {
        let t = a;
        a = b;
        b = t;
    }
    if c.0 > d.0 {
        let t = c;
        c = d;
        d = t;
    }
    if a.0 > c.0 {
        let t = a;
        a = c;
        c = t;
    }
    if b.0 > d.0 {
        let t = b;
        b = d;
        d = t;
    }
    if b.0 > c.0 {
        let t = b;
        b = c;
        c = t;
    }
    (a.1, b.1, c.1, d.1)
}

impl QuadTree {
    /// A point of the tree nearest to `point` among those that do not lie
    /// exactly at `point`, or `None` if the tree holds no such point.
    pub fn find_nearest_neighbor(&self, point: &Point) -> (nearest: Option<Point>)
        requires
            self.well_formed(),
        ensures
            match nearest {
                Some(q) => is_nearest(self@.all_points(), *point, q),
                None => forall|i: int|
                    0 <= i < self@.all_points().len() ==> #[trigger] self@.all_points()[i] == *point,
            },
    {
        match self.nearest_onto(point, None) {
            Some(b) => Some(b.0),
            None => None,
        }
    }

    fn nearest_onto(&self, p: &Point, best: Option<(Point, u128)>) -> (r: Option<(Point, u128)>)
        requires
            self.well_formed(),
            is_candidate(best, *p),
        ensures
            improves(self@.all_points(), *p, best, r),
        decreases self, 1nat,
    {
        proof {
            self.lemma_view_zones();
        }
        if self.zones.len() == 0 {
            let mut r: Option<(Point, u128)> = best;
            let mut i: usize = 0;
            while i < self.elements.len()
                invariant
                    i <= self.elements.len(),
                    improves(self.elements@.take(i as int), *p, best, r),
                decreases self.elements.len() - i,
            {
                let q: Point = self.elements[i];
                let ghost seen = self.elements@.take(i as int);
                let ghost next = self.elements@.take(i + 1);
                let ghost before = r;
                if !(q.x.raw == p.x.raw && q.y.raw == p.y.raw) {
                    let d: u128 = p.gap_squared(&q);
                    let closer: bool = match r {
                        Some(b) => d < b.1,
                        None => true,
                    };
                    if closer {
                        r = Some((q, d));
                    }
                }
                proof {
                    assert(next =~= seen.push(q));
                    assert(next[i as int] == q);
                    assert forall|k: int| 0 <= k < next.len() implies (r is None ==> #[trigger] next[k]
                        == *p) && (r matches Some(a) ==> next[k] != *p ==> a.1
                        <= p.spec_gap_squared(&next[k])) by {
                        if k < i {
                            assert(next[k] == seen[k]);
                        }
                    }
                    if r is Some {
                        let a = r->0;
                        if r == before {
                            if seen.contains(a.0) {
                                let j = choose|j: int| 0 <= j < seen.len() && seen[j] == a.0;
                                assert(next[j] == a.0);
                            }
                        }
                    }
                }
                i += 1;
            }
            proof {
                assert(self.elements@.take(i as int) =~= self.elements@);
            }
            r
        } else {
            let (o0, o1, o2, o3) = order_by_distance(
                self.zones[0].area.gap_squared_to_point(p),
                self.zones[1].area.gap_squared_to_point(p),
                self.zones[2].area.gap_squared_to_point(p),
                self.zones[3].area.gap_squared_to_point(p),
            );
            let b0 = self.visit(o0, p, best);
            let b1 = self.visit(o1, p, b0);
            let b2 = self.visit(o2, p, b1);
            let b3 = self.visit(o3, p, b2);
            proof {
                let s0 = self@.zones[0].all_points();
                let s1 = self@.zones[1].all_points();
                let s2 = self@.zones[2].all_points();
                let s3 = self@.zones[3].all_points();
                let t0 = self@.zones[o0 as int].all_points();
                let t1 = self@.zones[o1 as int].all_points();
                let t2 = self@.zones[o2 as int].all_points();
                let t3 = self@.zones[o3 as int].all_points();
                lemma_improves_concat(t0, t1, *p, best, b0, b1);
                lemma_improves_concat(t0 + t1, t2, *p, best, b1, b2);
                lemma_improves_concat(t0 + t1 + t2, t3, *p, best, b2, b3);
                assert forall|x: Point|
                    (t0 + t1 + t2 + t3).contains(x) == (s0 + s1 + s2 + s3).contains(x) by {
                    lemma_contains_concat(t0, t1, x);
                    lemma_contains_concat(t0 + t1, t2, x);
                    lemma_contains_concat(t0 + t1 + t2, t3, x);
                    lemma_contains_concat(s0, s1, x);
                    lemma_contains_concat(s0 + s1, s2, x);
                    lemma_contains_concat(s0 + s1 + s2, s3, x);
                }
                lemma_improves_members(t0 + t1 + t2 + t3, s0 + s1 + s2 + s3, *p, best, b3);
            }
            b3
        }
    }

    /// Searches quarter `k`, unless no point of its rectangle can be nearer
    /// than the candidate.
    fn visit(&self, k: usize, p: &Point, best: Option<(Point, u128)>) -> (r: Option<(Point, u128)>)
        requires
            self.well_formed(),
            self.zones@.len() == 4,
            k < 4,
            is_candidate(best, *p),
        ensures
            improves(self@.zones[k as int].all_points(), *p, best, r),
        decreases self, 0nat,
    {
        proof {
            self.lemma_view_zones();
            assert(self@.zones[k as int].well_formed());
        }
        let zone: &QuadTree = &self.zones[k];
        let least: u128 = zone.area.gap_squared_to_point(p);
        let pruned: bool = match best {
            Some(b) => least >= b.1,
            None => false,
        };
        if pruned {
            proof {
                let points = zone@.all_points();
                zone@.lemma_points_in_area();
                assert forall|i: int| 0 <= i < points.len() implies least <= p.spec_gap_squared(&#[trigger] points[i]) by {
                    zone.area.lemma_distance_to_point_is_least(*p, points[i]);
                }
            }
            best
        } else {
            zone.nearest_onto(p, best)
        }
    }
}

} // verus!
