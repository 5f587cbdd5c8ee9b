//! What holds of every well-formed quadtree.
use crate::fixed::trunc_div;
use crate::geometry::{Point, Rectangle};
use crate::quadtree::{clamp_mass, inside, sum_x, sum_y, TreeView};
use vstd::multiset::Multiset;
use vstd::prelude::*;

verus! {

impl TreeView {
    /// The two trees differ at most in the cached mass and center of mass of
    /// their nodes.
    pub open spec fn same_points(self, other: TreeView) -> bool
        decreases self,
    {
        &&& self.same_cell(other)
        &&& self.elements == other.elements
        &&& self.zones.len() == other.zones.len()
        &&& forall|i: int|
            0 <= i < self.zones.len() ==> (#[trigger] self.zones[i]).same_points(other.zones[i])
    }

    /// Trees that differ only in their caches hold the same points, are
    /// well-formed together, and aggregate to the same masses and centers.
    pub proof fn lemma_same_points(self, other: TreeView)
        requires
            self.same_points(other),
        ensures
            self.count() == other.count(),
            self.all_points() == other.all_points(),
            self.points() == other.points(),
            self.total_mass() == other.total_mass(),
            self.center_of_mass() == other.center_of_mass(),
            self.well_formed() == other.well_formed(),
            self.aggregate() == other.aggregate(),
        decreases self,
    {
        self.lemma_count();
        other.lemma_count();
        assert forall|i: int| 0 <= i < self.zones.len() implies {
            &&& (#[trigger] self.zones[i]).count() == other.zones[i].count()
            &&& self.zones[i].all_points() == other.zones[i].all_points()
            &&& self.zones[i].total_mass() == other.zones[i].total_mass()
            &&& self.zones[i].center_of_mass() == other.zones[i].center_of_mass()
            &&& self.zones[i].well_formed() == other.zones[i].well_formed()
            &&& self.zones[i].aggregate() == other.zones[i].aggregate()
        } by {
            self.zones[i].lemma_same_points(other.zones[i]);
        }
        if self.zones.len() == 4 {
            assert(self.zones[0].count() == other.zones[0].count());
            assert(self.zones[1].count() == other.zones[1].count());
            assert(self.zones[2].count() == other.zones[2].count());
            assert(self.zones[3].count() == other.zones[3].count());
        }
        assert(self.aggregate().zones =~= other.aggregate().zones);
        if self.well_formed() {
            assert(other.well_formed()) by {
                assert forall|i: int| 0 <= i < other.zones.len() implies (#[trigger] other.zones[i]).well_formed() by {
                    assert(self.zones[i].well_formed());
                }
            }
        }
        if other.well_formed() {
            assert(self.well_formed()) by {
                assert forall|i: int| 0 <= i < self.zones.len() implies (#[trigger] self.zones[i]).well_formed() by {
                    assert(other.zones[i].well_formed());
                }
            }
        }
    }

    /// Aggregation changes nothing but the caches, and leaves every node
    /// with its mass and center of mass cached.
    pub proof fn lemma_aggregate(self)
        ensures
            self.same_points(self.aggregate()),
            self.aggregate().is_aggregated(),
        decreases self,
    {
        let a = self.aggregate();
        assert forall|i: int| 0 <= i < self.zones.len() implies {
            &&& (#[trigger] self.zones[i]).same_points(a.zones[i])
            &&& a.zones[i].is_aggregated()
        } by {
            self.zones[i].lemma_aggregate();
        }
        assert(self.same_points(a));
        self.lemma_same_points(a);
    }

    /// The stored points, with or without their order, are as many as
    /// `count` says.
    pub proof fn lemma_count(self)
        ensures
            self.points() == self.all_points().to_multiset(),
            self.points().len() == self.count(),
            self.all_points().len() == self.count(),
        decreases self,
    {
        broadcast use vstd::seq_lib::group_to_multiset_ensures;
        broadcast use vstd::multiset::group_multiset_axioms;

        if self.zones.len() == 4 {
            self.zones[0].lemma_count();
            self.zones[1].lemma_count();
            self.zones[2].lemma_count();
            self.zones[3].lemma_count();
            let a0 = self.zones[0].all_points();
            let a1 = self.zones[1].all_points();
            let a2 = self.zones[2].all_points();
            let a3 = self.zones[3].all_points();
            vstd::seq_lib::lemma_multiset_commutative(a0, a1);
            vstd::seq_lib::lemma_multiset_commutative(a0 + a1, a2);
            vstd::seq_lib::lemma_multiset_commutative(a0 + a1 + a2, a3);
        }
    }

    /// Insertion adds the point to the stored points if it lies in the
    /// rectangle of the tree, and changes nothing otherwise: no point is
    /// lost, none appears twice, none comes from elsewhere.
    pub proof fn lemma_insert_points(self, p: Point)
        requires
            self.well_formed(),
        ensures
            self.insert(p).points() == if self.area.contains(&p) {
                self.points().insert(p)
            } else {
                self.points()
            },
            self.insert(p).count() == self.count() + if self.area.contains(&p) {
                1nat
            } else {
                0nat
            },
    {
        self.lemma_insert_points_within(p, (self.max_depth - self.depth) as nat);
        self.lemma_count();
        self.insert(p).lemma_count();
    }

    proof fn lemma_insert_points_within(self, p: Point, levels: nat)
        requires
            self.well_formed(),
            levels == self.max_depth - self.depth,
        ensures
            self.insert_within(p, levels).points() == if self.area.contains(&p) {
                self.points().insert(p)
            } else {
                self.points()
            },
        decreases levels, 2nat, 0nat,
    {
        broadcast use vstd::seq_lib::group_to_multiset_ensures;
        broadcast use vstd::multiset::group_multiset_axioms;

        if !self.area.contains(&p) {
        } else if self.is_leaf() {
            if self.elements.len() + 1 >= self.threshold && self.can_split() {
                let s = self.split();
                let ps = self.elements.push(p);
                assert forall|i: int| 0 <= i < 4 implies (#[trigger] s.zones[i]).well_formed()
                    && s.zones[i] == self.child(i as usize) by {}
                assert(s.well_formed());
                assert forall|i: int| 0 <= i < ps.len() implies s.area.contains(&#[trigger] ps[i]) by {
                    if i < self.elements.len() {
                        assert(ps[i] == self.elements[i]);
                    }
                }
                s.lemma_place_all_points(ps, levels);
                assert(s.zones[0].points() =~= Multiset::empty());
                assert(s.zones[1].points() =~= Multiset::empty());
                assert(s.zones[2].points() =~= Multiset::empty());
                assert(s.zones[3].points() =~= Multiset::empty());
                assert(s.points() =~= Multiset::empty());
                assert(self.insert_within(p, levels).points() =~= self.points().insert(p));
            }
        } else {
            self.lemma_place_points(p, levels);
        }
    }

    proof fn lemma_place_points(self, p: Point, levels: nat)
        requires
            self.well_formed(),
            !self.is_leaf(),
            levels == self.max_depth - self.depth,
            self.area.contains(&p),
        ensures
            self.place_within(p, levels).points() == self.points().insert(p),
        decreases levels, 0nat, 0nat,
    {
        broadcast use vstd::multiset::group_multiset_axioms;

        self.area.lemma_quadrants_cover(p);
        let k = self.zone_of(p);
        assert(self.zones[0].area == self.area.quadrant(0));
        assert(self.zones[1].area == self.area.quadrant(1));
        assert(self.zones[2].area == self.area.quadrant(2));
        assert(self.zones[3].area == self.area.quadrant(3));
        assert(0 <= k < 4);
        let z = self.zones[k];
        assert(z.well_formed());
        z.lemma_insert_points_within(p, (levels - 1) as nat);
        let r = self.place_within(p, levels);
        assert(r.zones[k].points() == z.points().insert(p));
        assert(forall|i: int| 0 <= i < 4 && i != k ==> r.zones[i] == self.zones[i]);
        assert(r.points() =~= self.points().insert(p));
    }

    proof fn lemma_place_all_points(self, ps: Seq<Point>, levels: nat)
        requires
            self.well_formed(),
            !self.is_leaf(),
            levels == self.max_depth - self.depth,
            forall|i: int| 0 <= i < ps.len() ==> self.area.contains(&#[trigger] ps[i]),
        ensures
            self.place_all_within(ps, levels).points() == self.points().add(ps.to_multiset()),
        decreases levels, 1nat, ps.len(),
    {
        broadcast use vstd::seq_lib::group_to_multiset_ensures;
        broadcast use vstd::multiset::group_multiset_axioms;

        if ps.len() == 0 {
            assert(ps.to_multiset() =~= Multiset::empty());
            assert(self.points().add(ps.to_multiset()) =~= self.points());
        } else {
            let front = ps.drop_last();
            assert forall|i: int| 0 <= i < front.len() implies self.area.contains(&#[trigger] front[i]) by {
                assert(front[i] == ps[i]);
            }
            self.lemma_place_all_points(front, levels);
            self.lemma_place_all_within(front, levels);
            let mid = self.place_all_within(front, levels);
            assert(mid.area.contains(&ps.last()));
            mid.lemma_place_points(ps.last(), levels);
            assert(ps =~= front.push(ps.last()));
            assert(ps.to_multiset() =~= front.to_multiset().insert(ps.last()));
            assert(self.place_all_within(ps, levels).points() =~= self.points().add(ps.to_multiset()));
        }
    }

    /// Inserting a sequence of points keeps a tree well-formed and adds
    /// exactly those of them that lie in its rectangle.
    pub proof fn lemma_insert_all(self, ps: Seq<Point>)
        requires
            self.well_formed(),
        ensures
            self.insert_all(ps).well_formed(),
            self.insert_all(ps).same_cell(self),
            self.insert_all(ps).points() == self.points().add(inside(ps, self.area).to_multiset()),
            self.insert_all(ps).count() == self.count() + inside(ps, self.area).len(),
        decreases ps.len(),
    {
        broadcast use vstd::seq_lib::group_to_multiset_ensures;
        broadcast use vstd::multiset::group_multiset_axioms;

        if ps.len() == 0 {
            assert(inside(ps, self.area).to_multiset() =~= Multiset::empty());
            assert(self.points().add(inside(ps, self.area).to_multiset()) =~= self.points());
        } else {
            let front = ps.drop_last();
            self.lemma_insert_all(front);
            let mid = self.insert_all(front);
            mid.lemma_insert_well_formed(ps.last());
            mid.lemma_insert_points(ps.last());
            assert(self.insert_all(ps).points() =~= self.points().add(
                inside(ps, self.area).to_multiset(),
            ));
        }
    }
}

/// A tree built over a set of points and then aggregated holds at its root
/// the number of those points that lie in its rectangle as its mass, every
/// point counting one (as long as the mass cache can count that far).
pub proof fn lemma_mass_is_conserved(empty: TreeView, ps: Seq<Point>)
    requires
        empty.well_formed(),
        empty.count() == 0,
    ensures
        empty.insert_all(ps).aggregate().mass == clamp_mass(inside(ps, empty.area).len() as int),
        (forall|i: int| 0 <= i < ps.len() ==> empty.area.contains(&#[trigger] ps[i])) && ps.len()
            <= u64::MAX ==> empty.insert_all(ps).aggregate().mass == ps.len(),
{
    empty.lemma_insert_all(ps);
    if forall|i: int| 0 <= i < ps.len() ==> empty.area.contains(&#[trigger] ps[i]) {
        lemma_inside_all(ps, empty.area);
    }
}

/// The points picked from a sequence are points of that sequence, and not
/// more than it has.
pub proof fn lemma_inside_members(ps: Seq<Point>, area: Rectangle)
    ensures
        inside(ps, area).len() <= ps.len(),
        forall|x: Point| inside(ps, area).contains(x) ==> ps.contains(x),
    decreases ps.len(),
{
    if ps.len() > 0 {
        let front = ps.drop_last();
        lemma_inside_members(front, area);
        assert forall|x: Point| inside(ps, area).contains(x) implies ps.contains(x) by {
            let picked = inside(ps, area);
            let j = choose|j: int| 0 <= j < picked.len() && picked[j] == x;
            if area.contains(&ps.last()) && j == picked.len() - 1 {
                assert(ps[ps.len() - 1] == x);
            } else {
                assert(inside(front, area)[j] == x);
                assert(inside(front, area).contains(x));
                assert(front.contains(x));
                let k = choose|k: int| 0 <= k < front.len() && front[k] == x;
                assert(ps[k] == x);
            }
        }
    }
}

/// If every point lies in the rectangle, none is left out.
pub proof fn lemma_inside_all(ps: Seq<Point>, area: Rectangle)
    requires
        forall|i: int| 0 <= i < ps.len() ==> area.contains(&#[trigger] ps[i]),
    ensures
        inside(ps, area) == ps,
    decreases ps.len(),
{
    if ps.len() > 0 {
        let front = ps.drop_last();
        assert forall|i: int| 0 <= i < front.len() implies area.contains(&#[trigger] front[i]) by {
            assert(front[i] == ps[i]);
        }
        lemma_inside_all(front, area);
        assert(ps =~= front.push(ps.last()));
    }
}

impl TreeView {
    /// Every node of a well-formed tree is well-formed, and its rectangle
    /// lies within the rectangle of the root.
    pub proof fn lemma_node_within(self, path: Seq<int>)
        requires
            self.well_formed(),
            self.has_node(path),
        ensures
            self.node_at(path).well_formed(),
            self.node_at(path).area.within(&self.area),
        decreases path.len(),
    {
        if path.len() > 0 {
            let z = self.zones[path[0]];
            assert(z.well_formed());
            z.lemma_node_within(path.skip(1));
            self.area.lemma_quadrant_within(path[0] as usize);
        }
    }

    /// Containment: every point stored in a leaf of a well-formed tree lies
    /// within the rectangle of that leaf, and the rectangle of every quarter
    /// lies within the rectangle of the node it was cut from.
    pub proof fn lemma_containment(self, path: Seq<int>)
        requires
            self.well_formed(),
            self.has_node(path),
        ensures
            self.node_at(path).is_leaf() ==> forall|i: int|
                0 <= i < self.node_at(path).elements.len() ==> self.node_at(path).area.contains(
                    &#[trigger] self.node_at(path).elements[i],
                ),
            forall|k: int|
                0 <= k < self.node_at(path).zones.len() ==> (#[trigger] self.node_at(
                    path,
                ).zones[k]).area.within(&self.node_at(path).area),
    {
        self.lemma_node_within(path);
        let n = self.node_at(path);
        assert forall|k: int| 0 <= k < n.zones.len() implies (#[trigger] n.zones[k]).area.within(
            &n.area,
        ) by {
            n.area.lemma_quadrant_within(k as usize);
        }
    }

    /// The points below a node are among the points of the tree.
    pub proof fn lemma_node_points(self, path: Seq<int>, p: Point)
        requires
            self.well_formed(),
            self.has_node(path),
            self.node_at(path).points().count(p) > 0,
        ensures
            self.points().count(p) > 0,
        decreases path.len(),
    {
        broadcast use vstd::multiset::group_multiset_axioms;

        if path.len() > 0 {
            let z = self.zones[path[0]];
            assert(z.well_formed());
            z.lemma_node_points(path.skip(1), p);
        }
    }

    /// A node holds no more points than the tree it belongs to.
    pub proof fn lemma_node_count(self, path: Seq<int>)
        requires
            self.well_formed(),
            self.has_node(path),
        ensures
            self.node_at(path).count() <= self.count(),
        decreases path.len(),
    {
        if path.len() > 0 {
            let z = self.zones[path[0]];
            assert(z.well_formed());
            z.lemma_node_count(path.skip(1));
        }
    }

    /// Every node of an aggregated tree caches its mass and its center of
    /// mass.
    pub proof fn lemma_node_is_aggregated(self, path: Seq<int>)
        requires
            self.is_aggregated(),
            self.has_node(path),
        ensures
            self.node_at(path).is_aggregated(),
        decreases path.len(),
    {
        if path.len() > 0 {
            self.zones[path[0]].lemma_node_is_aggregated(path.skip(1));
        }
    }
}

/// A multiple of `m` divided by `m` gives the other factor back.
pub proof fn lemma_trunc_div_multiple(m: int, q: int)
    requires
        m > 0,
    ensures
        trunc_div(m * q, m) == q,
{
    if q >= 0 {
        assert(m * q >= 0 && (m * q) / m == q) by (nonlinear_arith)
            requires
                m > 0,
                q >= 0,
        ;
    } else {
        assert(m * q < 0 && (-(m * q)) / m == -q) by (nonlinear_arith)
            requires
                m > 0,
                q < 0,
        ;
    }
}

/// The coordinate sums of `n` copies of a point are `n` times its
/// coordinates.
pub proof fn lemma_sum_of_copies(ps: Seq<Point>, q: Point)
    requires
        forall|i: int| 0 <= i < ps.len() ==> #[trigger] ps[i] == q,
    ensures
        sum_x(ps) == ps.len() * q.x.raw,
        sum_y(ps) == ps.len() * q.y.raw,
    decreases ps.len(),
{
    if ps.len() > 0 {
        let front = ps.drop_last();
        assert forall|i: int| 0 <= i < front.len() implies #[trigger] front[i] == q by {
            assert(front[i] == ps[i]);
        }
        lemma_sum_of_copies(front, q);
        assert(ps.last() == q);
        assert(ps.len() * q.x.raw == front.len() * q.x.raw + q.x.raw) by (nonlinear_arith)
            requires
                ps.len() == front.len() + 1,
        ;
        assert(ps.len() * q.y.raw == front.len() * q.y.raw + q.y.raw) by (nonlinear_arith)
            requires
                ps.len() == front.len() + 1,
        ;
    } else {
        assert(ps.len() * q.x.raw == 0 && ps.len() * q.y.raw == 0) by (nonlinear_arith)
            requires
                ps.len() == 0,
        ;
    }
}

impl TreeView {
    /// If all the points of a tree lie at one position, the center of mass
    /// that aggregation gives it is exactly that position (for a tree that
    /// holds a point, and no more points than the mass cache can count).
    pub proof fn lemma_center_of_coincident_points(self, q: Point)
        requires
            self.well_formed(),
            0 < self.count() < u64::MAX,
            forall|p: Point| self.points().count(p) > 0 ==> p == q,
        ensures
            self.center_of_mass() == q,
        decreases self,
    {
        broadcast use vstd::seq_lib::group_to_multiset_ensures;
        broadcast use vstd::multiset::group_multiset_axioms;

        let m = self.total_mass() as int;
        if self.zones.len() == 4 {
            assert forall|i: int| 0 <= i < 4 implies (#[trigger] self.zones[i]).total_mass()
                * self.zones[i].center_of_mass().x.raw == self.zones[i].total_mass() * q.x.raw
                && self.zones[i].total_mass() * self.zones[i].center_of_mass().y.raw
                == self.zones[i].total_mass() * q.y.raw && self.zones[i].total_mass()
                == self.zones[i].count() by {
                let z = self.zones[i];
                assert(z.well_formed());
                if z.count() > 0 {
                    assert forall|p: Point| z.points().count(p) > 0 implies p == q by {
                        assert(self.points().count(p) > 0);
                    }
                    z.lemma_center_of_coincident_points(q);
                } else {
                    assert(z.total_mass() == 0);
                    assert(z.total_mass() * z.center_of_mass().x.raw == 0) by (nonlinear_arith)
                        requires
                            z.total_mass() == 0,
                    ;
                    assert(z.total_mass() * z.center_of_mass().y.raw == 0) by (nonlinear_arith)
                        requires
                            z.total_mass() == 0,
                    ;
                    assert(z.total_mass() * q.x.raw == 0) by (nonlinear_arith)
                        requires
                            z.total_mass() == 0,
                    ;
                    assert(z.total_mass() * q.y.raw == 0) by (nonlinear_arith)
                        requires
                            z.total_mass() == 0,
                    ;
                }
            }
            let m0 = self.zones[0].total_mass() as int;
            let m1 = self.zones[1].total_mass() as int;
            let m2 = self.zones[2].total_mass() as int;
            let m3 = self.zones[3].total_mass() as int;
            assert(m == m0 + m1 + m2 + m3);
            assert(m0 * q.x.raw + m1 * q.x.raw + m2 * q.x.raw + m3 * q.x.raw == m * q.x.raw)
                by (nonlinear_arith)
                requires
                    m == m0 + m1 + m2 + m3,
            ;
            assert(m0 * q.y.raw + m1 * q.y.raw + m2 * q.y.raw + m3 * q.y.raw == m * q.y.raw)
                by (nonlinear_arith)
                requires
                    m == m0 + m1 + m2 + m3,
            ;
            assert(self.moment_x() == m * q.x.raw);
            assert(self.moment_y() == m * q.y.raw);
        } else {
            assert forall|i: int| 0 <= i < self.elements.len() implies #[trigger] self.elements[i]
                == q by {
                assert(self.elements.contains(self.elements[i]));
                assert(self.elements.to_multiset().count(self.elements[i]) > 0);
                assert(self.points().count(self.elements[i]) > 0);
            }
            lemma_sum_of_copies(self.elements, q);
        }
        lemma_trunc_div_multiple(m, q.x.raw as int);
        lemma_trunc_div_multiple(m, q.y.raw as int);
    }

    /// In an aggregated tree whose points all lie at one position, every
    /// node that holds a point caches exactly that position as its center of
    /// mass.
    pub proof fn lemma_coincident_points_at_every_node(self, q: Point, path: Seq<int>)
        requires
            self.well_formed(),
            self.is_aggregated(),
            self.has_node(path),
            forall|p: Point| self.points().count(p) > 0 ==> p == q,
            0 < self.node_at(path).count() < u64::MAX,
        ensures
            self.node_at(path).cm == q,
    {
        let n = self.node_at(path);
        self.lemma_node_within(path);
        self.lemma_node_is_aggregated(path);
        assert forall|p: Point| n.points().count(p) > 0 implies p == q by {
            self.lemma_node_points(path, p);
        }
        n.lemma_center_of_coincident_points(q);
    }
}

/// A mean lies between the bounds of what it is the mean of: if the sum
/// `s` of `n` numbers lies between `n` times `lo` and `n` times `hi`, then
/// `s` over `n`, rounded toward zero, lies between `lo` and `hi`.
pub proof fn lemma_mean_between(s: int, n: int, lo: int, hi: int)
    requires
        n > 0,
        n * lo <= s <= n * hi,
    ensures
        lo <= trunc_div(s, n) <= hi,
{
    if s >= 0 {
        assert(lo <= s / n <= hi) by (nonlinear_arith)
            requires
                n > 0,
                s >= 0,
                n * lo <= s <= n * hi,
        ;
    } else {
        assert(-hi <= (-s) / n <= -lo) by (nonlinear_arith)
            requires
                n > 0,
                s < 0,
                n * lo <= s <= n * hi,
        ;
    }
}

/// The coordinate sums of points of a rectangle lie between the
/// corresponding multiples of the coordinates of its corners.
pub proof fn lemma_sum_between(ps: Seq<Point>, area: Rectangle)
    requires
        forall|i: int| 0 <= i < ps.len() ==> area.contains(&#[trigger] ps[i]),
    ensures
        ps.len() * area.p1.x.raw <= sum_x(ps) <= ps.len() * area.p2.x.raw,
        ps.len() * area.p1.y.raw <= sum_y(ps) <= ps.len() * area.p2.y.raw,
    decreases ps.len(),
{
    let n = ps.len() as int;
    if n > 0 {
        let front = ps.drop_last();
        assert forall|i: int| 0 <= i < front.len() implies area.contains(&#[trigger] front[i]) by {
            assert(front[i] == ps[i]);
        }
        lemma_sum_between(front, area);
        assert(area.contains(&ps[n - 1]));
        lemma_one_more(n, area.p1.x.raw as int);
        lemma_one_more(n, area.p2.x.raw as int);
        lemma_one_more(n, area.p1.y.raw as int);
        lemma_one_more(n, area.p2.y.raw as int);
    } else {
        lemma_one_more(n, area.p1.x.raw as int);
        lemma_one_more(n, area.p2.x.raw as int);
        lemma_one_more(n, area.p1.y.raw as int);
        lemma_one_more(n, area.p2.y.raw as int);
    }
}

/// `n` times `c` is one `c` more than `n - 1` times `c`, and nothing for
/// `n` zero.
proof fn lemma_one_more(n: int, c: int)
    ensures
        n * c == (n - 1) * c + c,
        n == 0 ==> n * c == 0,
{
    assert(n * c == (n - 1) * c + c) by (nonlinear_arith);
    assert(n == 0 ==> n * c == 0) by (nonlinear_arith);
}

/// Multiplication distributes over a sum of four.
proof fn lemma_four_multiples(m0: int, m1: int, m2: int, m3: int, c: int)
    ensures
        m0 * c + m1 * c + m2 * c + m3 * c == (m0 + m1 + m2 + m3) * c,
{
    assert(m0 * c + m1 * c + m2 * c + m3 * c == (m0 + m1 + m2 + m3) * c) by (nonlinear_arith);
}

/// A mass times a coordinate between two bounds lies between the mass times
/// the bounds.
pub proof fn lemma_weighted_between(m: int, c: int, lo: int, hi: int)
    requires
        m >= 0,
        m > 0 ==> lo <= c <= hi,
    ensures
        m * lo <= m * c <= m * hi,
{
    assert(m * lo <= m * c <= m * hi) by (nonlinear_arith)
        requires
            m >= 0,
            m > 0 ==> lo <= c <= hi,
    ;
}

impl TreeView {
    /// The center of mass that aggregation gives a node lies in the
    /// rectangle of the node.
    pub proof fn lemma_center_in_area(self)
        requires
            self.well_formed(),
            self.area.well_formed(),
        ensures
            self.area.contains(&self.center_of_mass()),
        decreases self,
    {
        let m = self.total_mass() as int;
        let lo = self.area.p1;
        let hi = self.area.p2;
        if m == 0 || m == u64::MAX {
        } else if self.zones.len() == 4 {
            assert forall|i: int| 0 <= i < 4 implies {
                &&& (#[trigger] self.zones[i]).total_mass() == self.zones[i].count()
                &&& self.zones[i].total_mass() * lo.x.raw <= self.zones[i].total_mass()
                    * self.zones[i].center_of_mass().x.raw <= self.zones[i].total_mass() * hi.x.raw
                &&& self.zones[i].total_mass() * lo.y.raw <= self.zones[i].total_mass()
                    * self.zones[i].center_of_mass().y.raw <= self.zones[i].total_mass() * hi.y.raw
            } by {
                let z = self.zones[i];
                assert(z.well_formed());
                self.area.lemma_quadrant_within(i as usize);
                z.lemma_center_in_area();
                z.area.lemma_within_contains(self.area, z.center_of_mass());
                lemma_weighted_between(
                    z.total_mass() as int,
                    z.center_of_mass().x.raw as int,
                    lo.x.raw as int,
                    hi.x.raw as int,
                );
                lemma_weighted_between(
                    z.total_mass() as int,
                    z.center_of_mass().y.raw as int,
                    lo.y.raw as int,
                    hi.y.raw as int,
                );
            }
            let m0 = self.zones[0].total_mass() as int;
            let m1 = self.zones[1].total_mass() as int;
            let m2 = self.zones[2].total_mass() as int;
            let m3 = self.zones[3].total_mass() as int;
            assert(m == m0 + m1 + m2 + m3);
            lemma_four_multiples(m0, m1, m2, m3, lo.x.raw as int);
            lemma_four_multiples(m0, m1, m2, m3, hi.x.raw as int);
            lemma_four_multiples(m0, m1, m2, m3, lo.y.raw as int);
            lemma_four_multiples(m0, m1, m2, m3, hi.y.raw as int);
            lemma_mean_between(self.moment_x(), m, lo.x.raw as int, hi.x.raw as int);
            lemma_mean_between(self.moment_y(), m, lo.y.raw as int, hi.y.raw as int);
        } else {
            lemma_sum_between(self.elements, self.area);
            lemma_mean_between(sum_x(self.elements), m, lo.x.raw as int, hi.x.raw as int);
            lemma_mean_between(sum_y(self.elements), m, lo.y.raw as int, hi.y.raw as int);
        }
    }
}

} // verus!
