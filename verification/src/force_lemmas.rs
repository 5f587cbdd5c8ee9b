//! What holds of the force evaluation.
use crate::barnes_hut::{
    direct_sum, pull, softened, spec_accel_toward_point, spec_inter_point_force,
};
use crate::fixed::{
    abs_int, floor_sqrt, is_floor_sqrt, lemma_floor_sqrt_exists, lemma_hypot_bounds, lemma_quotient_sign,
    lemma_trunc_div_accuracy, sat, trunc_div, Fixed, ONE_RAW,
};
use crate::geometry::Point;
use crate::quadtree::TreeView;
use vstd::prelude::*;

verus! {

/// An attraction of a strength that is not negative pulls along the
/// separation: each component has the sign of the separation along it, or is
/// zero.
pub proof fn lemma_pull_follows_separation(k: Fixed, d: Fixed, n: int)
    requires
        k.raw >= 0,
    ensures
        d.raw >= 0 ==> pull(k, d, n).raw >= 0,
        d.raw <= 0 ==> pull(k, d, n).raw <= 0,
{
    let p = k.raw * d.raw;
    assert((d.raw >= 0 ==> p >= 0) && (d.raw <= 0 ==> p <= 0)) by (nonlinear_arith)
        requires
            k.raw >= 0,
            p == k.raw * d.raw,
    ;
    if n > 0 {
        lemma_floor_sqrt_exists(n as nat);
        let r = floor_sqrt(n);
        assert(r > 0) by (nonlinear_arith)
            requires
                0 <= r,
                n < (r + 1) * (r + 1),
                n > 0,
        ;
        lemma_trunc_div_accuracy(p, r);
        let q = sat(trunc_div(p, r));
        lemma_trunc_div_accuracy(q * ONE_RAW * ONE_RAW, n);
    }
}

/// The attraction follows the inverse-square law up to rounding. At a
/// positive distance, and as long as neither quotient is clamped, the
/// strength times the separation over the distance, `q`, is off by less than
/// one unit, and so is the pull, which is `q` over the exact square of the
/// distance: nothing else is lost.
pub proof fn lemma_pull_accuracy(k: Fixed, d: Fixed, n: int)
    requires
        n > 0,
        abs_int(trunc_div(k.raw * d.raw, floor_sqrt(n))) <= i64::MAX,
        abs_int(pull(k, d, n).raw as int) < i64::MAX,
    ensures
        is_floor_sqrt(n, floor_sqrt(n)),
        floor_sqrt(n) > 0,
        ({
            let r = floor_sqrt(n);
            let q = trunc_div(k.raw * d.raw, r);
            let f = pull(k, d, n).raw as int;
            &&& abs_int(q) * r <= abs_int(k.raw * d.raw) < (abs_int(q) + 1) * r
            &&& abs_int(f) * n <= abs_int(q * ONE_RAW * ONE_RAW) < (abs_int(f) + 1) * n
        }),
{
    lemma_floor_sqrt_exists(n as nat);
    let r = floor_sqrt(n);
    assert(r > 0) by (nonlinear_arith)
        requires
            0 <= r,
            n < (r + 1) * (r + 1),
            n > 0,
    ;
    let q = trunc_div(k.raw * d.raw, r);
    lemma_trunc_div_accuracy(k.raw * d.raw, r);
    lemma_trunc_div_accuracy(q * ONE_RAW * ONE_RAW, n);
}

/// The attraction is odd in the separation: turning the separation round
/// turns the pull round and leaves its size as it is (as long as neither
/// quotient is clamped).
pub proof fn lemma_pull_is_odd(k: Fixed, d: Fixed, n: int)
    requires
        d.raw > i64::MIN,
        n > 0,
        abs_int(trunc_div(k.raw * d.raw, floor_sqrt(n))) <= i64::MAX,
        abs_int(pull(k, d, n).raw as int) < i64::MAX,
    ensures
        pull(k, d.negated(), n).raw == -pull(k, d, n).raw,
{
    let p = k.raw * d.raw;
    let r = floor_sqrt(n);
    assert(k.raw * (-d.raw) == -p) by (nonlinear_arith)
        requires
            p == k.raw * d.raw,
    ;
    let q = trunc_div(p, r);
    assert(trunc_div(-p, r) == -q);
    assert((-q) * ONE_RAW * ONE_RAW == -(q * ONE_RAW * ONE_RAW));
    assert(trunc_div(-(q * ONE_RAW * ONE_RAW), n) == -trunc_div(q * ONE_RAW * ONE_RAW, n));
}

/// Two points pull on each other with equal and opposite forces (as long
/// as their separation is in range and no quotient is clamped).
pub proof fn lemma_forces_are_opposite(p: Point, q: Point, g: Fixed, eps2: Fixed)
    requires
        -i64::MAX <= q.x.raw - p.x.raw <= i64::MAX,
        -i64::MAX <= q.y.raw - p.y.raw <= i64::MAX,
        softened(q.x - p.x, q.y - p.y, eps2) > 0,
        abs_int(
            trunc_div(g.raw * (q.x - p.x).raw, floor_sqrt(softened(q.x - p.x, q.y - p.y, eps2))),
        ) <= i64::MAX,
        abs_int(
            trunc_div(g.raw * (q.y - p.y).raw, floor_sqrt(softened(q.x - p.x, q.y - p.y, eps2))),
        ) <= i64::MAX,
        abs_int(spec_inter_point_force(p, q, g, eps2).x.raw as int) < i64::MAX,
        abs_int(spec_inter_point_force(p, q, g, eps2).y.raw as int) < i64::MAX,
    ensures
        spec_inter_point_force(q, p, g, eps2).x.raw == -spec_inter_point_force(p, q, g, eps2).x.raw,
        spec_inter_point_force(q, p, g, eps2).y.raw == -spec_inter_point_force(p, q, g, eps2).y.raw,
{
    let dx = q.x - p.x;
    let dy = q.y - p.y;
    let n = softened(dx, dy, eps2);
    assert(p.x - q.x == dx.negated() && p.y - q.y == dy.negated());
    assert(softened(dx.negated(), dy.negated(), eps2) == n) by (nonlinear_arith)
        requires
            dx.negated().raw == -dx.raw,
            dy.negated().raw == -dy.raw,
            n == softened(dx, dy, eps2),
    {
    }
    lemma_pull_is_odd(g, dx, n);
    lemma_pull_is_odd(g, dy, n);
}

/// The acceleration toward the attractor is directed toward it: with a
/// strength that is not negative, no component of it points away from the
/// center.
pub proof fn lemma_accel_is_toward_center(pos: Point, center: Point, gm: Fixed, eps2: Fixed)
    requires
        gm.raw >= 0,
    ensures
        center.x.raw >= pos.x.raw ==> spec_accel_toward_point(pos, center, gm, eps2).x.raw >= 0,
        center.x.raw <= pos.x.raw ==> spec_accel_toward_point(pos, center, gm, eps2).x.raw <= 0,
        center.y.raw >= pos.y.raw ==> spec_accel_toward_point(pos, center, gm, eps2).y.raw >= 0,
        center.y.raw <= pos.y.raw ==> spec_accel_toward_point(pos, center, gm, eps2).y.raw <= 0,
{
    let dx = center.x - pos.x;
    let dy = center.y - pos.y;
    let n = softened(dx, dy, eps2);
    lemma_pull_follows_separation(gm, dx, n);
    lemma_pull_follows_separation(gm, dy, n);
}

/// The force of a point on another is directed toward it: with a
/// gravitational constant that is not negative, no component of the force
/// on `p` points away from `q`.
pub proof fn lemma_force_is_attractive(p: Point, q: Point, g: Fixed, eps2: Fixed)
    requires
        g.raw >= 0,
    ensures
        q.x.raw >= p.x.raw ==> spec_inter_point_force(p, q, g, eps2).x.raw >= 0,
        q.x.raw <= p.x.raw ==> spec_inter_point_force(p, q, g, eps2).x.raw <= 0,
        q.y.raw >= p.y.raw ==> spec_inter_point_force(p, q, g, eps2).y.raw >= 0,
        q.y.raw <= p.y.raw ==> spec_inter_point_force(p, q, g, eps2).y.raw <= 0,
{
    let dx = q.x - p.x;
    let dy = q.y - p.y;
    let r2 = softened(dx, dy, eps2);
    lemma_pull_follows_separation(g, dx, r2);
    lemma_pull_follows_separation(g, dy, r2);
}

/// Summing the forces of two sequences of points one after the other is
/// summing the forces of their concatenation.
pub proof fn lemma_direct_sum_concat(
    a: Seq<Point>,
    b: Seq<Point>,
    p: Point,
    g: Fixed,
    eps2: Fixed,
    acc: Point,
)
    ensures
        direct_sum(a + b, p, g, eps2, acc) == direct_sum(b, p, g, eps2, direct_sum(a, p, g, eps2, acc)),
    decreases b.len(),
{
    if b.len() == 0 {
        assert(a + b =~= a);
    } else {
        lemma_direct_sum_concat(a, b.drop_last(), p, g, eps2, acc);
        assert((a + b).drop_last() =~= a + b.drop_last());
        assert((a + b).last() == b.last());
    }
}

impl TreeView {
    /// The walk of the force evaluation from this node never meets a node
    /// that is far from `p`: every node with quarters on its way is empty
    /// or opened.
    pub open spec fn opens_all(self, p: Point, theta: Fixed) -> bool
        decreases self,
    {
        self.zones.len() != 4 || self.mass == 0 || (!self.is_far(p, theta) && forall|i: int|
            0 <= i < 4 ==> (#[trigger] self.zones[i]).opens_all(p, theta))
    }

    /// A node that is far under one opening angle is far under every larger
    /// one: lowering the angle can only open more nodes.
    pub proof fn lemma_far_is_monotone(self, p: Point, small: Fixed, large: Fixed)
        requires
            small.raw <= large.raw,
            self.is_far(p, small),
        ensures
            self.is_far(p, large),
    {
    }

    /// A walk that opens every node under one opening angle opens every node
    /// under every smaller one.
    pub proof fn lemma_opens_all_is_monotone(self, p: Point, small: Fixed, large: Fixed)
        requires
            small.raw <= large.raw,
            self.opens_all(p, large),
        ensures
            self.opens_all(p, small),
        decreases self,
    {
        if self.zones.len() == 4 && self.mass != 0 {
            assert forall|i: int| 0 <= i < 4 implies (#[trigger] self.zones[i]).opens_all(p, small) by {
                self.zones[i].lemma_opens_all_is_monotone(p, small, large);
            }
        }
    }

    /// With an opening angle that is not positive no node is far from any
    /// point.
    pub proof fn lemma_never_far(self, p: Point, theta: Fixed)
        requires
            theta.raw <= 0,
        ensures
            !self.is_far(p, theta),
            self.opens_all(p, theta),
        decreases self,
    {
        let r = Fixed::spec_hypot(self.cm.x - p.x, self.cm.y - p.y);
        lemma_hypot_bounds((self.cm.x - p.x).raw as int, (self.cm.y - p.y).raw as int);
        lemma_quotient_sign(self.extent(), r);
        if self.zones.len() == 4 {
            assert forall|i: int| 0 <= i < 4 implies (#[trigger] self.zones[i]).opens_all(p, theta) by {
                self.zones[i].lemma_never_far(p, theta);
            }
        }
    }

    /// Where the walk meets no far node the tree evaluation is exact: on an
    /// aggregated tree it gives the sum, point by point, of the forces of
    /// all the points that the tree holds.
    pub proof fn lemma_exact_when_all_opened(
        self,
        p: Point,
        theta: Fixed,
        g: Fixed,
        eps2: Fixed,
        acc: Point,
    )
        requires
            self.is_aggregated(),
            self.opens_all(p, theta),
        ensures
            self.force_onto(p, theta, g, eps2, acc) == direct_sum(
                self.all_points(),
                p,
                g,
                eps2,
                acc,
            ),
        decreases self,
    {
        if self.zones.len() == 4 {
            if self.mass == 0 {
                self.lemma_count();
                assert(self.all_points() =~= Seq::empty());
            } else {
                let a0 = self.zones[0].force_onto(p, theta, g, eps2, acc);
                let a1 = self.zones[1].force_onto(p, theta, g, eps2, a0);
                let a2 = self.zones[2].force_onto(p, theta, g, eps2, a1);
                self.zones[0].lemma_exact_when_all_opened(p, theta, g, eps2, acc);
                self.zones[1].lemma_exact_when_all_opened(p, theta, g, eps2, a0);
                self.zones[2].lemma_exact_when_all_opened(p, theta, g, eps2, a1);
                self.zones[3].lemma_exact_when_all_opened(p, theta, g, eps2, a2);
                let s0 = self.zones[0].all_points();
                let s1 = self.zones[1].all_points();
                let s2 = self.zones[2].all_points();
                let s3 = self.zones[3].all_points();
                lemma_direct_sum_concat(s0, s1, p, g, eps2, acc);
                lemma_direct_sum_concat(s0 + s1, s2, p, g, eps2, acc);
                lemma_direct_sum_concat(s0 + s1 + s2, s3, p, g, eps2, acc);
            }
        }
    }

    /// An opening angle of zero makes the tree evaluation exact, and every
    /// smaller opening angle opens whatever a larger one opens: as the angle
    /// goes down to zero, the evaluation of an aggregated tree turns, node
    /// by node, into the sum over all its points.
    pub proof fn lemma_zero_angle_is_exact(
        self,
        p: Point,
        theta: Fixed,
        g: Fixed,
        eps2: Fixed,
    )
        requires
            theta.raw <= 0,
            self.is_aggregated(),
        ensures
            self.force(p, theta, g, eps2) == direct_sum(
                self.all_points(),
                p,
                g,
                eps2,
                Point { x: Fixed { raw: 0 }, y: Fixed { raw: 0 } },
            ),
    {
        self.lemma_never_far(p, theta);
        self.lemma_exact_when_all_opened(
            p,
            theta,
            g,
            eps2,
            Point { x: Fixed { raw: 0 }, y: Fixed { raw: 0 } },
        );
    }
}

} // verus!
