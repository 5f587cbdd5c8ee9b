//! Approximate gravity over a quadtree, contact collisions, and the
//! integration step.
use crate::collision_lemmas::{lemma_step_keeps_masses, same_masses};
pub use crate::draw::{world_to_screen, Camera};
use crate::fixed::{
    abs_int, ceil_sqrt, floor_sqrt, is_floor_sqrt, isqrt, lemma_hypot_bounds, lemma_scaled,
    lemma_scaled_to_cap, lemma_trunc_div_accuracy, magnitude_of, sat, soft_square, soft_square_of,
    square_sum, square_sum_of, trunc_div, Fixed, ONE_RAW,
};
use crate::geometry::{Point, Rectangle};
use crate::quadtree::{
    clamp_mass, inside, QuadTree, TreeView, DEFAULT_MAX_DEPTH, DEFAULT_THRESHOLD,
};
use crate::tree_lemmas::lemma_inside_members;
use crate::vector::{Particle, Vector};
use core::ops::Neg;
use vstd::prelude::*;

verus! {

/// The exact softened square of the separation `(dx, dy)`: the sum of the
/// squares of its raw components plus the softening `eps2`, formed without
/// rounding or clamping, in the unit of a product of two raw values.
pub open spec fn softened(dx: Fixed, dy: Fixed, eps2: Fixed) -> int {
    soft_square(dx.raw as int, dy.raw as int, eps2.raw as int)
}

/// One component of a softened inverse-square attraction: strength `k`
/// times the separation `d` along the component, over the cube of the
/// softened distance whose exact square is `n`. The quotient is taken in two
/// steps, first by the distance and then by its square, each rounded toward
/// zero; only a quotient that is itself out of range is clamped. At distance
/// zero the result is the extreme value of the sign of `k` times `d`.
pub open spec fn pull(k: Fixed, d: Fixed, n: int) -> Fixed {
    let p = k.raw * d.raw;
    if n <= 0 {
        if p > 0 {
            Fixed { raw: i64::MAX }
        } else if p < 0 {
            Fixed { raw: i64::MIN }
        } else {
            Fixed { raw: 0 }
        }
    } else {
        let q = sat(trunc_div(p, floor_sqrt(n)));
        Fixed { raw: sat(trunc_div(q * ONE_RAW * ONE_RAW, n)) as i64 }
    }
}

/// Force that a unit mass at `q` exerts on a unit mass at `p`.
pub open spec fn spec_inter_point_force(p: Point, q: Point, g: Fixed, eps2: Fixed) -> Point {
    let dx = q.x - p.x;
    let dy = q.y - p.y;
    let r2 = softened(dx, dy, eps2);
    Point { x: pull(g, dx, r2), y: pull(g, dy, r2) }
}

/// Force that the mass `mass` at `cm` exerts on a unit mass at `p`.
pub open spec fn spec_force_point_to_mass(
    p: Point,
    cm: Point,
    mass: Fixed,
    g: Fixed,
    eps2: Fixed,
) -> Point {
    let dx = cm.x - p.x;
    let dy = cm.y - p.y;
    let r2 = softened(dx, dy, eps2);
    Point { x: pull(g * mass, dx, r2), y: pull(g * mass, dy, r2) }
}

/// Acceleration at `pos` toward a fixed attractor at `center` whose mass
/// times the gravitational constant is `gm`.
pub open spec fn spec_accel_toward_point(pos: Point, center: Point, gm: Fixed, eps2: Fixed) -> Vector {
    let dx = center.x - pos.x;
    let dy = center.y - pos.y;
    let r2 = softened(dx, dy, eps2);
    Vector { x: pull(gm, dx, r2), y: pull(gm, dy, r2) }
}

/// `acc` plus the force on `p` from each point of `qs` in turn. A point at
/// the very position of `p` exerts none.
pub open spec fn direct_sum(qs: Seq<Point>, p: Point, g: Fixed, eps2: Fixed, acc: Point) -> Point
    decreases qs.len(),
{
    if qs.len() == 0 {
        acc
    } else {
        let before = direct_sum(qs.drop_last(), p, g, eps2, acc);
        if qs.last() == p {
            before
        } else {
            before.spec_add(&spec_inter_point_force(p, qs.last(), g, eps2))
        }
    }
}

impl TreeView {
    /// The larger of the width and the height of the node.
    pub open spec fn extent(self) -> Fixed {
        let size = self.area.size();
        if size.x.raw >= size.y.raw {
            size.x
        } else {
            size.y
        }
    }

    /// The opening-angle test: `p` lies outside the node, and the extent of
    /// the node over the distance from `p` to the cached center of mass is
    /// below `theta`.
    pub open spec fn is_far(self, p: Point, theta: Fixed) -> bool {
        let r = Fixed::spec_hypot(self.cm.x - p.x, self.cm.y - p.y);
        !self.area.contains(&p) && (self.extent() / r).raw < theta.raw
    }

    /// `acc` plus the force on `p` from the node. A leaf adds the force of
    /// each of its points. A node with quarters adds nothing if its cached
    /// mass is zero, the force of its cached mass at its cached center of
    /// mass if it is far from `p`, and otherwise what its quarters add, one
    /// after the other.
    pub open spec fn force_onto(self, p: Point, theta: Fixed, g: Fixed, eps2: Fixed, acc: Point) -> Point
        decreases self,
    {
        if self.zones.len() != 4 {
            direct_sum(self.elements, p, g, eps2, acc)
        } else if self.mass == 0 {
            acc
        } else if self.is_far(p, theta) {
            acc.spec_add(&spec_force_point_to_mass(p, self.cm, Fixed::of_int(self.mass as int), g, eps2))
        } else {
            let a0 = self.zones[0].force_onto(p, theta, g, eps2, acc);
            let a1 = self.zones[1].force_onto(p, theta, g, eps2, a0);
            let a2 = self.zones[2].force_onto(p, theta, g, eps2, a1);
            self.zones[3].force_onto(p, theta, g, eps2, a2)
        }
    }

    /// The force on a unit mass at `p` from all the mass of the tree.
    pub open spec fn force(self, p: Point, theta: Fixed, g: Fixed, eps2: Fixed) -> Point {
        self.force_onto(p, theta, g, eps2, Point { x: Fixed { raw: 0 }, y: Fixed { raw: 0 } })
    }
}

/// One component of the attraction of strength `k` along `d`, at the
/// softened distance `r` whose exact square is `n`.
fn pull_of(k: Fixed, d: Fixed, n: u128, r: u128) -> (f: Fixed)
    requires
        is_floor_sqrt(n as int, r as int),
        r == floor_sqrt(n as int),
        r < 0x1_0000_0000_0000_0000,
    ensures
        f == pull(k, d, n as int),
{
    let a: i128 = k.raw as i128;
    let b: i128 = d.raw as i128;
    assert(-0x4000_0000_0000_0000_0000_0000_0000_0000 <= a * b
        <= 0x4000_0000_0000_0000_0000_0000_0000_0000) by (nonlinear_arith)
        requires
            -0x8000_0000_0000_0000 <= a <= 0x8000_0000_0000_0000,
            -0x8000_0000_0000_0000 <= b <= 0x8000_0000_0000_0000,
    ;
    let p: i128 = a * b;
    if n == 0 {
        if p > 0 {
            Fixed::from_raw(i64::MAX)
        } else if p < 0 {
            Fixed::from_raw(i64::MIN)
        } else {
            Fixed::zero()
        }
    } else {
        assert(r > 0) by (nonlinear_arith)
            requires
                n < (r + 1) * (r + 1),
                n > 0,
        ;
        let q: Fixed = Fixed::from_wide(p / (r as i128));
        let qm: u128 = magnitude_of(q.raw);
        let quot: u128 = (qm * 0x1_0000_0000_0000_0000) / n;
        assert(q.raw * ONE_RAW * ONE_RAW == q.raw * 0x1_0000_0000_0000_0000);
        if q.raw >= 0 {
            if quot > i64::MAX as u128 {
                Fixed::from_raw(i64::MAX)
            } else {
                Fixed::from_raw(quot as i64)
            }
        } else {
            if quot > 0x8000_0000_0000_0000 {
                Fixed::from_raw(i64::MIN)
            } else {
                Fixed::from_raw((-(quot as i128)) as i64)
            }
        }
    }
}

/// The two components of an attraction of strength `k` along `(dx, dy)`.
fn attraction(k: Fixed, dx: Fixed, dy: Fixed, eps2: Fixed) -> (r: (Fixed, Fixed))
    ensures
        r.0 == pull(k, dx, softened(dx, dy, eps2)),
        r.1 == pull(k, dy, softened(dx, dy, eps2)),
{
    let n: u128 = soft_square_of(dx, dy, eps2);
    let root: u128 = isqrt(n);
    (pull_of(k, dx, n, root), pull_of(k, dy, n, root))
}

#[verifier::when_used_as_spec(spec_inter_point_force)]
pub fn inter_point_force(p: Point, q: Point, g: Fixed, eps2: Fixed) -> (force: Point)
    ensures
        force == spec_inter_point_force(p, q, g, eps2),
{
    let dx: Fixed = q.x - p.x;
    let dy: Fixed = q.y - p.y;
    let (fx, fy) = attraction(g, dx, dy, eps2);
    Point { x: fx, y: fy }
}

#[verifier::when_used_as_spec(spec_force_point_to_mass)]
pub fn force_point_to_mass(p: Point, cm: Point, mass: Fixed, g: Fixed, eps2: Fixed) -> (force: Point)
    ensures
        force == spec_force_point_to_mass(p, cm, mass, g, eps2),
{
    let dx: Fixed = cm.x - p.x;
    let dy: Fixed = cm.y - p.y;
    let (fx, fy) = attraction(g * mass, dx, dy, eps2);
    Point { x: fx, y: fy }
}

#[verifier::when_used_as_spec(spec_accel_toward_point)]
pub fn accel_toward_point(pos: Point, center: Point, gm: Fixed, eps2: Fixed) -> (accel: Vector)
    ensures
        accel == spec_accel_toward_point(pos, center, gm, eps2),
{
    let dx: Fixed = center.x - pos.x;
    let dy: Fixed = center.y - pos.y;
    let (ax, ay) = attraction(gm, dx, dy, eps2);
    Vector { x: ax, y: ay }
}

/// The force on a unit mass at `p` from unit masses at `others`, summed one
/// by one: the exact evaluation that [`tree_force`] approximates.
pub fn direct_force(p: Point, others: &Vec<Point>, g: Fixed, eps2: Fixed) -> (force: Point)
    ensures
        force == direct_sum(others@, p, g, eps2, Point { x: Fixed { raw: 0 }, y: Fixed { raw: 0 } }),
{
    direct_force_onto(p, others, g, eps2, Point::zero())
}

fn direct_force_onto(p: Point, others: &Vec<Point>, g: Fixed, eps2: Fixed, acc: Point) -> (force: Point)
    ensures
        force == direct_sum(others@, p, g, eps2, acc),
{
    let mut force: Point = acc;
    let mut i: usize = 0;
    while i < others.len()
        invariant
            i <= others.len(),
            force == direct_sum(others@.take(i as int), p, g, eps2, acc),
        decreases others.len() - i,
    {
        proof {
            assert(others@.take(i + 1).drop_last() =~= others@.take(i as int));
        }
        let q: Point = others[i];
        if !(q.x.raw == p.x.raw && q.y.raw == p.y.raw) {
            force = force.add(&inter_point_force(p, q, g, eps2));
        }
        i += 1;
    }
    proof {
        assert(others@.take(others.len() as int) =~= others@);
    }
    force
}

/// The force on a unit mass at `p` from all the mass in the tree `node`.
/// A node that `p` lies outside of, and whose extent over its distance is
/// below `theta`, counts as one point mass at its center of mass.
/// The tree must have been aggregated since its last insertion, since the
/// cached masses and centers of mass are read. With an opening angle that
/// is not positive nothing is approximated: the result is the sum over all
/// the points of the tree.
pub fn tree_force(p: Point, node: &QuadTree, theta: Fixed, g: Fixed, eps2: Fixed) -> (force: Point)
    requires
        node@.is_aggregated(),
    ensures
        force == node@.force(p, theta, g, eps2),
        theta.raw <= 0 ==> force == direct_sum(
            node@.all_points(),
            p,
            g,
            eps2,
            Point { x: Fixed { raw: 0 }, y: Fixed { raw: 0 } },
        ),
{
    proof {
        if theta.raw <= 0 {
            node@.lemma_zero_angle_is_exact(p, theta, g, eps2);
        }
    }
    tree_force_onto(p, node, theta, g, eps2, Point::zero())
}

fn tree_force_onto(p: Point, node: &QuadTree, theta: Fixed, g: Fixed, eps2: Fixed, acc: Point) -> (force:
    Point)
    ensures
        force == node@.force_onto(p, theta, g, eps2, acc),
    decreases node,
{
    proof {
        node.lemma_view_zones();
    }
    if node.zones.len() != 4 {
        return direct_force_onto(p, &node.elements, g, eps2, acc);
    }
    if node.mass == 0 {
        return acc;
    }
    let size: Point = node.area.size();
    let d: Fixed = size.x.max(size.y);

    let r: Fixed = Fixed::hypot(node.cm.x - p.x, node.cm.y - p.y);

    let contains_p: bool = node.area.contains(&p);

    if !contains_p && (d / r).raw < theta.raw {
        return acc.add(&force_point_to_mass(p, node.cm, Fixed::from_u64(node.mass), g, eps2));
    }
    assert(forall|j: int| 0 <= j < 4 ==> #[trigger] node@.zones[j] == node.zones@[j]@);
    let a0: Point = tree_force_onto(p, &node.zones[0], theta, g, eps2, acc);
    let a1: Point = tree_force_onto(p, &node.zones[1], theta, g, eps2, a0);
    let a2: Point = tree_force_onto(p, &node.zones[2], theta, g, eps2, a1);
    tree_force_onto(p, &node.zones[3], theta, g, eps2, a2)
}

/// Raw value of the slack: two particles may overlap by this much before
/// their positions are corrected (one hundredth).
pub const SLOP_RAW: i64 = 42_949_672;

/// Raw value of the share of the remaining overlap that one correction takes
/// away (eight tenths).
pub const CORRECTION_RAW: i64 = 3_435_973_836;

/// The velocity `v`, scaled down to the speed `vmax` if it is faster. The
/// speed is measured exactly, by the sum of the squares of the raw
/// components. A faster velocity is multiplied by `vmax` and divided by its
/// speed rounded up, each component rounded toward zero.
pub open spec fn spec_clamp_speed(v: Vector, vmax: Fixed) -> Vector {
    let n = square_sum(v.x.raw as int, v.y.raw as int);
    if n > vmax.raw * vmax.raw {
        let c = ceil_sqrt(n);
        Vector {
            x: Fixed { raw: sat(trunc_div(v.x.raw * vmax.raw, c)) as i64 },
            y: Fixed { raw: sat(trunc_div(v.y.raw * vmax.raw, c)) as i64 },
        }
    } else {
        v
    }
}

/// A velocity limited to `vmax` is not faster than `vmax`.
pub proof fn lemma_clamped_speed(v: Vector, vmax: Fixed)
    ensures
        square_sum(
            spec_clamp_speed(v, vmax).x.raw as int,
            spec_clamp_speed(v, vmax).y.raw as int,
        ) <= vmax.raw * vmax.raw,
{
    let n = square_sum(v.x.raw as int, v.y.raw as int);
    if n > vmax.raw * vmax.raw {
        lemma_hypot_bounds(v.x.raw as int, v.y.raw as int);
        let s = floor_sqrt(n);
        let c = ceil_sqrt(n);
        assert(vmax.raw * vmax.raw >= 0) by (nonlinear_arith);
        assert(c * c >= n && c > 0) by (nonlinear_arith)
            requires
                0 <= s,
                s * s <= n < (s + 1) * (s + 1),
                n >= 1,
                c == (if s * s == n {
                    s
                } else {
                    s + 1
                }),
        ;
        lemma_scaled_to_cap(
            v.x.raw as int,
            v.y.raw as int,
            vmax.raw as int,
            c,
            trunc_div(v.x.raw * vmax.raw, c),
            trunc_div(v.y.raw * vmax.raw, c),
        );
    }
}

/// Limits the speed of `v` to `vmax`, keeping its direction. Afterwards the
/// speed does not exceed `vmax`, whatever it was before. A velocity that was
/// not faster than `vmax` is left as it is.
pub fn clamp_speed(v: &mut Vector, vmax: Fixed)
    ensures
        *final(v) == spec_clamp_speed(*old(v), vmax),
        square_sum(final(v).x.raw as int, final(v).y.raw as int) <= vmax.raw * vmax.raw,
        square_sum(old(v).x.raw as int, old(v).y.raw as int) <= vmax.raw * vmax.raw ==> *final(v)
            == *old(v),
        vmax.raw >= 0 && old(v).x.raw >= 0 ==> final(v).x.raw >= 0,
        vmax.raw >= 0 && old(v).x.raw <= 0 ==> final(v).x.raw <= 0,
        vmax.raw >= 0 && old(v).y.raw >= 0 ==> final(v).y.raw >= 0,
        vmax.raw >= 0 && old(v).y.raw <= 0 ==> final(v).y.raw <= 0,
{
    let n: u128 = square_sum_of(v.x, v.y);
    let m: u128 = magnitude_of(vmax.raw);
    assert(m * m == vmax.raw * vmax.raw && m * m <= 0x4000_0000_0000_0000_0000_0000_0000_0000)
        by (nonlinear_arith)
        requires
            m == abs_int(vmax.raw as int),
            m <= 0x8000_0000_0000_0000,
    ;
    if n > m * m {
        let s: u128 = isqrt(n);
        assert(s * s <= n);
        let c: u128 = if s * s == n {
            s
        } else {
            s + 1
        };
        let x: i128 = v.x.raw as i128;
        let y: i128 = v.y.raw as i128;
        let w: i128 = vmax.raw as i128;
        assert(-0x4000_0000_0000_0000_0000_0000_0000_0000 <= x * w
            <= 0x4000_0000_0000_0000_0000_0000_0000_0000 && -0x4000_0000_0000_0000_0000_0000_0000_0000
            <= y * w <= 0x4000_0000_0000_0000_0000_0000_0000_0000) by (nonlinear_arith)
            requires
                -0x8000_0000_0000_0000 <= x <= 0x8000_0000_0000_0000,
                -0x8000_0000_0000_0000 <= y <= 0x8000_0000_0000_0000,
                -0x8000_0000_0000_0000 <= w <= 0x8000_0000_0000_0000,
        ;
        proof {
            assert(c * c >= n) by (nonlinear_arith)
                requires
                    s * s <= n < (s + 1) * (s + 1),
                    c == (if s * s == n {
                        s
                    } else {
                        (s + 1) as u128
                    }),
            ;
            assert(c > 0) by (nonlinear_arith)
                requires
                    c * c >= n,
                    n >= 1,
                    c >= 0,
            ;
            lemma_scaled_to_cap(
                x as int,
                y as int,
                w as int,
                c as int,
                trunc_div(x * w, c as int),
                trunc_div(y * w, c as int),
            );
            lemma_trunc_div_accuracy(x * w, c as int);
            lemma_trunc_div_accuracy(y * w, c as int);
            if w >= 0 {
                assert((x >= 0 ==> x * w >= 0) && (x <= 0 ==> x * w <= 0) && (y >= 0 ==> y * w >= 0)
                    && (y <= 0 ==> y * w <= 0)) by (nonlinear_arith)
                    requires
                        w >= 0,
                ;
            }
        }
        v.x = Fixed::from_wide((x * w) / (c as i128));
        v.y = Fixed::from_wide((y * w) / (c as i128));
    }
}

/// What a collision test of two particles reads off their positions.
pub struct Contact {
    /// Exact squared distance between the centers, in the unit of a product
    /// of two raw values.
    pub gap2: int,
    /// Distance between the centers.
    pub dist: Fixed,
    /// Distance at which the particles touch: twice the radius.
    pub min_dist: Fixed,
    /// Unit vector from the first particle to the second.
    pub nx: Fixed,
    pub ny: Fixed,
}

impl Contact {
    /// The contact data of `a` and `b` for particles of radius `radius`.
    pub open spec fn of(a: Particle, b: Particle, radius: Fixed) -> Contact {
        let dx = b.position.x - a.position.x;
        let dy = b.position.y - a.position.y;
        let normal = Vector::spec_unit(&Vector { x: dx, y: dy });
        Contact {
            gap2: square_sum(dx.raw as int, dy.raw as int),
            dist: Fixed::spec_hypot(dx, dy),
            min_dist: Fixed::of_int(2) * radius,
            nx: normal.x,
            ny: normal.y,
        }
    }

    /// The particles touch or overlap, and their centers do not coincide.
    /// The distances are compared by their exact squares.
    pub open spec fn touching(self) -> bool {
        self.gap2 != 0 && self.gap2 <= self.min_dist.raw * self.min_dist.raw
    }

    /// Velocity of the second particle relative to the first, along the
    /// normal. It is negative while the particles approach.
    pub open spec fn closing_speed(self, a: Particle, b: Particle) -> Fixed {
        Vector::spec_dot(&b.velocity.minus(a.velocity), &Vector { x: self.nx, y: self.ny })
    }

    /// Size of the impulse for the restitution `e`.
    pub open spec fn impulse(self, a: Particle, b: Particle, e: Fixed) -> Fixed {
        let one = Fixed { raw: ONE_RAW };
        (one + e).negated() * self.closing_speed(a, b) / (one / a.mass + one / b.mass)
    }

    /// Size of the position correction.
    pub open spec fn correction(self, a: Particle, b: Particle) -> Fixed {
        let one = Fixed { raw: ONE_RAW };
        (self.min_dist - self.dist - Fixed { raw: SLOP_RAW }) / (one / a.mass + one / b.mass)
            * Fixed { raw: CORRECTION_RAW }
    }
}

/// The velocities of two touching particles after the impulse: unchanged
/// unless the particles approach each other.
pub open spec fn after_impulse(a: Particle, b: Particle, radius: Fixed, e: Fixed) -> (Vector, Vector) {
    let c = Contact::of(a, b, radius);
    if c.closing_speed(a, b).raw < 0 {
        let one = Fixed { raw: ONE_RAW };
        let j = c.impulse(a, b, e);
        (
            Vector {
                x: a.velocity.x - j * c.nx * (one / a.mass),
                y: a.velocity.y - j * c.ny * (one / a.mass),
            },
            Vector {
                x: b.velocity.x + j * c.nx * (one / b.mass),
                y: b.velocity.y + j * c.ny * (one / b.mass),
            },
        )
    } else {
        (a.velocity, b.velocity)
    }
}

/// The positions of two touching particles after the correction: unchanged
/// unless they overlap by more than the slack.
pub open spec fn after_correction(a: Particle, b: Particle, radius: Fixed) -> (Point, Point) {
    let c = Contact::of(a, b, radius);
    if (c.min_dist - c.dist).raw > SLOP_RAW {
        let one = Fixed { raw: ONE_RAW };
        let corr = c.correction(a, b);
        (
            Point {
                x: a.position.x - corr * c.nx * (one / a.mass),
                y: a.position.y - corr * c.ny * (one / a.mass),
            },
            Point {
                x: b.position.x + corr * c.nx * (one / b.mass),
                y: b.position.y + corr * c.ny * (one / b.mass),
            },
        )
    } else {
        (a.position, b.position)
    }
}

/// Two particles after their collision is resolved: as they were unless they
/// touch.
pub open spec fn collide(a: Particle, b: Particle, radius: Fixed, e: Fixed) -> (Particle, Particle) {
    if Contact::of(a, b, radius).touching() {
        let (va, vb) = after_impulse(a, b, radius, e);
        let (pa, pb) = after_correction(a, b, radius);
        (
            Particle { position: pa, velocity: va, mass: a.mass },
            Particle { position: pb, velocity: vb, mass: b.mass },
        )
    } else {
        (a, b)
    }
}

/// Resolves the collision of two round particles of radius `radius` with
/// restitution `e`, and says whether they touch. Particles that approach
/// each other exchange an impulse along the line of their centers;
/// particles that overlap by more than the slack are pushed apart.
/// Particles at the same position are left alone.
pub fn resolve_collision(a: &mut Particle, b: &mut Particle, radius: Fixed, e: Fixed) -> (hit: bool)
    ensures
        hit == Contact::of(*old(a), *old(b), radius).touching(),
        (*final(a), *final(b)) == collide(*old(a), *old(b), radius, e),
        !hit ==> *final(a) == *old(a) && *final(b) == *old(b),
        final(a).mass == old(a).mass,
        final(b).mass == old(b).mass,
{
    let dx: Fixed = b.position.x - a.position.x;
    let dy: Fixed = b.position.y - a.position.y;

    let gap2: u128 = square_sum_of(dx, dy);
    if gap2 == 0 {
        return false;
    }
    let min_dist: Fixed = Fixed::from_int(2) * radius;
    let reach: u128 = magnitude_of(min_dist.raw);
    assert(reach * reach == min_dist.raw * min_dist.raw && reach * reach
        <= 0x4000_0000_0000_0000_0000_0000_0000_0000) by (nonlinear_arith)
        requires
            reach == abs_int(min_dist.raw as int),
            reach <= 0x8000_0000_0000_0000,
    ;
    if gap2 > reach * reach {
        return false;
    }
    let dist: Fixed = Fixed::hypot(dx, dy);
    let normal: Vector = Vector::unit(&Vector { x: dx, y: dy });
    let nx: Fixed = normal.x;
    let ny: Fixed = normal.y;

    let relative: Vector = b.velocity - a.velocity;
    let vel_n: Fixed = Vector::dot(&relative, &normal);

    let inv_ma: Fixed = Fixed::one() / a.mass;
    let inv_mb: Fixed = Fixed::one() / b.mass;
    let inv_sum: Fixed = inv_ma + inv_mb;

    let penetration: Fixed = min_dist - dist;
    let slop: Fixed = Fixed::from_raw(SLOP_RAW);
    let percent: Fixed = Fixed::from_raw(CORRECTION_RAW);

    if vel_n.raw < 0 {
        let j: Fixed = (Fixed::one() + e).neg() * vel_n / inv_sum;

        let imp_x: Fixed = j * nx;
        let imp_y: Fixed = j * ny;

        a.velocity.x = a.velocity.x - imp_x * inv_ma;
        a.velocity.y = a.velocity.y - imp_y * inv_ma;

        b.velocity.x = b.velocity.x + imp_x * inv_mb;
        b.velocity.y = b.velocity.y + imp_y * inv_mb;
    }
    if penetration.raw > slop.raw {
        let corr: Fixed = (penetration - slop) / inv_sum * percent;

        a.position.x = a.position.x - corr * nx * inv_ma;
        a.position.y = a.position.y - corr * ny * inv_ma;

        b.position.x = b.position.x + corr * nx * inv_mb;
        b.position.y = b.position.y + corr * ny * inv_mb;
    }
    true
}

/// Raw value of the attractor's mass times the gravitational constant (500).
pub const ATTRACTOR_GM_RAW: i64 = 500 * 0x1_0000_0000;

/// Raw value of the attractor's softening (25).
pub const ATTRACTOR_SOFTENING_RAW: i64 = 25 * 0x1_0000_0000;

/// Raw value of the collision radius of a particle (1).
pub const COLLISION_RADIUS_RAW: i64 = 0x1_0000_0000;

/// Raw value of the restitution of a collision (99 hundredths).
pub const RESTITUTION_RAW: i64 = 4_252_017_623;

/// Raw value of the greatest speed of a particle (75).
pub const MAX_SPEED_RAW: i64 = 75 * 0x1_0000_0000;

/// Raw value of the factor that damps every velocity once a step (99
/// hundredths).
pub const DAMPING_RAW: i64 = 4_252_017_623;

/// A particle after its velocity has taken up, for the time `dt`, the pull
/// of the tree and of the attractor at the origin.
pub open spec fn accelerated(
    part: Particle,
    root: TreeView,
    dt: Fixed,
    theta: Fixed,
    g: Fixed,
    eps2: Fixed,
) -> Particle {
    let f = root.force(part.position, theta, g, eps2);
    let a_c = spec_accel_toward_point(
        part.position,
        Point { x: Fixed { raw: 0 }, y: Fixed { raw: 0 } },
        Fixed { raw: ATTRACTOR_GM_RAW },
        Fixed { raw: ATTRACTOR_SOFTENING_RAW },
    );
    let a = Vector { x: f.x, y: f.y }.plus(a_c);
    Particle { velocity: part.velocity.plus(a.spec_mult_scalar(dt)), ..part }
}

/// A particle after its speed is limited, its velocity damped, and its
/// position moved along that velocity for the time `dt`.
pub open spec fn advanced(part: Particle, dt: Fixed) -> Particle {
    let v = spec_clamp_speed(part.velocity, Fixed { raw: MAX_SPEED_RAW }).spec_mult_scalar(
        Fixed { raw: DAMPING_RAW },
    );
    Particle { velocity: v, position: part.position.spec_add_vec(&v.spec_mult_scalar(dt)), ..part }
}

/// The velocity is not faster than the greatest speed times the damping
/// factor.
pub open spec fn within_damped_cap(v: Vector) -> bool {
    square_sum(v.x.raw as int, v.y.raw as int) * (ONE_RAW * ONE_RAW) <= (DAMPING_RAW * MAX_SPEED_RAW)
        * (DAMPING_RAW * MAX_SPEED_RAW)
}

/// However fast a particle is before it is advanced, afterwards it is not
/// faster than the greatest speed times the damping factor.
pub proof fn lemma_advanced_speed(part: Particle, dt: Fixed)
    ensures
        within_damped_cap(advanced(part, dt).velocity),
{
    let cap = Fixed { raw: MAX_SPEED_RAW };
    let c = spec_clamp_speed(part.velocity, cap);
    let v = advanced(part, dt).velocity;
    lemma_clamped_speed(part.velocity, cap);
    let sx = trunc_div(c.x.raw * DAMPING_RAW, ONE_RAW as int);
    let sy = trunc_div(c.y.raw * DAMPING_RAW, ONE_RAW as int);
    lemma_scaled(c.x.raw as int, c.y.raw as int, DAMPING_RAW as int, ONE_RAW as int, sx, sy);
    assert(v.x.raw == sat(sx) && v.y.raw == sat(sy));
    let q = square_sum(v.x.raw as int, v.y.raw as int);
    let n = square_sum(c.x.raw as int, c.y.raw as int);
    let d = DAMPING_RAW as int;
    let m = MAX_SPEED_RAW as int;
    let one = ONE_RAW as int;
    assert(q * (one * one) <= (d * m) * (d * m)) by (nonlinear_arith)
        requires
            q <= square_sum(sx, sy),
            square_sum(sx, sy) * (one * one) <= (d * d) * n,
            n <= m * m,
            one > 0,
    ;
}

/// The particles after the collisions of particle `i` with the particles
/// `i + 1` up to, not including, `j` are resolved in that order.
pub open spec fn collide_row(ps: Seq<Particle>, i: int, j: int) -> Seq<Particle>
    decreases j - i,
{
    if j <= i + 1 {
        ps
    } else {
        let before = collide_row(ps, i, j - 1);
        let (a, b) = collide(
            before[i],
            before[j - 1],
            Fixed { raw: COLLISION_RADIUS_RAW },
            Fixed { raw: RESTITUTION_RAW },
        );
        before.update(i, a).update(j - 1, b)
    }
}

/// How many of those pairs touch when their turn comes.
pub open spec fn hits_row(ps: Seq<Particle>, i: int, j: int) -> nat
    decreases j - i,
{
    if j <= i + 1 {
        0
    } else {
        let before = collide_row(ps, i, j - 1);
        let hit = Contact::of(before[i], before[j - 1], Fixed { raw: COLLISION_RADIUS_RAW }).touching();
        hits_row(ps, i, j - 1) + if hit {
            1nat
        } else {
            0nat
        }
    }
}

/// The particles after the collisions of each of the first `i` particles
/// with every later particle are resolved, pair by pair.
pub open spec fn collide_rows(ps: Seq<Particle>, i: int) -> Seq<Particle>
    decreases i,
{
    if i <= 0 {
        ps
    } else {
        collide_row(collide_rows(ps, i - 1), i - 1, ps.len() as int)
    }
}

/// How many of those pairs touch when their turn comes.
pub open spec fn hits_rows(ps: Seq<Particle>, i: int) -> nat
    decreases i,
{
    if i <= 0 {
        0
    } else {
        hits_rows(ps, i - 1) + hits_row(collide_rows(ps, i - 1), i - 1, ps.len() as int)
    }
}

/// The particles after one step: every particle accelerated, every pair
/// collided, every particle advanced.
pub open spec fn spec_step(
    ps: Seq<Particle>,
    root: TreeView,
    dt: Fixed,
    theta: Fixed,
    g: Fixed,
    eps2: Fixed,
) -> Seq<Particle> {
    let fast = ps.map_values(|q: Particle| accelerated(q, root, dt, theta, g, eps2));
    collide_rows(fast, fast.len() as int).map_values(|q: Particle| advanced(q, dt))
}

/// The number of pairs that touch during that step.
pub open spec fn spec_step_hits(
    ps: Seq<Particle>,
    root: TreeView,
    dt: Fixed,
    theta: Fixed,
    g: Fixed,
    eps2: Fixed,
) -> nat {
    let fast = ps.map_values(|q: Particle| accelerated(q, root, dt, theta, g, eps2));
    hits_rows(fast, fast.len() as int)
}

/// Advances all particles by one time step `dt` and returns the number of
/// pairs that touched, or `u32::MAX` if there were more. No particle leaves
/// the step faster than the greatest speed times the damping factor. Forces come from
/// `root`, the aggregated tree over the positions before the step, with the
/// opening angle `theta`, the gravitational constant `g` and the softening
/// `eps2`, and from a fixed attractor at the origin. The tree must have been
/// aggregated.
pub fn step_barnes_hut(
    particles: &mut [Particle],
    root: &QuadTree,
    dt: Fixed,
    theta: Fixed,
    g: Fixed,
    eps2: Fixed,
) -> (count: u32)
    requires
        root@.is_aggregated(),
    ensures
        final(particles)@ == spec_step(old(particles)@, root@, dt, theta, g, eps2),
        same_masses(final(particles)@, old(particles)@),
        forall|k: int|
            0 <= k < final(particles)@.len() ==> within_damped_cap(
                (#[trigger] final(particles)@[k]).velocity,
            ),
        count == if spec_step_hits(old(particles)@, root@, dt, theta, g, eps2) > u32::MAX {
            u32::MAX as nat
        } else {
            spec_step_hits(old(particles)@, root@, dt, theta, g, eps2)
        },
{
    let n: usize = particles.len();
    let ghost start = particles@;
    let ghost fast = start.map_values(|q: Particle| accelerated(q, root@, dt, theta, g, eps2));
    proof {
        lemma_step_keeps_masses(start, root@, dt, theta, g, eps2);
    }

    let mut forces: Vec<Point> = Vec::with_capacity(n);
    let mut i: usize = 0;
    while i < n
        invariant
            i <= n,
            n == particles@.len(),
            particles@ == start,
            root@.is_aggregated(),
            forces@.len() == i,
            forall|k: int|
                0 <= k < i ==> #[trigger] forces@[k] == root@.force(start[k].position, theta, g, eps2),
        decreases n - i,
    {
        forces.push(tree_force(particles[i].position, root, theta, g, eps2));
        i += 1;
    }

    let center: Point = Point::zero();
    let gm: Fixed = Fixed::from_raw(ATTRACTOR_GM_RAW);
    let eps2_c: Fixed = Fixed::from_raw(ATTRACTOR_SOFTENING_RAW);

    i = 0;
    while i < n
        invariant
            i <= n,
            n == particles@.len(),
            n == start.len(),
            forces@.len() == n,
            center == (Point { x: Fixed { raw: 0 }, y: Fixed { raw: 0 } }),
            gm.raw == ATTRACTOR_GM_RAW,
            eps2_c.raw == ATTRACTOR_SOFTENING_RAW,
            forall|k: int|
                0 <= k < n ==> #[trigger] forces@[k] == root@.force(start[k].position, theta, g, eps2),
            forall|k: int|
                0 <= k < i ==> #[trigger] particles@[k] == accelerated(
                    start[k],
                    root@,
                    dt,
                    theta,
                    g,
                    eps2,
                ),
            forall|k: int| i <= k < n ==> #[trigger] particles@[k] == start[k],
        decreases n - i,
    {
        let f_point: Point = forces[i];
        let a_bh: Vector = Vector { x: f_point.x, y: f_point.y };
        let a_c: Vector = accel_toward_point(particles[i].position, center, gm, eps2_c);
        let a: Vector = a_bh + a_c;
        let v: Vector = particles[i].velocity + a.mult_scalar(dt);
        particles[i].velocity = v;
        i += 1;
    }
    assert(particles@ =~= fast);

    let mut collision_count: u32 = 0;
    let radius: Fixed = Fixed::from_raw(COLLISION_RADIUS_RAW);
    let e: Fixed = Fixed::from_raw(RESTITUTION_RAW);

    i = 0;
    while i < n
        invariant
            i <= n,
            n == particles@.len(),
            n == fast.len(),
            radius.raw == COLLISION_RADIUS_RAW,
            e.raw == RESTITUTION_RAW,
            particles@ == collide_rows(fast, i as int),
            collision_count == if hits_rows(fast, i as int) > u32::MAX {
                u32::MAX as nat
            } else {
                hits_rows(fast, i as int)
            },
        decreases n - i,
    {
        let ghost row = particles@;
        let ghost row_hits = hits_rows(fast, i as int);
        let mut j: usize = i + 1;
        while j < n
            invariant
                i < j <= n,
                n == particles@.len(),
                n == row.len(),
                radius.raw == COLLISION_RADIUS_RAW,
                e.raw == RESTITUTION_RAW,
                particles@ == collide_row(row, i as int, j as int),
                collision_count == if row_hits + hits_row(row, i as int, j as int) > u32::MAX {
                    u32::MAX as nat
                } else {
                    row_hits + hits_row(row, i as int, j as int)
                },
            decreases n - j,
        {
            let mut a: Particle = particles[i];
            let mut b: Particle = particles[j];
            if resolve_collision(&mut a, &mut b, radius, e) {
                if collision_count < u32::MAX {
                    collision_count += 1;
                }
            }
            particles[i] = a;
            particles[j] = b;
            j += 1;
        }
        proof {
            if i + 1 >= n {
                assert(collide_row(row, i as int, n as int) == row);
            }
        }
        i += 1;
    }

    let ghost met = particles@;
    let vmax: Fixed = Fixed::from_raw(MAX_SPEED_RAW);
    let damping: Fixed = Fixed::from_raw(DAMPING_RAW);

    i = 0;
    while i < n
        invariant
            i <= n,
            n == particles@.len(),
            n == met.len(),
            vmax.raw == MAX_SPEED_RAW,
            damping.raw == DAMPING_RAW,
            forall|k: int| 0 <= k < i ==> #[trigger] particles@[k] == advanced(met[k], dt),
            forall|k: int| i <= k < n ==> #[trigger] particles@[k] == met[k],
        decreases n - i,
    {
        let mut v: Vector = particles[i].velocity;
        clamp_speed(&mut v, vmax);
        v = v.mult_scalar(damping);
        let dp: Vector = v.mult_scalar(dt);
        particles[i].velocity = v;
        particles[i].position = particles[i].position.add_vec(&dp);
        i += 1;
    }
    assert(particles@ =~= met.map_values(|q: Particle| advanced(q, dt)));
    assert forall|k: int| 0 <= k < particles@.len() implies within_damped_cap(
        (#[trigger] particles@[k]).velocity,
    ) by {
        lemma_advanced_speed(met[k], dt);
    }
    collision_count
}

/// The positions of the particles, in their order.
pub open spec fn positions(particles: Seq<Particle>) -> Seq<Point> {
    particles.map_values(|q: Particle| q.position)
}

/// The aggregated tree over `bounds`, with the default limits, that holds
/// the positions of the particles, inserted in their order.
pub open spec fn spec_build_tree(particles: Seq<Particle>, bounds: Rectangle) -> TreeView {
    TreeView::leaf(
        bounds,
        DEFAULT_THRESHOLD,
        DEFAULT_MAX_DEPTH,
        Fixed { raw: ONE_RAW },
        0,
    ).insert_all(positions(particles)).aggregate()
}

/// Builds the tree for one step: inserts the position of every particle
/// into an empty tree over `bounds`, then aggregates it. A particle outside
/// `bounds` is left out of the tree.
pub fn build_tree(particles: &[Particle], bounds: Rectangle) -> (qt: QuadTree)
    ensures
        qt@ == spec_build_tree(particles@, bounds),
        qt.well_formed(),
        qt@.is_aggregated(),
        qt@.points() == inside(positions(particles@), bounds).to_multiset(),
        qt.mass == clamp_mass(inside(positions(particles@), bounds).len() as int),
{
    proof {
        lemma_built_tree_conserves_mass(particles@, bounds);
    }
    let mut qt: QuadTree = QuadTree::new(bounds);
    let ghost empty = qt@;
    let ghost ps = positions(particles@);
    let mut i: usize = 0;
    while i < particles.len()
        invariant
            i <= particles.len(),
            ps == positions(particles@),
            empty.well_formed(),
            qt.well_formed(),
            qt@ == empty.insert_all(ps.take(i as int)),
        decreases particles.len() - i,
    {
        proof {
            assert(ps.take(i + 1).drop_last() =~= ps.take(i as int));
        }
        qt.insert(&particles[i].position);
        i += 1;
    }
    proof {
        assert(ps.take(i as int) =~= ps);
        qt@.lemma_aggregate();
        qt@.lemma_same_points(qt@.aggregate());
    }
    qt.aggregate();
    qt
}

/// The tree built for a step is well-formed and aggregated, and its root
/// caches as its mass the number of particles that lie in `bounds`, every
/// particle counting one (as long as the mass cache can count that far).
pub proof fn lemma_built_tree_conserves_mass(particles: Seq<Particle>, bounds: Rectangle)
    ensures
        spec_build_tree(particles, bounds).well_formed(),
        spec_build_tree(particles, bounds).is_aggregated(),
        spec_build_tree(particles, bounds).mass == clamp_mass(
            inside(positions(particles), bounds).len() as int,
        ),
        spec_build_tree(particles, bounds).points() == inside(
            positions(particles),
            bounds,
        ).to_multiset(),
{
    broadcast use vstd::seq_lib::group_to_multiset_ensures;
    broadcast use vstd::multiset::group_multiset_axioms;

    let empty = TreeView::leaf(
        bounds,
        DEFAULT_THRESHOLD,
        DEFAULT_MAX_DEPTH,
        Fixed { raw: ONE_RAW },
        0,
    );
    let filled = empty.insert_all(positions(particles));
    empty.lemma_insert_all(positions(particles));
    filled.lemma_aggregate();
    filled.lemma_same_points(filled.aggregate());
    filled.lemma_count();
    filled.aggregate().lemma_count();
    assert(empty.points() =~= vstd::multiset::Multiset::empty());
    assert(filled.points() =~= inside(positions(particles), bounds).to_multiset());
}

/// If all the particles lie at one position, every node of the tree built
/// over them that holds a point caches exactly that position as its center
/// of mass, and every node that holds none has mass zero and the center of
/// its rectangle (for fewer particles than the mass cache can count).
pub proof fn lemma_built_tree_of_coincident_particles(
    particles: Seq<Particle>,
    bounds: Rectangle,
    at: Point,
    path: Seq<int>,
)
    requires
        forall|i: int| 0 <= i < particles.len() ==> (#[trigger] particles[i]).position == at,
        particles.len() < u64::MAX,
        spec_build_tree(particles, bounds).has_node(path),
    ensures
        spec_build_tree(particles, bounds).node_at(path).count() > 0 ==> spec_build_tree(
            particles,
            bounds,
        ).node_at(path).cm == at,
        spec_build_tree(particles, bounds).node_at(path).count() == 0 ==> {
            &&& spec_build_tree(particles, bounds).node_at(path).mass == 0
            &&& spec_build_tree(particles, bounds).node_at(path).cm == spec_build_tree(
                particles,
                bounds,
            ).node_at(path).area.center()
        },
{
    broadcast use vstd::seq_lib::group_to_multiset_ensures;

    let tree = spec_build_tree(particles, bounds);
    let node = tree.node_at(path);
    let ps = positions(particles);
    let picked = inside(ps, bounds);
    lemma_built_tree_conserves_mass(particles, bounds);
    lemma_inside_members(ps, bounds);
    tree.lemma_count();
    tree.lemma_node_count(path);
    tree.lemma_node_is_aggregated(path);
    assert forall|p: Point| tree.points().count(p) > 0 implies p == at by {
        assert(picked.contains(p));
        assert(ps.contains(p));
        let k = choose|k: int| 0 <= k < ps.len() && ps[k] == p;
        assert(particles[k].position == at);
    }
    if node.count() > 0 {
        tree.lemma_coincident_points_at_every_node(at, path);
    }
}

/// Rebuilding is repeatable: two trees built over the same bounds from
/// particles at the same positions, in the same order, have the same nodes,
/// and every node caches the same mass and the same center of mass.
pub proof fn lemma_rebuild_agrees(
    first: Seq<Particle>,
    second: Seq<Particle>,
    bounds: Rectangle,
    path: Seq<int>,
)
    requires
        positions(first) == positions(second),
    ensures
        spec_build_tree(first, bounds).has_node(path) == spec_build_tree(second, bounds).has_node(
            path,
        ),
        spec_build_tree(first, bounds).node_at(path).mass == spec_build_tree(
            second,
            bounds,
        ).node_at(path).mass,
        spec_build_tree(first, bounds).node_at(path).cm == spec_build_tree(second, bounds).node_at(
            path,
        ).cm,
{
}

} // verus!
