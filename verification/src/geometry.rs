//! Points and axis-aligned rectangles of the plane.
use crate::fixed::{square_sum, square_sum_of, trunc_div, Fixed, ONE_RAW};
use vstd::prelude::*;

verus! {

/// A position in the plane.
#[derive(Debug, Clone, Copy, PartialEq, Eq, Structural)]
pub struct Point {
    pub x: Fixed,
    pub y: Fixed,
}

/// The raw value halfway between two raw values, rounded toward zero.
pub open spec fn mid_raw(a: int, b: int) -> int {
    trunc_div(a + b, 2)
}

fn halfway(a: Fixed, b: Fixed) -> (r: Fixed)
    ensures
        r.raw == mid_raw(a.raw as int, b.raw as int),
        a.raw <= b.raw ==> a.raw <= r.raw <= b.raw,
        b.raw <= a.raw ==> b.raw <= r.raw <= a.raw,
{
    let s: i128 = a.raw as i128 + b.raw as i128;
    let h: i128 = s / 2;
    Fixed::from_raw(h as i64)
}

impl Point {
    /// The point halfway between two points, each coordinate rounded toward
    /// zero.
    pub open spec fn spec_midpoint(&self, other: &Point) -> Point {
        Point {
            x: Fixed { raw: mid_raw(self.x.raw as int, other.x.raw as int) as i64 },
            y: Fixed { raw: mid_raw(self.y.raw as int, other.y.raw as int) as i64 },
        }
    }

    /// Coordinate-wise quotient by a scalar.
    pub open spec fn spec_div(&self, divisor: Fixed) -> Point {
        Point { x: self.x / divisor, y: self.y / divisor }
    }

    /// Coordinate-wise product.
    pub open spec fn spec_mult(&self, other: &Point) -> Point {
        Point { x: self.x * other.x, y: self.y * other.y }
    }

    /// Product with a scalar.
    pub open spec fn spec_mult_scalar(&self, k: Fixed) -> Point {
        Point { x: self.x * k, y: self.y * k }
    }

    /// Coordinate-wise absolute difference.
    pub open spec fn spec_diff(&self, other: &Point) -> Point {
        Point { x: (self.x - other.x).magnitude(), y: (self.y - other.y).magnitude() }
    }

    /// Coordinate-wise sum.
    pub open spec fn spec_add(&self, other: &Point) -> Point {
        Point { x: self.x + other.x, y: self.y + other.y }
    }

    /// Coordinate-wise difference.
    pub open spec fn spec_sub(&self, other: &Point) -> Point {
        Point { x: self.x - other.x, y: self.y - other.y }
    }

    /// The exact squared Euclidean distance, in the unit of a product of
    /// two raw values. Nothing in it is rounded, and nothing clamped but a
    /// coordinate difference beyond the range of a number.
    pub open spec fn spec_gap_squared(&self, other: &Point) -> int {
        square_sum((self.x - other.x).raw as int, (self.y - other.y).raw as int)
    }

    /// Squared Euclidean distance: the exact square, rounded down.
    pub open spec fn spec_distance_squared(&self, other: &Point) -> Fixed {
        Fixed::of_square(self.spec_gap_squared(other))
    }

    /// Euclidean distance: the square root of the exact square, rounded
    /// down.
    pub open spec fn spec_distance(&self, other: &Point) -> Fixed {
        Fixed::spec_hypot(self.x - other.x, self.y - other.y)
    }

    pub fn new(x: Fixed, y: Fixed) -> (r: Point)
        ensures
            r == (Point { x, y }),
    {
        Point { x, y }
    }

    /// The origin.
    pub fn zero() -> (r: Point)
        ensures
            r.x.raw == 0,
            r.y.raw == 0,
    {
        Point { x: Fixed::zero(), y: Fixed::zero() }
    }

    #[verifier::when_used_as_spec(spec_midpoint)]
    pub fn midpoint(&self, other: &Point) -> (r: Point)
        ensures
            r == self.spec_midpoint(other),
    {
        Point { x: halfway(self.x, other.x), y: halfway(self.y, other.y) }
    }

    #[verifier::when_used_as_spec(spec_div)]
    pub fn div(&self, divisor: Fixed) -> (r: Point)
        ensures
            r == self.spec_div(divisor),
    {
        Point { x: self.x / divisor, y: self.y / divisor }
    }

    #[verifier::when_used_as_spec(spec_mult)]
    pub fn mult(&self, other: &Point) -> (r: Point)
        ensures
            r == self.spec_mult(other),
    {
        Point { x: self.x * other.x, y: self.y * other.y }
    }

    #[verifier::when_used_as_spec(spec_mult_scalar)]
    pub fn mult_scalar(&self, k: Fixed) -> (r: Point)
        ensures
            r == self.spec_mult_scalar(k),
    {
        Point { x: self.x * k, y: self.y * k }
    }

    #[verifier::when_used_as_spec(spec_diff)]
    pub fn diff(&self, other: &Point) -> (r: Point)
        ensures
            r == self.spec_diff(other),
    {
        Point { x: (self.x - other.x).abs(), y: (self.y - other.y).abs() }
    }

    #[verifier::when_used_as_spec(spec_add)]
    pub fn add(&self, other: &Point) -> (r: Point)
        ensures
            r == self.spec_add(other),
    {
        Point { x: self.x + other.x, y: self.y + other.y }
    }

    #[verifier::when_used_as_spec(spec_sub)]
    pub fn sub(&self, other: &Point) -> (r: Point)
        ensures
            r == self.spec_sub(other),
    {
        Point { x: self.x - other.x, y: self.y - other.y }
    }

    pub fn gap_squared(&self, other: &Point) -> (r: u128)
        ensures
            r == self.spec_gap_squared(other),
    {
        square_sum_of(self.x - other.x, self.y - other.y)
    }

    #[verifier::when_used_as_spec(spec_distance_squared)]
    pub fn distance_squared(&self, other: &Point) -> (r: Fixed)
        ensures
            r == self.spec_distance_squared(other),
    {
        Fixed::from_square(self.gap_squared(other))
    }

    #[verifier::when_used_as_spec(spec_distance)]
    pub fn distance(&self, other: &Point) -> (r: Fixed)
        ensures
            r == self.spec_distance(other),
    {
        Fixed::hypot(self.x - other.x, self.y - other.y)
    }
}

/// An axis-aligned box given by its least corner `p1` and its greatest corner
/// `p2`. Both corners and all four edges belong to the box.
#[derive(Debug, Clone, Copy, PartialEq, Eq, Structural)]
pub struct Rectangle {
    pub p1: Point,
    pub p2: Point,
}

impl Rectangle {
    /// `p1` is not greater than `p2` in either coordinate, so the box is not
    /// empty.
    pub open spec fn well_formed(&self) -> bool {
        self.p1.x.raw <= self.p2.x.raw && self.p1.y.raw <= self.p2.y.raw
    }

    /// The point lies in the box, edges included.
    pub open spec fn spec_contains(&self, p: &Point) -> bool {
        self.p1.x.raw <= p.x.raw && self.p2.x.raw >= p.x.raw && self.p1.y.raw <= p.y.raw
            && self.p2.y.raw >= p.y.raw
    }

    /// Every point of this box lies in `outer`.
    pub open spec fn within(&self, outer: &Rectangle) -> bool {
        outer.p1.x.raw <= self.p1.x.raw && self.p2.x.raw <= outer.p2.x.raw && outer.p1.y.raw
            <= self.p1.y.raw && self.p2.y.raw <= outer.p2.y.raw
    }

    /// Width and height of the box.
    pub open spec fn spec_size(&self) -> Point {
        self.p1.spec_diff(&self.p2)
    }

    /// The point halfway between the corners.
    pub open spec fn spec_center(&self) -> Point {
        self.p1.spec_midpoint(&self.p2)
    }

    /// The box shifted by `p`.
    pub open spec fn spec_move_rectangle(self, p: &Point) -> Rectangle {
        Rectangle { p1: self.p1.spec_add(p), p2: self.p2.spec_add(p) }
    }

    /// The two boxes share at least one point (for well-formed boxes).
    pub open spec fn spec_intersects(&self, rect: &Rectangle) -> bool {
        self.p1.x.raw <= rect.p2.x.raw && rect.p1.x.raw <= self.p2.x.raw && self.p1.y.raw
            <= rect.p2.y.raw && rect.p1.y.raw <= self.p2.y.raw
    }

    /// The point of the box nearest to `p`.
    pub open spec fn nearest_point(&self, p: &Point) -> Point {
        Point {
            x: Fixed { raw: clamp_between(p.x.raw, self.p1.x.raw, self.p2.x.raw) },
            y: Fixed { raw: clamp_between(p.y.raw, self.p1.y.raw, self.p2.y.raw) },
        }
    }

    /// The exact squared distance from `p` to the nearest point of the box.
    pub open spec fn spec_gap_squared_to_point(&self, p: &Point) -> int {
        p.spec_gap_squared(&self.nearest_point(p))
    }

    /// Squared distance from `p` to the nearest point of the box.
    pub open spec fn spec_distance_to_point(&self, p: &Point) -> Fixed {
        p.spec_distance_squared(&self.nearest_point(p))
    }

    /// One of the four quarters that the center cuts the box into: 0 holds
    /// `p1`, 1 lies beside it along x, 2 beside it along y, and 3 holds `p2`.
    /// Neighbouring quarters share their common edge.
    pub open spec fn spec_quadrant(&self, i: usize) -> Rectangle {
        let c = self.spec_center();
        if i == 0 {
            Rectangle { p1: self.p1, p2: c }
        } else if i == 1 {
            Rectangle { p1: Point { x: c.x, y: self.p1.y }, p2: Point { x: self.p2.x, y: c.y } }
        } else if i == 2 {
            Rectangle { p1: Point { x: self.p1.x, y: c.y }, p2: Point { x: c.x, y: self.p2.y } }
        } else {
            Rectangle { p1: c, p2: self.p2 }
        }
    }

    pub fn new(p1: Point, p2: Point) -> (r: Rectangle)
        ensures
            r == (Rectangle { p1, p2 }),
    {
        Rectangle { p1, p2 }
    }

    #[verifier::when_used_as_spec(spec_contains)]
    pub fn contains(&self, p: &Point) -> (r: bool)
        ensures
            r == self.spec_contains(p),
    {
        self.p1.x.raw <= p.x.raw && self.p2.x.raw >= p.x.raw && self.p1.y.raw <= p.y.raw
            && self.p2.y.raw >= p.y.raw
    }

    #[verifier::when_used_as_spec(spec_size)]
    pub fn size(&self) -> (r: Point)
        ensures
            r == self.spec_size(),
    {
        self.p1.diff(&self.p2)
    }

    #[verifier::when_used_as_spec(spec_center)]
    pub fn center(&self) -> (r: Point)
        ensures
            r == self.spec_center(),
    {
        self.p1.midpoint(&self.p2)
    }

    #[verifier::when_used_as_spec(spec_move_rectangle)]
    pub fn move_rectangle(self, p: &Point) -> (r: Rectangle)
        ensures
            r == self.spec_move_rectangle(p),
    {
        Rectangle { p1: self.p1.add(p), p2: self.p2.add(p) }
    }

    #[verifier::when_used_as_spec(spec_intersects)]
    pub fn intersects(&self, rect: &Rectangle) -> (r: bool)
        ensures
            r == self.spec_intersects(rect),
    {
        self.p1.x.raw <= rect.p2.x.raw && rect.p1.x.raw <= self.p2.x.raw && self.p1.y.raw
            <= rect.p2.y.raw && rect.p1.y.raw <= self.p2.y.raw
    }

    pub fn gap_squared_to_point(&self, p: &Point) -> (r: u128)
        ensures
            r == self.spec_gap_squared_to_point(p),
    {
        let px: Fixed = p.x;
        let py: Fixed = p.y;

        let closest_x: Fixed = self.p1.x.max(px.min(self.p2.x));
        let closest_y: Fixed = self.p1.y.max(py.min(self.p2.y));

        square_sum_of(px - closest_x, py - closest_y)
    }

    #[verifier::when_used_as_spec(spec_distance_to_point)]
    pub fn distance_to_point(&self, p: &Point) -> (r: Fixed)
        ensures
            r == self.spec_distance_to_point(p),
    {
        Fixed::from_square(self.gap_squared_to_point(p))
    }

    #[verifier::when_used_as_spec(spec_quadrant)]
    pub fn quadrant(&self, i: usize) -> (r: Rectangle)
        ensures
            r == self.spec_quadrant(i),
    {
        let c: Point = self.center();
        if i == 0 {
            Rectangle { p1: self.p1, p2: c }
        } else if i == 1 {
            Rectangle { p1: Point { x: c.x, y: self.p1.y }, p2: Point { x: self.p2.x, y: c.y } }
        } else if i == 2 {
            Rectangle { p1: Point { x: self.p1.x, y: c.y }, p2: Point { x: c.x, y: self.p2.y } }
        } else {
            Rectangle { p1: c, p2: self.p2 }
        }
    }
}

/// `v` moved into the interval from `lo` to `hi`: the larger of `lo` and the
/// smaller of `v` and `hi`.
pub open spec fn clamp_between(v: i64, lo: i64, hi: i64) -> i64 {
    let m = if v <= hi { v } else { hi };
    if lo >= m { lo } else { m }
}

/// A square grows with the magnitude of its argument.
pub proof fn lemma_square_monotone(a: int, b: int)
    requires
        0 <= a <= b || b <= a <= 0,
    ensures
        0 <= a * a <= b * b,
{
    assert(0 <= a * a <= b * b) by (nonlinear_arith)
        requires
            0 <= a <= b || b <= a <= 0,
    ;
}

impl Rectangle {
    /// A point of a box lies in at least one of its quarters.
    pub proof fn lemma_quadrants_cover(self, p: Point)
        requires
            self.contains(&p),
        ensures
            self.quadrant(0).contains(&p) || self.quadrant(1).contains(&p) || self.quadrant(
                2,
            ).contains(&p) || self.quadrant(3).contains(&p),
    {
    }

    /// Each quarter of a well-formed box is a well-formed box inside it.
    pub proof fn lemma_quadrant_within(self, i: usize)
        requires
            self.well_formed(),
        ensures
            self.quadrant(i).well_formed(),
            self.quadrant(i).within(&self),
    {
    }

    /// A point of a box lies in every box that the first lies within.
    pub proof fn lemma_within_contains(self, outer: Rectangle, p: Point)
        requires
            self.within(&outer),
            self.contains(&p),
        ensures
            outer.contains(&p),
    {
    }

    /// Two well-formed boxes intersect exactly when some point lies in both.
    pub proof fn lemma_intersects_iff_common_point(self, other: Rectangle)
        requires
            self.well_formed(),
            other.well_formed(),
        ensures
            self.intersects(&other) <==> exists|p: Point|
                #![trigger self.spec_contains(&p)]
                self.contains(&p) && other.contains(&p),
    {
        if self.intersects(&other) {
            let x = if self.p1.x.raw >= other.p1.x.raw { self.p1.x } else { other.p1.x };
            let y = if self.p1.y.raw >= other.p1.y.raw { self.p1.y } else { other.p1.y };
            let p = Point { x, y };
            assert(self.contains(&p) && other.contains(&p));
        }
    }

    /// No point of the box is nearer to `p` than the distance to the box,
    /// and a point inside the box is at distance zero from it.
    pub proof fn lemma_distance_to_point_is_least(self, p: Point, q: Point)
        requires
            self.contains(&q),
        ensures
            self.spec_gap_squared_to_point(&p) <= p.spec_gap_squared(&q),
            self.distance_to_point(&p).raw <= p.distance_squared(&q).raw,
            self.contains(&p) ==> self.spec_gap_squared_to_point(&p) == 0 && self.distance_to_point(
                &p,
            ).raw == 0,
    {
        let c = self.nearest_point(&p);
        lemma_square_monotone((p.x - c.x).raw as int, (p.x - q.x).raw as int);
        lemma_square_monotone((p.y - c.y).raw as int, (p.y - q.y).raw as int);
        vstd::arithmetic::div_mod::lemma_div_is_ordered(
            self.spec_gap_squared_to_point(&p),
            p.spec_gap_squared(&q),
            ONE_RAW as int,
        );
        vstd::arithmetic::div_mod::lemma_div_is_ordered(0, self.spec_gap_squared_to_point(&p), ONE_RAW as int);
        if self.contains(&p) {
            let zx = p.x - c.x;
            let zy = p.y - c.y;
            assert(zx.raw == 0 && zy.raw == 0);
            assert(zx.raw * zx.raw == 0 && zy.raw * zy.raw == 0) by (nonlinear_arith)
                requires
                    zx.raw == 0,
                    zy.raw == 0,
            ;
        }
    }
}

} // verus!
