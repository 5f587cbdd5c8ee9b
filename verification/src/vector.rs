//! Velocity and acceleration vectors, and the particles that carry them.
use crate::fixed::{
    abs_int, floor_sqrt, isqrt, lemma_hypot_bounds, lemma_normalised, magnitude_of, square_sum,
    sat, square_sum_of, trunc_div, Fixed, ONE_RAW,
};
use crate::geometry::Point;
use vstd::prelude::*;

verus! {

/// A velocity, force or acceleration in the plane.
#[derive(Copy, Clone, Debug, PartialEq, Eq, Structural)]
pub struct Vector {
    pub x: Fixed,
    pub y: Fixed,
}

impl Vector {
    /// Component-wise sum.
    pub open spec fn plus(self, other: Vector) -> Vector {
        Vector { x: self.x + other.x, y: self.y + other.y }
    }

    /// Component-wise difference.
    pub open spec fn minus(self, other: Vector) -> Vector {
        Vector { x: self.x - other.x, y: self.y - other.y }
    }

    /// Component-wise product.
    pub open spec fn times(self, other: Vector) -> Vector {
        Vector { x: self.x * other.x, y: self.y * other.y }
    }

    /// Product with a scalar.
    pub open spec fn spec_mult_scalar(self, k: Fixed) -> Vector {
        Vector { x: self.x * k, y: self.y * k }
    }

    /// Euclidean length: the square root of the exact sum of the squared
    /// components, rounded down.
    pub open spec fn spec_length(a: &Vector) -> Fixed {
        Fixed::spec_hypot(a.x, a.y)
    }

    /// The factor by which a vector is enlarged before it is divided by its
    /// length, so that the rounding of the length does not show: two to the
    /// thirty-one for a vector whose components are both below one half, one
    /// for any other.
    pub open spec fn unit_scale(a: &Vector) -> int {
        if abs_int(a.x.raw as int) < 0x8000_0000 && abs_int(a.y.raw as int) < 0x8000_0000 {
            0x8000_0000
        } else {
            1
        }
    }

    /// The vector divided by its length, each component rounded toward
    /// zero; the zero vector for the zero vector.
    pub open spec fn spec_unit(a: &Vector) -> Vector {
        if a.x.raw == 0 && a.y.raw == 0 {
            *a
        } else {
            let k = Vector::unit_scale(a);
            let len = floor_sqrt(square_sum(a.x.raw * k, a.y.raw * k));
            Vector {
                x: Fixed { raw: trunc_div(a.x.raw * k * ONE_RAW, len) as i64 },
                y: Fixed { raw: trunc_div(a.y.raw * k * ONE_RAW, len) as i64 },
            }
        }
    }

    /// Scalar product: the exact sum of the two products, rounded toward
    /// zero.
    pub open spec fn spec_dot(a: &Vector, b: &Vector) -> Fixed {
        Fixed::spec_sum_of_products(a.x, b.x, a.y, b.y)
    }

    /// Signed area of the parallelogram spanned by `a` and `b`: the exact
    /// difference of the two products, rounded toward zero.
    pub open spec fn spec_cross(a: &Vector, b: &Vector) -> Fixed {
        Fixed { raw: sat(trunc_div(a.x.raw * b.y.raw - a.y.raw * b.x.raw, ONE_RAW as int)) as i64 }
    }

    pub fn new(x: Fixed, y: Fixed) -> (r: Vector)
        ensures
            r == (Vector { x, y }),
    {
        Vector { x, y }
    }

    pub fn zero() -> (r: Vector)
        ensures
            r.x.raw == 0,
            r.y.raw == 0,
    {
        Vector { x: Fixed::zero(), y: Fixed::zero() }
    }

    pub fn equal_vectors(a: &Vector, b: &Vector) -> (r: bool)
        ensures
            r == (*a == *b),
    {
        a.x.raw == b.x.raw && a.y.raw == b.y.raw
    }

    #[verifier::when_used_as_spec(spec_length)]
    pub fn length(a: &Vector) -> (r: Fixed)
        ensures
            r == Vector::spec_length(a),
    {
        Fixed::hypot(a.x, a.y)
    }

    /// Normalizes `a`: the result points the way `a` points and has length
    /// one up to rounding. It is at most two units of the last place longer
    /// than one, and adding one unit to each component makes it longer than
    /// one. The zero vector, which has no direction, stays the zero vector.
    #[verifier::when_used_as_spec(spec_unit)]
    pub fn unit(a: &Vector) -> (r: Vector)
        ensures
            r == Vector::spec_unit(a),
            a.x.raw != 0 || a.y.raw != 0 ==> {
                &&& square_sum(r.x.raw as int, r.y.raw as int) <= (ONE_RAW + 2) * (ONE_RAW + 2)
                &&& square_sum(abs_int(r.x.raw as int) + 1, abs_int(r.y.raw as int) + 1) > ONE_RAW
                    * ONE_RAW
            },
            a.x.raw >= 0 ==> r.x.raw >= 0,
            a.x.raw <= 0 ==> r.x.raw <= 0,
            a.y.raw >= 0 ==> r.y.raw >= 0,
            a.y.raw <= 0 ==> r.y.raw <= 0,
    {
        if a.x.raw == 0 && a.y.raw == 0 {
            return *a;
        }
        let small: bool = magnitude_of(a.x.raw) < 0x8000_0000 && magnitude_of(a.y.raw) < 0x8000_0000;
        let k: i64 = if small {
            0x8000_0000
        } else {
            1
        };
        let x: i64 = a.x.raw * k;
        let y: i64 = a.y.raw * k;
        let len: u128 = isqrt(square_sum_of(Fixed::from_raw(x), Fixed::from_raw(y)));
        proof {
            lemma_hypot_bounds(x as int, y as int);
            assert(x != 0 || y != 0) by (nonlinear_arith)
                requires
                    x == a.x.raw * k,
                    y == a.y.raw * k,
                    k > 0,
                    a.x.raw != 0 || a.y.raw != 0,
            ;
            assert(2 * len >= ONE_RAW) by (nonlinear_arith)
                requires
                    x == a.x.raw * k,
                    y == a.y.raw * k,
                    abs_int(x as int) <= len,
                    abs_int(y as int) <= len,
                    a.x.raw != 0 || a.y.raw != 0,
                    k == 0x8000_0000 || (k == 1 && (abs_int(a.x.raw as int) >= 0x8000_0000 || abs_int(
                        a.y.raw as int,
                    ) >= 0x8000_0000)),
                    ONE_RAW == 0x1_0000_0000,
            ;
            lemma_normalised(
                x as int,
                y as int,
                len as int,
                ONE_RAW as int,
                trunc_div(x * ONE_RAW, len as int),
                trunc_div(y * ONE_RAW, len as int),
            );
            assert(a.x.raw * k * ONE_RAW == x * ONE_RAW && a.y.raw * k * ONE_RAW == y * ONE_RAW);
            assert((a.x.raw >= 0 ==> x >= 0) && (a.x.raw <= 0 ==> x <= 0) && (a.y.raw >= 0 ==> y >= 0)
                && (a.y.raw <= 0 ==> y <= 0)) by (nonlinear_arith)
                requires
                    x == a.x.raw * k,
                    y == a.y.raw * k,
                    k > 0,
            ;
        }
        let ux: i128 = (x as i128) * 0x1_0000_0000 / (len as i128);
        let uy: i128 = (y as i128) * 0x1_0000_0000 / (len as i128);
        Vector { x: Fixed::from_raw(ux as i64), y: Fixed::from_raw(uy as i64) }
    }

    #[verifier::when_used_as_spec(spec_dot)]
    pub fn dot(a: &Vector, b: &Vector) -> (r: Fixed)
        ensures
            r == Vector::spec_dot(a, b),
    {
        Fixed::sum_of_products(a.x, b.x, a.y, b.y)
    }

    #[verifier::when_used_as_spec(spec_cross)]
    pub fn cross(a: &Vector, b: &Vector) -> (r: Fixed)
        ensures
            r == Vector::spec_cross(a, b),
    {
        let p: i128 = a.x.raw as i128;
        let q: i128 = b.y.raw as i128;
        let r: i128 = a.y.raw as i128;
        let s: i128 = b.x.raw as i128;
        assert(-0x4000_0000_0000_0000_0000_0000_0000_0000 <= p * q
            <= 0x4000_0000_0000_0000_0000_0000_0000_0000 && -0x4000_0000_0000_0000_0000_0000_0000_0000
            <= r * s <= 0x4000_0000_0000_0000_0000_0000_0000_0000) by (nonlinear_arith)
            requires
                -0x8000_0000_0000_0000 <= p <= 0x8000_0000_0000_0000,
                -0x8000_0000_0000_0000 <= q <= 0x8000_0000_0000_0000,
                -0x8000_0000_0000_0000 <= r <= 0x8000_0000_0000_0000,
                -0x8000_0000_0000_0000 <= s <= 0x8000_0000_0000_0000,
        ;
        let first: i128 = p * q;
        let second: i128 = r * s;
        let top: i128 = 0x4000_0000_0000_0000_0000_0000_0000_0000;
        if first == top && second == -top {
            Fixed::from_raw(i64::MAX)
        } else if first == -top && second == top {
            Fixed::from_raw(i64::MIN)
        } else {
            Fixed::from_wide((first - second) / 0x1_0000_0000)
        }
    }

    #[verifier::when_used_as_spec(spec_mult_scalar)]
    pub fn mult_scalar(self, k: Fixed) -> (r: Vector)
        ensures
            r == self.spec_mult_scalar(k),
    {
        Vector { x: self.x * k, y: self.y * k }
    }
}

impl vstd::std_specs::ops::AddSpecImpl for Vector {
    open spec fn obeys_add_spec() -> bool {
        true
    }

    open spec fn add_req(self, other: Vector) -> bool {
        true
    }

    open spec fn add_spec(self, other: Vector) -> Vector {
        self.plus(other)
    }
}

impl core::ops::Add for Vector {
    type Output = Vector;

    fn add(self, other: Vector) -> (r: Vector) {
        Vector { x: self.x + other.x, y: self.y + other.y }
    }
}

impl vstd::std_specs::ops::SubSpecImpl for Vector {
    open spec fn obeys_sub_spec() -> bool {
        true
    }

    open spec fn sub_req(self, other: Vector) -> bool {
        true
    }

    open spec fn sub_spec(self, other: Vector) -> Vector {
        self.minus(other)
    }
}

impl core::ops::Sub for Vector {
    type Output = Vector;

    fn sub(self, other: Vector) -> (r: Vector) {
        Vector { x: self.x - other.x, y: self.y - other.y }
    }
}

impl vstd::std_specs::ops::MulSpecImpl for Vector {
    open spec fn obeys_mul_spec() -> bool {
        true
    }

    open spec fn mul_req(self, other: Vector) -> bool {
        true
    }

    open spec fn mul_spec(self, other: Vector) -> Vector {
        self.times(other)
    }
}

impl core::ops::Mul for Vector {
    type Output = Vector;

    fn mul(self, other: Vector) -> (r: Vector) {
        Vector { x: self.x * other.x, y: self.y * other.y }
    }
}

impl Point {
    /// The point displaced by `v`.
    pub open spec fn spec_add_vec(&self, v: &Vector) -> Point {
        Point { x: self.x + v.x, y: self.y + v.y }
    }

    #[verifier::when_used_as_spec(spec_add_vec)]
    pub fn add_vec(&self, v: &Vector) -> (r: Point)
        ensures
            r == self.spec_add_vec(v),
    {
        Point { x: self.x + v.x, y: self.y + v.y }
    }
}

/// A point mass. Its mass is positive.
#[derive(Copy, Clone, Debug, PartialEq, Eq, Structural)]
pub struct Particle {
    pub position: Point,
    pub velocity: Vector,
    pub mass: Fixed,
}

} // verus!
