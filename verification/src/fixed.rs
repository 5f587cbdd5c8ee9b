//! Saturating fixed-point scalars.
//!
//! A [`Fixed`] holds a signed 64-bit raw value whose low 32 bits are the
//! fraction: the number it denotes is `raw / 2^32`. Every operation is total.
//! A result that does not fit is clamped to the nearest representable value,
//! and a quotient or product that falls between two representable values is
//! rounded toward zero.
//!
//! Lengths and distances are not built from such products. They are taken
//! from the exact sum of the squares of the raw values, which always fits in
//! 128 bits, so that no square is clamped on the way to a length that fits.
use vstd::prelude::*;
use core::ops::Neg;

verus! {

/// Raw value of the number one.
pub const ONE_RAW: i64 = 0x1_0000_0000;

/// Clamps an integer to the range of raw values.
pub open spec fn sat(v: int) -> int {
    if v < i64::MIN as int {
        i64::MIN as int
    } else if v > i64::MAX as int {
        i64::MAX as int
    } else {
        v
    }
}

/// Quotient of `a` by `b` rounded toward zero; zero when `b` is zero.
pub open spec fn trunc_div(a: int, b: int) -> int {
    if b == 0 {
        0
    } else if a >= 0 && b > 0 {
        a / b
    } else if a < 0 && b > 0 {
        -((-a) / b)
    } else if a >= 0 {
        -(a / (-b))
    } else {
        (-a) / (-b)
    }
}

/// `r` is the largest integer whose square does not exceed `n`.
pub open spec fn is_floor_sqrt(n: int, r: int) -> bool {
    0 <= r && r * r <= n < (r + 1) * (r + 1)
}

/// The largest integer whose square does not exceed `n`, for `n >= 0`.
pub open spec fn floor_sqrt(n: int) -> int {
    choose|r: int| is_floor_sqrt(n, r)
}

/// A fixed-point number with 32 fractional bits.
#[derive(Clone, Copy, Debug, PartialEq, Eq, Structural)]
pub struct Fixed {
    pub raw: i64,
}

// The four functions `spec_add`, `spec_sub`, `spec_mul` and
// `spec_euclidean_or_real_div` are what `+`, `-`, `*` and `/` between two
// fixed-point numbers mean in contracts; the operators of executable code are
// proved to compute them.
impl Fixed {
    /// Sum, clamped.
    pub open spec fn spec_add(self, rhs: Fixed) -> Fixed {
        Fixed { raw: sat(self.raw + rhs.raw) as i64 }
    }

    /// Difference, clamped.
    pub open spec fn spec_sub(self, rhs: Fixed) -> Fixed {
        Fixed { raw: sat(self.raw - rhs.raw) as i64 }
    }

    /// Product, rounded toward zero and clamped.
    pub open spec fn spec_mul(self, rhs: Fixed) -> Fixed {
        Fixed { raw: sat(trunc_div(self.raw * rhs.raw, ONE_RAW as int)) as i64 }
    }

    /// Quotient, rounded toward zero and clamped. A nonzero number divided by
    /// zero gives the extreme value of its sign, and zero divided by zero is
    /// zero.
    pub open spec fn spec_euclidean_or_real_div(self, rhs: Fixed) -> Fixed {
        if rhs.raw == 0 {
            if self.raw > 0 {
                Fixed { raw: i64::MAX }
            } else if self.raw < 0 {
                Fixed { raw: i64::MIN }
            } else {
                Fixed { raw: 0 }
            }
        } else {
            Fixed { raw: sat(trunc_div(self.raw * ONE_RAW, rhs.raw as int)) as i64 }
        }
    }

    /// Negation, clamped (only the least value has no exact negation).
    pub open spec fn negated(self) -> Fixed {
        Fixed { raw: sat(-self.raw) as i64 }
    }

    /// Absolute value, clamped.
    pub open spec fn magnitude(self) -> Fixed {
        if self.raw < 0 {
            self.negated()
        } else {
            self
        }
    }

    /// Square root rounded down to a representable value; zero for a number
    /// that is not positive.
    pub open spec fn root(self) -> Fixed {
        if self.raw <= 0 {
            Fixed { raw: 0 }
        } else {
            Fixed { raw: floor_sqrt(self.raw * ONE_RAW) as i64 }
        }
    }

    /// The fixed-point number equal to the integer `v`.
    pub open spec fn of_int(v: int) -> Fixed {
        Fixed { raw: sat(v * ONE_RAW) as i64 }
    }

    /// The nearest integer, halves rounded away from zero, clamped to `i32`.
    pub open spec fn rounded(self) -> int {
        let half = ONE_RAW / 2;
        let q = if self.raw >= 0 {
            (self.raw + half) / (ONE_RAW as int)
        } else {
            -((half - self.raw) / (ONE_RAW as int))
        };
        if q > i32::MAX as int {
            i32::MAX as int
        } else if q < i32::MIN as int {
            i32::MIN as int
        } else {
            q
        }
    }

    /// The number with the raw value `v`, clamped.
    pub fn from_wide(v: i128) -> (r: Fixed)
        ensures
            r.raw == sat(v as int),
    {
        Fixed { raw: clamp_raw(v) }
    }

    /// The number that the exact square `n` stands for.
    pub fn from_square(n: u128) -> (r: Fixed)
        ensures
            r == Fixed::of_square(n as int),
    {
        Fixed { raw: clamp_raw((n / 0x1_0000_0000) as i128) }
    }

    /// The number with the raw value `raw`.
    pub fn from_raw(raw: i64) -> (r: Fixed)
        ensures
            r.raw == raw,
    {
        Fixed { raw }
    }

    /// The number zero.
    pub fn zero() -> (r: Fixed)
        ensures
            r.raw == 0,
    {
        Fixed { raw: 0 }
    }

    /// The number one.
    pub fn one() -> (r: Fixed)
        ensures
            r.raw == ONE_RAW,
    {
        Fixed { raw: ONE_RAW }
    }

    /// Exact conversion of a 32-bit integer.
    pub fn from_int(v: i32) -> (r: Fixed)
        ensures
            r == Fixed::of_int(v as int),
            r.raw == v * ONE_RAW,
    {
        Fixed { raw: (v as i64) * 0x1_0000_0000 }
    }

    /// Conversion of a count, clamped to the greatest representable value.
    pub fn from_u64(v: u64) -> (r: Fixed)
        ensures
            r == Fixed::of_int(v as int),
    {
        if v > 0x7fff_ffff {
            Fixed { raw: i64::MAX }
        } else {
            Fixed { raw: (v as i64) * 0x1_0000_0000 }
        }
    }

    /// Absolute value; the least value, which has none, gives the greatest.
    pub fn abs(self) -> (r: Fixed)
        ensures
            r == self.magnitude(),
    {
        if self.raw < 0 {
            self.neg()
        } else {
            self
        }
    }

    /// The larger of two numbers.
    pub fn max(self, other: Fixed) -> (r: Fixed)
        ensures
            r.raw == if self.raw >= other.raw { self.raw } else { other.raw },
    {
        if self.raw >= other.raw {
            self
        } else {
            other
        }
    }

    /// The smaller of two numbers.
    pub fn min(self, other: Fixed) -> (r: Fixed)
        ensures
            r.raw == if self.raw <= other.raw { self.raw } else { other.raw },
    {
        if self.raw <= other.raw {
            self
        } else {
            other
        }
    }

    /// Square root, rounded down; zero for a number that is not positive.
    pub fn sqrt(self) -> (r: Fixed)
        ensures
            r == self.root(),
    {
        if self.raw <= 0 {
            Fixed { raw: 0 }
        } else {
            let n: u128 = (self.raw as u128) * 0x1_0000_0000;
            let s: u128 = isqrt(n);
            assert(s < 0x1_0000_0000_0000) by (nonlinear_arith)
                requires
                    s * s <= n,
                    n < 0x8000_0000_0000_0000 * 0x1_0000_0000,
            ;
            Fixed { raw: s as i64 }
        }
    }

    /// The length of the vector `(x, y)`: the square root of the exact sum
    /// of the squares, rounded down, and clamped only if the length itself
    /// is out of range.
    pub open spec fn spec_hypot(x: Fixed, y: Fixed) -> Fixed {
        Fixed { raw: sat(floor_sqrt(square_sum(x.raw as int, y.raw as int))) as i64 }
    }

    #[verifier::when_used_as_spec(spec_hypot)]
    pub fn hypot(x: Fixed, y: Fixed) -> (r: Fixed)
        ensures
            r == Fixed::spec_hypot(x, y),
    {
        let s: u128 = isqrt(square_sum_of(x, y));
        Fixed::from_wide(s as i128)
    }

    /// The softened length of the separation `(dx, dy)`: the square root of
    /// the exact softened square, rounded down.
    pub open spec fn spec_soft_hypot(dx: Fixed, dy: Fixed, eps2: Fixed) -> Fixed {
        Fixed { raw: sat(floor_sqrt(soft_square(dx.raw as int, dy.raw as int, eps2.raw as int))) as i64 }
    }

    #[verifier::when_used_as_spec(spec_soft_hypot)]
    pub fn soft_hypot(dx: Fixed, dy: Fixed, eps2: Fixed) -> (r: Fixed)
        ensures
            r == Fixed::spec_soft_hypot(dx, dy, eps2),
    {
        let s: u128 = isqrt(soft_square_of(dx, dy, eps2));
        Fixed::from_wide(s as i128)
    }

    /// The quotient of an exact square `n`, in the unit of a product of two
    /// raw values, by one: the number that `n` stands for, rounded down and
    /// clamped.
    pub open spec fn of_square(n: int) -> Fixed {
        Fixed { raw: sat(n / (ONE_RAW as int)) as i64 }
    }

    /// The sum of two products, `a` times `b` plus `c` times `d`, formed
    /// exactly and then rounded toward zero; only the sum is clamped.
    pub open spec fn spec_sum_of_products(a: Fixed, b: Fixed, c: Fixed, d: Fixed) -> Fixed {
        Fixed { raw: sat(trunc_div(a.raw * b.raw + c.raw * d.raw, ONE_RAW as int)) as i64 }
    }

    #[verifier::when_used_as_spec(spec_sum_of_products)]
    pub fn sum_of_products(a: Fixed, b: Fixed, c: Fixed, d: Fixed) -> (r: Fixed)
        ensures
            r == Fixed::spec_sum_of_products(a, b, c, d),
    {
        let p: i128 = wide_product(a, b);
        let q: i128 = wide_product(c, d);
        let top: i128 = 0x4000_0000_0000_0000_0000_0000_0000_0000;
        if p == top && q == top {
            Fixed { raw: i64::MAX }
        } else {
            Fixed { raw: clamp_raw((p + q) / 0x1_0000_0000) }
        }
    }

    /// Rounds to the nearest integer, halves away from zero, clamped to `i32`.
    pub fn round(self) -> (r: i32)
        ensures
            r == self.rounded(),
    {
        let half: i128 = 0x8000_0000;
        let q: i128 = if self.raw >= 0 {
            (self.raw as i128 + half) / 0x1_0000_0000
        } else {
            -((half - self.raw as i128) / 0x1_0000_0000)
        };
        if q > i32::MAX as i128 {
            i32::MAX
        } else if q < i32::MIN as i128 {
            i32::MIN
        } else {
            q as i32
        }
    }
}

/// A number has at most one floor square root.
pub proof fn lemma_floor_sqrt_unique(n: int, r1: int, r2: int)
    requires
        is_floor_sqrt(n, r1),
    ensures
        is_floor_sqrt(n, r2) ==> r1 == r2,
        is_floor_sqrt(n, floor_sqrt(n)),
{
    if is_floor_sqrt(n, r2) {
        assert(r1 == r2) by (nonlinear_arith)
            requires
                0 <= r1,
                0 <= r2,
                r1 * r1 <= n < (r1 + 1) * (r1 + 1),
                r2 * r2 <= n < (r2 + 1) * (r2 + 1),
        ;
    }
}

/// Every natural number has a floor square root.
pub proof fn lemma_floor_sqrt_exists(n: nat)
    ensures
        is_floor_sqrt(n as int, floor_sqrt(n as int)),
    decreases n,
{
    if n == 0 {
        assert(is_floor_sqrt(0, 0));
    } else {
        lemma_floor_sqrt_exists((n - 1) as nat);
        let r = floor_sqrt(n - 1);
        if (r + 1) * (r + 1) <= n {
            assert((r + 2) * (r + 2) > n) by (nonlinear_arith)
                requires
                    0 <= r,
                    n - 1 < (r + 1) * (r + 1),
            ;
            assert(is_floor_sqrt(n as int, r + 1));
        } else {
            assert(is_floor_sqrt(n as int, r));
        }
    }
}

/// The square root of a fixed-point number is not negative, and it is the
/// largest representable number whose square does not exceed the argument.
pub proof fn lemma_root(x: Fixed)
    ensures
        x.root().raw >= 0,
        x.raw > 0 ==> is_floor_sqrt(x.raw * ONE_RAW, x.root().raw as int),
{
    if x.raw > 0 {
        let n = x.raw * ONE_RAW;
        lemma_floor_sqrt_exists(n as nat);
        let r = floor_sqrt(n);
        assert(r < 0x1_0000_0000_0000) by (nonlinear_arith)
            requires
                0 <= r,
                r * r <= n,
                n < 0x8000_0000_0000_0000 * 0x1_0000_0000,
        ;
    }
}

/// The magnitude of an integer.
pub open spec fn abs_int(v: int) -> int {
    if v < 0 {
        -v
    } else {
        v
    }
}

/// Rounding toward zero loses less than one unit: the quotient of `a` by
/// `b` times `b` falls short of `a`, in magnitude, by less than `b`.
pub proof fn lemma_trunc_div_accuracy(a: int, b: int)
    requires
        b != 0,
    ensures
        abs_int(trunc_div(a, b)) * abs_int(b) <= abs_int(a) < (abs_int(trunc_div(a, b)) + 1)
            * abs_int(b),
        a >= 0 && b > 0 || a <= 0 && b < 0 ==> trunc_div(a, b) >= 0,
        a >= 0 && b < 0 || a <= 0 && b > 0 ==> trunc_div(a, b) <= 0,
{
    let n = abs_int(a);
    let d = abs_int(b);
    assert((n / d) * d <= n < (n / d + 1) * d && n / d >= 0) by (nonlinear_arith)
        requires
            n >= 0,
            d > 0,
    ;
}

/// A product that is not clamped is the exact product rounded toward zero:
/// it is off by less than one unit of the last place.
pub proof fn lemma_product_accuracy(a: Fixed, b: Fixed)
    requires
        i64::MIN < (a * b).raw < i64::MAX,
    ensures
        abs_int((a * b).raw as int) * ONE_RAW <= abs_int(a.raw * b.raw) < (abs_int(
            (a * b).raw as int,
        ) + 1) * ONE_RAW,
{
    lemma_trunc_div_accuracy(a.raw * b.raw, ONE_RAW as int);
}

/// A quotient that is not clamped is the exact quotient rounded toward
/// zero: it is off by less than one unit of the last place.
pub proof fn lemma_quotient_accuracy(a: Fixed, b: Fixed)
    requires
        b.raw != 0,
        i64::MIN < (a / b).raw < i64::MAX,
    ensures
        abs_int((a / b).raw as int) * abs_int(b.raw as int) <= abs_int(a.raw * ONE_RAW) < (abs_int(
            (a / b).raw as int,
        ) + 1) * abs_int(b.raw as int),
{
    lemma_trunc_div_accuracy(a.raw * ONE_RAW, b.raw as int);
}

/// The floor square root of a sum of squares is at least the magnitude of
/// each of the two numbers, and it is zero only if both are.
pub proof fn lemma_hypot_bounds(x: int, y: int)
    ensures
        is_floor_sqrt(square_sum(x, y), floor_sqrt(square_sum(x, y))),
        abs_int(x) <= floor_sqrt(square_sum(x, y)),
        abs_int(y) <= floor_sqrt(square_sum(x, y)),
        floor_sqrt(square_sum(x, y)) == 0 ==> x == 0 && y == 0,
{
    let n = square_sum(x, y);
    assert(n >= 0 && x * x >= 0 && y * y >= 0) by (nonlinear_arith)
        requires
            n == x * x + y * y,
    ;
    lemma_floor_sqrt_exists(n as nat);
    let r = floor_sqrt(n);
    let a = abs_int(x);
    let b = abs_int(y);
    assert(a <= r && b <= r) by (nonlinear_arith)
        requires
            0 <= r,
            n < (r + 1) * (r + 1),
            n == x * x + y * y,
            a == abs_int(x),
            b == abs_int(y),
    ;
}

/// What dividing a vector by its length gives: `ux` and `uy` are `x` and
/// `y`, as multiples of `one`, over the length `len` of `(x, y)`, rounded
/// toward zero. The result is at most two units longer than `one`, and adding
/// one unit to each component makes it longer than `one`.
pub proof fn lemma_normalised(x: int, y: int, len: int, one: int, ux: int, uy: int)
    requires
        is_floor_sqrt(square_sum(x, y), len),
        one > 0,
        2 * len >= one,
        ux == trunc_div(x * one, len),
        uy == trunc_div(y * one, len),
    ensures
        abs_int(ux) <= one,
        abs_int(uy) <= one,
        ux * ux + uy * uy <= (one + 2) * (one + 2),
        (abs_int(ux) + 1) * (abs_int(ux) + 1) + (abs_int(uy) + 1) * (abs_int(uy) + 1) > one * one,
        x >= 0 ==> ux >= 0,
        x <= 0 ==> ux <= 0,
        y >= 0 ==> uy >= 0,
        y <= 0 ==> uy <= 0,
{
    let n = square_sum(x, y);
    let a = abs_int(ux);
    let b = abs_int(uy);
    let xs = abs_int(x) * one;
    let ys = abs_int(y) * one;
    lemma_hypot_bounds(x, y);
    lemma_floor_sqrt_unique(n, len, floor_sqrt(n));
    assert((x >= 0 ==> x * one >= 0) && (x <= 0 ==> x * one <= 0) && (y >= 0 ==> y * one >= 0) && (y
        <= 0 ==> y * one <= 0)) by (nonlinear_arith)
        requires
            one > 0,
    ;
    lemma_trunc_div_accuracy(x * one, len);
    lemma_trunc_div_accuracy(y * one, len);
    assert(abs_int(x * one) == xs && abs_int(y * one) == ys) by (nonlinear_arith)
        requires
            one > 0,
            xs == abs_int(x) * one,
            ys == abs_int(y) * one,
    ;
    let pa = a * len;
    let pb = b * len;
    assert(a <= one && b <= one) by (nonlinear_arith)
        requires
            len > 0,
            0 <= a,
            0 <= b,
            a * len <= xs,
            b * len <= ys,
            xs == abs_int(x) * one,
            ys == abs_int(y) * one,
            abs_int(x) <= len,
            abs_int(y) <= len,
            one > 0,
    ;
    assert(pa * pa <= xs * xs && pb * pb <= ys * ys) by (nonlinear_arith)
        requires
            0 <= pa <= xs,
            0 <= pb <= ys,
    ;
    assert(pa * pa == (a * a) * (len * len) && pb * pb == (b * b) * (len * len)) by (nonlinear_arith)
        requires
            pa == a * len,
            pb == b * len,
    ;
    assert(xs * xs + ys * ys == (one * one) * n) by (nonlinear_arith)
        requires
            xs == abs_int(x) * one,
            ys == abs_int(y) * one,
            n == x * x + y * y,
    ;
    let q = a * a + b * b;
    assert(q * (len * len) <= (one * one) * n) by (nonlinear_arith)
        requires
            q == a * a + b * b,
            (a * a) * (len * len) + (b * b) * (len * len) <= (one * one) * n,
    ;
    let top = (one + 2) * len;
    let hi = one * (len + 1);
    assert(top >= hi && hi >= 0) by (nonlinear_arith)
        requires
            top == (one + 2) * len,
            hi == one * (len + 1),
            2 * len >= one,
            one > 0,
            len > 0,
    ;
    assert(top * top >= hi * hi) by (nonlinear_arith)
        requires
            top >= hi,
            hi >= 0,
    ;
    assert(hi * hi == (one * one) * ((len + 1) * (len + 1))) by (nonlinear_arith)
        requires
            hi == one * (len + 1),
    ;
    assert((one * one) * n < (one * one) * ((len + 1) * (len + 1))) by (nonlinear_arith)
        requires
            one > 0,
            n < (len + 1) * (len + 1),
    ;
    assert(top * top == ((one + 2) * (one + 2)) * (len * len)) by (nonlinear_arith)
        requires
            top == (one + 2) * len,
    ;
    assert(q <= (one + 2) * (one + 2)) by (nonlinear_arith)
        requires
            q * (len * len) < ((one + 2) * (one + 2)) * (len * len),
            len > 0,
    ;
    assert(ux * ux == a * a && uy * uy == b * b) by (nonlinear_arith)
        requires
            a == abs_int(ux),
            b == abs_int(uy),
    ;
    let ua = (a + 1) * len;
    let ub = (b + 1) * len;
    assert(ua * ua > xs * xs && ub * ub > ys * ys) by (nonlinear_arith)
        requires
            ua > xs,
            ub > ys,
            xs >= 0,
            ys >= 0,
    ;
    assert(ua * ua == ((a + 1) * (a + 1)) * (len * len) && ub * ub == ((b + 1) * (b + 1)) * (len
        * len)) by (nonlinear_arith)
        requires
            ua == (a + 1) * len,
            ub == (b + 1) * len,
    ;
    let w = (a + 1) * (a + 1) + (b + 1) * (b + 1);
    assert((one * one) * n >= (one * one) * (len * len)) by (nonlinear_arith)
        requires
            one > 0,
            n >= len * len,
    ;
    assert(w > one * one) by (nonlinear_arith)
        requires
            w == (a + 1) * (a + 1) + (b + 1) * (b + 1),
            ((a + 1) * (a + 1)) * (len * len) + ((b + 1) * (b + 1)) * (len * len) > (one * one) * (len
                * len),
            len > 0,
    ;
}

/// The least integer whose square is not below `n`, for `n >= 0`.
pub open spec fn ceil_sqrt(n: int) -> int {
    let r = floor_sqrt(n);
    if r * r == n {
        r
    } else {
        r + 1
    }
}

/// Scaling a vector by `m` over `c` scales its length by no more than that:
/// `sx` and `sy` are `x` and `y` times `m` over `c`, rounded toward zero,
/// and clamping them changes nothing in this.
pub proof fn lemma_scaled(x: int, y: int, m: int, c: int, sx: int, sy: int)
    requires
        c > 0,
        sx == trunc_div(x * m, c),
        sy == trunc_div(y * m, c),
    ensures
        square_sum(sx, sy) * (c * c) <= (m * m) * square_sum(x, y),
        square_sum(sat(sx), sat(sy)) <= square_sum(sx, sy),
        m >= 0 && x >= 0 ==> sx >= 0,
        m >= 0 && x <= 0 ==> sx <= 0,
        m >= 0 && y >= 0 ==> sy >= 0,
        m >= 0 && y <= 0 ==> sy <= 0,
{
    let n = square_sum(x, y);
    let a = abs_int(sx);
    let b = abs_int(sy);
    let xs = abs_int(x * m);
    let ys = abs_int(y * m);
    lemma_trunc_div_accuracy(x * m, c);
    lemma_trunc_div_accuracy(y * m, c);
    if m >= 0 {
        assert((x >= 0 ==> x * m >= 0) && (x <= 0 ==> x * m <= 0) && (y >= 0 ==> y * m >= 0) && (y
            <= 0 ==> y * m <= 0)) by (nonlinear_arith)
            requires
                m >= 0,
        ;
    }
    let pa = a * c;
    let pb = b * c;
    assert(pa * pa <= xs * xs && pb * pb <= ys * ys) by (nonlinear_arith)
        requires
            0 <= pa <= xs,
            0 <= pb <= ys,
    ;
    assert(pa * pa == (a * a) * (c * c) && pb * pb == (b * b) * (c * c)) by (nonlinear_arith)
        requires
            pa == a * c,
            pb == b * c,
    ;
    assert(xs * xs + ys * ys == (m * m) * n) by (nonlinear_arith)
        requires
            xs == abs_int(x * m),
            ys == abs_int(y * m),
            n == x * x + y * y,
    ;
    assert(sx * sx == a * a && sy * sy == b * b) by (nonlinear_arith)
        requires
            a == abs_int(sx),
            b == abs_int(sy),
    ;
    assert((a * a + b * b) * (c * c) == (a * a) * (c * c) + (b * b) * (c * c)) by (nonlinear_arith);
    let fa = abs_int(sat(sx));
    let fb = abs_int(sat(sy));
    assert(sat(sx) * sat(sx) <= a * a && sat(sy) * sat(sy) <= b * b) by (nonlinear_arith)
        requires
            0 <= fa <= a,
            0 <= fb <= b,
            fa == abs_int(sat(sx)),
            fb == abs_int(sat(sy)),
    ;
}

/// A vector scaled by `m` over a number `c` that is not below its length is
/// not longer than `m`.
pub proof fn lemma_scaled_to_cap(x: int, y: int, m: int, c: int, sx: int, sy: int)
    requires
        c > 0,
        c * c >= square_sum(x, y),
        sx == trunc_div(x * m, c),
        sy == trunc_div(y * m, c),
    ensures
        square_sum(sx, sy) <= m * m,
        square_sum(sat(sx), sat(sy)) <= m * m,
{
    let n = square_sum(x, y);
    let q = square_sum(sx, sy);
    lemma_scaled(x, y, m, c, sx, sy);
    assert(q >= 0 && n >= 0) by (nonlinear_arith)
        requires
            q == sx * sx + sy * sy,
            n == x * x + y * y,
    ;
    assert(q <= m * m) by (nonlinear_arith)
        requires
            q * (c * c) <= (m * m) * n,
            n <= c * c,
            c > 0,
            q >= 0,
            n >= 0,
    ;
}

/// A product has the sign that its factors give it, or is zero.
pub proof fn lemma_product_sign(a: Fixed, b: Fixed)
    ensures
        (a.raw >= 0 && b.raw >= 0) || (a.raw <= 0 && b.raw <= 0) ==> (a * b).raw >= 0,
        (a.raw >= 0 && b.raw <= 0) || (a.raw <= 0 && b.raw >= 0) ==> (a * b).raw <= 0,
{
    let p = a.raw * b.raw;
    if (a.raw >= 0 && b.raw >= 0) || (a.raw <= 0 && b.raw <= 0) {
        assert(p >= 0) by (nonlinear_arith)
            requires
                (a.raw >= 0 && b.raw >= 0) || (a.raw <= 0 && b.raw <= 0),
                p == a.raw * b.raw,
        ;
        vstd::arithmetic::div_mod::lemma_div_pos_is_pos(p, ONE_RAW as int);
    }
    if (a.raw >= 0 && b.raw <= 0) || (a.raw <= 0 && b.raw >= 0) {
        assert(p <= 0) by (nonlinear_arith)
            requires
                (a.raw >= 0 && b.raw <= 0) || (a.raw <= 0 && b.raw >= 0),
                p == a.raw * b.raw,
        ;
        vstd::arithmetic::div_mod::lemma_div_pos_is_pos(-p, ONE_RAW as int);
    }
}

/// A quotient by a number that is not negative has the sign of the dividend,
/// or is zero.
pub proof fn lemma_quotient_sign(a: Fixed, b: Fixed)
    requires
        b.raw >= 0,
    ensures
        a.raw >= 0 ==> (a / b).raw >= 0,
        a.raw <= 0 ==> (a / b).raw <= 0,
{
    if b.raw != 0 {
        if a.raw >= 0 {
            vstd::arithmetic::div_mod::lemma_div_pos_is_pos(a.raw * ONE_RAW, b.raw as int);
        }
        if a.raw <= 0 {
            vstd::arithmetic::div_mod::lemma_div_pos_is_pos(-(a.raw * ONE_RAW), b.raw as int);
        }
    }
}

/// The exact product of two raw values.
fn wide_product(a: Fixed, b: Fixed) -> (p: i128)
    ensures
        p == a.raw * b.raw,
        -0x4000_0000_0000_0000_0000_0000_0000_0000 <= p <= 0x4000_0000_0000_0000_0000_0000_0000_0000,
{
    let x: i128 = a.raw as i128;
    let y: i128 = b.raw as i128;
    assert(-0x4000_0000_0000_0000_0000_0000_0000_0000 <= x * y
        <= 0x4000_0000_0000_0000_0000_0000_0000_0000) by (nonlinear_arith)
        requires
            -0x8000_0000_0000_0000 <= x <= 0x8000_0000_0000_0000,
            -0x8000_0000_0000_0000 <= y <= 0x8000_0000_0000_0000,
    ;
    x * y
}

/// The magnitude of a raw value.
pub fn magnitude_of(v: i64) -> (r: u128)
    ensures
        r == abs_int(v as int),
        r <= 0x8000_0000_0000_0000,
{
    if v < 0 {
        (-(v as i128)) as u128
    } else {
        v as u128
    }
}

/// The exact sum of the squares of two raw values. It is formed in 128
/// bits, where it always fits, so nothing is clamped and nothing rounded.
pub open spec fn square_sum(x: int, y: int) -> int {
    x * x + y * y
}

/// The exact sum of the squares of the raw values of `x` and `y`.
pub fn square_sum_of(x: Fixed, y: Fixed) -> (n: u128)
    ensures
        n == square_sum(x.raw as int, y.raw as int),
        n <= 0x8000_0000_0000_0000_0000_0000_0000_0000,
{
    let a: u128 = magnitude_of(x.raw);
    let b: u128 = magnitude_of(y.raw);
    assert(a * a == x.raw * x.raw && a * a <= 0x4000_0000_0000_0000_0000_0000_0000_0000)
        by (nonlinear_arith)
        requires
            a == abs_int(x.raw as int),
            a <= 0x8000_0000_0000_0000,
    ;
    assert(b * b == y.raw * y.raw && b * b <= 0x4000_0000_0000_0000_0000_0000_0000_0000)
        by (nonlinear_arith)
        requires
            b == abs_int(y.raw as int),
            b <= 0x8000_0000_0000_0000,
    ;
    a * a + b * b
}

/// The exact sum of the squares of two raw values plus the softening
/// `eps2`, in the unit of a product of two raw values; zero if a negative
/// softening makes it negative.
pub open spec fn soft_square(dx: int, dy: int, eps2: int) -> int {
    let n = dx * dx + dy * dy + eps2 * ONE_RAW;
    if n < 0 {
        0
    } else {
        n
    }
}

/// The exact softened square of the separation `(dx, dy)`.
pub fn soft_square_of(dx: Fixed, dy: Fixed, eps2: Fixed) -> (n: u128)
    ensures
        n == soft_square(dx.raw as int, dy.raw as int, eps2.raw as int),
{
    let sq: u128 = square_sum_of(dx, dy);
    let e: u128 = magnitude_of(eps2.raw) * 0x1_0000_0000;
    if eps2.raw >= 0 {
        sq + e
    } else if sq > e {
        sq - e
    } else {
        0
    }
}

/// Floor square root by bisection.
pub fn isqrt(n: u128) -> (r: u128)
    ensures
        is_floor_sqrt(n as int, r as int),
        r == floor_sqrt(n as int),
        r < 0x1_0000_0000_0000_0000,
{
    let mut lo: u128 = 0;
    let mut hi: u128 = 0x1_0000_0000_0000_0000;
    assert(0x1_0000_0000_0000_0000int * 0x1_0000_0000_0000_0000int
        == 0x1_0000_0000_0000_0000_0000_0000_0000_0000int);
    while hi - lo > 1
        invariant
            lo < hi <= 0x1_0000_0000_0000_0000,
            lo * lo <= n < hi * hi,
        decreases hi - lo,
    {
        let mid: u128 = lo + (hi - lo) / 2;
        assert(mid * mid < 0x1_0000_0000_0000_0000_0000_0000_0000_0000) by (nonlinear_arith)
            requires
                0 <= mid < 0x1_0000_0000_0000_0000,
        ;
        if mid * mid <= n {
            lo = mid;
        } else {
            hi = mid;
        }
    }
    proof {
        lemma_floor_sqrt_unique(n as int, lo as int, floor_sqrt(n as int));
    }
    lo
}

fn clamp_raw(v: i128) -> (r: i64)
    ensures
        r == sat(v as int),
{
    if v > i64::MAX as i128 {
        i64::MAX
    } else if v < i64::MIN as i128 {
        i64::MIN
    } else {
        v as i64
    }
}

impl vstd::std_specs::ops::AddSpecImpl for Fixed {
    open spec fn obeys_add_spec() -> bool {
        true
    }

    open spec fn add_req(self, rhs: Fixed) -> bool {
        true
    }

    open spec fn add_spec(self, rhs: Fixed) -> Fixed {
        self + rhs
    }
}

impl core::ops::Add for Fixed {
    type Output = Fixed;

    fn add(self, rhs: Fixed) -> (r: Fixed) {
        Fixed { raw: clamp_raw(self.raw as i128 + rhs.raw as i128) }
    }
}

impl vstd::std_specs::ops::SubSpecImpl for Fixed {
    open spec fn obeys_sub_spec() -> bool {
        true
    }

    open spec fn sub_req(self, rhs: Fixed) -> bool {
        true
    }

    open spec fn sub_spec(self, rhs: Fixed) -> Fixed {
        self - rhs
    }
}

impl core::ops::Sub for Fixed {
    type Output = Fixed;

    fn sub(self, rhs: Fixed) -> (r: Fixed) {
        Fixed { raw: clamp_raw(self.raw as i128 - rhs.raw as i128) }
    }
}

impl vstd::std_specs::ops::NegSpecImpl for Fixed {
    open spec fn obeys_neg_spec() -> bool {
        true
    }

    open spec fn neg_req(self) -> bool {
        true
    }

    open spec fn neg_spec(self) -> Fixed {
        self.negated()
    }
}

impl core::ops::Neg for Fixed {
    type Output = Fixed;

    fn neg(self) -> (r: Fixed) {
        Fixed { raw: clamp_raw(-(self.raw as i128)) }
    }
}

impl vstd::std_specs::ops::MulSpecImpl for Fixed {
    open spec fn obeys_mul_spec() -> bool {
        true
    }

    open spec fn mul_req(self, rhs: Fixed) -> bool {
        true
    }

    open spec fn mul_spec(self, rhs: Fixed) -> Fixed {
        self * rhs
    }
}

impl core::ops::Mul for Fixed {
    type Output = Fixed;

    fn mul(self, rhs: Fixed) -> (r: Fixed) {
        let a: i128 = self.raw as i128;
        let b: i128 = rhs.raw as i128;
        assert(-0x4000_0000_0000_0000_0000_0000_0000_0000 <= a * b
            <= 0x4000_0000_0000_0000_0000_0000_0000_0000) by (nonlinear_arith)
            requires
                -0x8000_0000_0000_0000 <= a <= 0x8000_0000_0000_0000,
                -0x8000_0000_0000_0000 <= b <= 0x8000_0000_0000_0000,
        ;
        let p: i128 = a * b;
        Fixed { raw: clamp_raw(p / (ONE_RAW as i128)) }
    }
}

impl vstd::std_specs::ops::DivSpecImpl for Fixed {
    open spec fn obeys_div_spec() -> bool {
        true
    }

    open spec fn div_req(self, rhs: Fixed) -> bool {
        true
    }

    open spec fn div_spec(self, rhs: Fixed) -> Fixed {
        self / rhs
    }
}

impl core::ops::Div for Fixed {
    type Output = Fixed;

    fn div(self, rhs: Fixed) -> (r: Fixed) {
        if rhs.raw == 0 {
            if self.raw > 0 {
                Fixed { raw: i64::MAX }
            } else if self.raw < 0 {
                Fixed { raw: i64::MIN }
            } else {
                Fixed { raw: 0 }
            }
        } else {
            let n: i128 = (self.raw as i128) * 0x1_0000_0000;
            let d: i128 = rhs.raw as i128;
            let q: i128 = if d < 0 {
                (-n) / (-d)
            } else {
                n / d
            };
            Fixed { raw: clamp_raw(q) }
        }
    }
}

} // verus!
