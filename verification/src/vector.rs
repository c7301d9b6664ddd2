//! Points and vectors of the plane with fixed-point coordinates.

use vstd::arithmetic::div_mod::{
    lemma_fundamental_div_mod, lemma_fundamental_div_mod_converse, lemma_mod_bound,
    lemma_mod_multiples_basic, lemma_small_mod,
};
use vstd::prelude::*;
use crate::fixed::{
    abs, is_sqrt_ceil, lemma_div_bounds, lemma_mul_div_le, lemma_sqrt_ceil_exists,
    lemma_sqrt_ceil_le, lemma_square_monotonic, mul_div, sqrt_ceil, sqrt_ceil_u128,
};

verus! {

/// A position in the plane.
#[derive(Clone, Copy, Debug, PartialEq, Eq, Structural)]
pub struct Point2 {
    pub x: i64,
    pub y: i64,
}

/// The largest coordinate of a position: one million.
pub const COORD_MAX: i64 = 1_000_000_000_000;

impl Point2 {
    /// Both coordinates are within the range in which distances are
    /// computed.
    pub open spec fn wf(self) -> bool {
        &&& -COORD_MAX <= self.x <= COORD_MAX
        &&& -COORD_MAX <= self.y <= COORD_MAX
    }

    /// Tells whether both coordinates are within range.
    pub fn is_valid(&self) -> (r: bool)
        ensures
            r == self.wf(),
    {
        -COORD_MAX <= self.x && self.x <= COORD_MAX && -COORD_MAX <= self.y && self.y
            <= COORD_MAX
    }

    /// The vector that leads from this point to `to`.
    pub open spec fn spec_offset_to(self, to: Point2) -> Vector2 {
        Vector2 { x: (to.x - self.x) as i64, y: (to.y - self.y) as i64 }
    }

    /// The vector that leads from this point to `to`.
    pub fn offset_to(&self, to: &Point2) -> (v: Vector2)
        requires
            self.wf(),
            to.wf(),
        ensures
            v == self.spec_offset_to(*to),
            v.x == to.x - self.x,
            v.y == to.y - self.y,
            v.spec_norm_sq() == dist_sq(*self, *to),
    {
        let v = Vector2 { x: to.x - self.x, y: to.y - self.y };
        proof {
            lemma_dist_sq_symmetric(*self, *to);
        }
        v
    }

    /// Whether `other` lies closer to this point than `radius`.
    pub open spec fn spec_within(self, other: Point2, radius: int) -> bool {
        0 < radius && dist_sq(self, other) < radius * radius
    }

    /// Whether `other` lies closer to this point than `radius`.
    pub fn within(&self, other: &Point2, radius: i64) -> (r: bool)
        requires
            self.wf(),
            other.wf(),
        ensures
            r == self.spec_within(*other, radius as int),
    {
        if radius <= 0 {
            return false;
        }
        let d = self.offset_to(other).norm_squared();
        proof {
            lemma_dist_sq_symmetric(*self, *other);
            lemma_square_monotonic(radius as int, i64::MAX as int);
        }
        d < (radius as u128) * (radius as u128)
    }
}

/// The distance from `a` to `b` is the distance from `b` to `a`.
pub proof fn lemma_dist_sq_symmetric(a: Point2, b: Point2)
    ensures
        dist_sq(a, b) == dist_sq(b, a),
        0 <= dist_sq(a, b),
{
    let dx = a.x - b.x;
    let dy = a.y - b.y;
    assert(dx * dx == (-dx) * (-dx)) by (nonlinear_arith);
    assert(dy * dy == (-dy) * (-dy)) by (nonlinear_arith);
    assert(0 <= dx * dx && 0 <= dy * dy) by (nonlinear_arith);
}

/// Two well-formed points are at most three times the largest coordinate
/// apart.
pub proof fn lemma_offset_bounds(a: Point2, b: Point2)
    requires
        a.wf(),
        b.wf(),
    ensures
        a.spec_offset_to(b).x == b.x - a.x,
        a.spec_offset_to(b).y == b.y - a.y,
        a.spec_offset_to(b).spec_norm_sq() == dist_sq(a, b),
        0 <= dist_sq(a, b) <= 8_000_000_000_000_000_000_000_000,
        0 <= a.spec_offset_to(b).spec_magnitude() <= 3 * COORD_MAX,
{
    let v = a.spec_offset_to(b);
    lemma_dist_sq_symmetric(a, b);
    let dx = abs(v.x as int);
    let dy = abs(v.y as int);
    lemma_square_monotonic(dx, 2_000_000_000_000);
    lemma_square_monotonic(dy, 2_000_000_000_000);
    assert(2_000_000_000_000int * 2_000_000_000_000int == 4_000_000_000_000_000_000_000_000int);
    assert(3_000_000_000_000int * 3_000_000_000_000int == 9_000_000_000_000_000_000_000_000int);
    assert(dist_sq(b, a) == v.x * v.x + v.y * v.y);
    assert(dx * dx == v.x * v.x) by (nonlinear_arith)
        requires
            dx == v.x as int || dx == -(v.x as int),
    ;
    assert(dy * dy == v.y * v.y) by (nonlinear_arith)
        requires
            dy == v.y as int || dy == -(v.y as int),
    ;
    lemma_sqrt_ceil_exists(v.spec_norm_sq());
    lemma_sqrt_ceil_le(v.spec_norm_sq(), v.spec_magnitude(), 3 * COORD_MAX);
}

/// The world is well formed: on both axes it reaches from a lower bound to
/// a greater upper bound, both within the range of coordinates.
pub open spec fn world_wf(x: (i64, i64), y: (i64, i64)) -> bool {
    &&& -COORD_MAX <= x.0 < x.1 <= COORD_MAX
    &&& -COORD_MAX <= y.0 < y.1 <= COORD_MAX
}

/// Tells whether the world is well formed.
pub fn is_world_valid(x: (i64, i64), y: (i64, i64)) -> (r: bool)
    ensures
        r == world_wf(x, y),
{
    -COORD_MAX <= x.0 && x.0 < x.1 && x.1 <= COORD_MAX && -COORD_MAX <= y.0 && y.0 < y.1 && y.1
        <= COORD_MAX
}

/// The coordinate `p` carried into the interval from `lo` up to, and not
/// including, `hi`, by as many whole widths of the interval as it takes.
pub open spec fn wrap(p: int, lo: int, hi: int) -> int {
    lo + (p - lo) % (hi - lo)
}

/// A wrapped coordinate lies in the interval, and differs from the
/// coordinate by a whole number of widths; one in the interval stays.
pub proof fn lemma_wrap(p: int, lo: int, hi: int)
    requires
        lo < hi,
    ensures
        lo <= wrap(p, lo, hi) < hi,
        (p - wrap(p, lo, hi)) % (hi - lo) == 0,
        lo <= p < hi ==> wrap(p, lo, hi) == p,
{
    let w = hi - lo;
    let d = p - lo;
    lemma_fundamental_div_mod(d, w);
    lemma_mod_bound(d, w);
    lemma_mod_multiples_basic(d / w, w);
    assert(p - wrap(p, lo, hi) == (d / w) * w) by (nonlinear_arith)
        requires
            d == w * (d / w) + d % w,
            p - wrap(p, lo, hi) == d - d % w,
    ;
    if lo <= p < hi {
        lemma_small_mod(d as nat, w as nat);
    }
}

/// Carries the coordinate `p` into the interval from `lo` up to `hi`.
pub fn wrap_coordinate(p: i64, lo: i64, hi: i64) -> (r: i64)
    requires
        lo < hi,
        -COORD_MAX <= lo,
        hi <= COORD_MAX,
    ensures
        r == wrap(p as int, lo as int, hi as int),
        lo <= r < hi,
{
    let w: i128 = hi as i128 - lo as i128;
    let d: i128 = p as i128 - lo as i128;
    proof {
        lemma_wrap(p as int, lo as int, hi as int);
    }
    if d >= 0 {
        (lo as i128 + d % w) as i64
    } else {
        let m: i128 = (-d) % w;
        proof {
            let di = d as int;
            let wi = w as int;
            let mi = m as int;
            let q = (-di) / wi;
            lemma_fundamental_div_mod(-di, wi);
            lemma_mod_bound(-di, wi);
            if mi == 0 {
                assert(di == (-q) * wi + 0) by (nonlinear_arith)
                    requires
                        -di == wi * q + 0,
                ;
                lemma_fundamental_div_mod_converse(di, wi, -q, 0);
            } else {
                assert(di == (-q - 1) * wi + (wi - mi)) by (nonlinear_arith)
                    requires
                        -di == wi * q + mi,
                ;
                lemma_fundamental_div_mod_converse(di, wi, -q - 1, wi - mi);
            }
        }
        if m == 0 {
            lo
        } else {
            (hi as i128 - m) as i64
        }
    }
}

/// A displacement in the plane.
#[derive(Clone, Copy, Debug, PartialEq, Eq, Structural)]
pub struct Vector2 {
    pub x: i64,
    pub y: i64,
}

/// The square of the Euclidean length of the vector `(x, y)`.
pub open spec fn norm_sq(x: int, y: int) -> int {
    x * x + y * y
}

/// The square of the Euclidean distance between two points.
pub open spec fn dist_sq(a: Point2, b: Point2) -> int {
    norm_sq(a.x - b.x, a.y - b.y)
}

/// The component `c` of a vector of length `n`, after the vector was
/// stretched or shrunk to the length `m`; rounded toward zero.
pub open spec fn rescale(c: int, m: int, n: int) -> int {
    if c >= 0 {
        (c * m) / n
    } else {
        -(((-c) * m) / n)
    }
}

impl Vector2 {
    /// The square of the vector's length.
    pub open spec fn spec_norm_sq(self) -> int {
        norm_sq(self.x as int, self.y as int)
    }

    /// The vector's length, rounded up to the next fixed-point step.
    pub open spec fn spec_magnitude(self) -> int {
        sqrt_ceil(self.spec_norm_sq())
    }

    /// The vector that points the same way and has the length `m`. The zero
    /// vector points nowhere and stays as it is. Both components are rounded
    /// toward zero, so the result is never longer than `m`.
    pub open spec fn spec_with_magnitude(self, m: int) -> Vector2 {
        let n = self.spec_magnitude();
        if n == 0 {
            self
        } else {
            Vector2 {
                x: rescale(self.x as int, m, n) as i64,
                y: rescale(self.y as int, m, n) as i64,
            }
        }
    }

    /// The sum of two vectors.
    pub open spec fn spec_plus(self, other: Vector2) -> Vector2 {
        Vector2 { x: (self.x + other.x) as i64, y: (self.y + other.y) as i64 }
    }

    /// The sum of two vectors.
    pub fn plus(&self, other: &Vector2) -> (r: Vector2)
        requires
            i64::MIN <= self.x + other.x <= i64::MAX,
            i64::MIN <= self.y + other.y <= i64::MAX,
        ensures
            r == self.spec_plus(*other),
            r.x == self.x + other.x,
            r.y == self.y + other.y,
    {
        Vector2 { x: self.x + other.x, y: self.y + other.y }
    }

    /// The zero vector.
    pub fn zero() -> (v: Vector2)
        ensures
            v == (Vector2 { x: 0, y: 0 }),
    {
        Vector2 { x: 0, y: 0 }
    }

    /// The square of the vector's length.
    pub fn norm_squared(&self) -> (r: u128)
        ensures
            r as int == self.spec_norm_sq(),
            r <= 0x8000_0000_0000_0000_0000_0000_0000_0000,
    {
        let ax: u128 = abs_u64(self.x) as u128;
        let ay: u128 = abs_u64(self.y) as u128;
        proof {
            lemma_square_monotonic(ax as int, 0x8000_0000_0000_0000);
            lemma_square_monotonic(ay as int, 0x8000_0000_0000_0000);
            assert(ax as int * ax as int == self.x as int * self.x as int) by (nonlinear_arith)
                requires
                    ax as int == self.x as int || ax as int == -(self.x as int),
            ;
            assert(ay as int * ay as int == self.y as int * self.y as int) by (nonlinear_arith)
                requires
                    ay as int == self.y as int || ay as int == -(self.y as int),
            ;
        }
        ax * ax + ay * ay
    }

    /// The vector's length, rounded up to the next fixed-point step.
    pub fn magnitude(&self) -> (r: u64)
        ensures
            r as int == self.spec_magnitude(),
            is_sqrt_ceil(self.spec_norm_sq(), r as int),
    {
        sqrt_ceil_u128(self.norm_squared())
    }

    /// The vector that points the same way and has the length `m`; see
    /// [`Vector2::spec_with_magnitude`].
    pub fn with_magnitude(&self, m: i64) -> (r: Vector2)
        requires
            0 <= m,
        ensures
            r == self.spec_with_magnitude(m as int),
            r.spec_norm_sq() <= m * m,
            abs(r.x as int) <= m,
            abs(r.y as int) <= m,
    {
        let n = self.magnitude();
        proof {
            lemma_with_magnitude_bound(*self, m as int);
        }
        if n == 0 {
            *self
        } else {
            proof {
                lemma_component_le_magnitude(*self);
            }
            let qx = mul_div(abs_u64(self.x), m as u64, n);
            let qy = mul_div(abs_u64(self.y), m as u64, n);
            Vector2 {
                x: if self.x >= 0 { qx as i64 } else { -(qx as i64) },
                y: if self.y >= 0 { qy as i64 } else { -(qy as i64) },
            }
        }
    }
}

/// The absolute value of `a`.
pub fn abs_u64(a: i64) -> (r: u64)
    ensures
        r as int == abs(a as int),
{
    if a >= 0 {
        a as u64
    } else {
        (-(a as i128)) as u64
    }
}

/// The square of a product is the product of the squares.
pub proof fn lemma_square_of_product(a: int, b: int)
    by (nonlinear_arith)
    ensures
        (a * b) * (a * b) == (a * a) * (b * b),
{
}

/// No component of a vector is longer than the vector.
pub proof fn lemma_component_le_magnitude(v: Vector2)
    ensures
        abs(v.x as int) <= v.spec_magnitude(),
        abs(v.y as int) <= v.spec_magnitude(),
        0 <= v.spec_magnitude(),
        v.spec_magnitude() == 0 <==> (v.x == 0 && v.y == 0),
{
    let s = v.spec_norm_sq();
    let n = v.spec_magnitude();
    lemma_sqrt_ceil_exists(s);
    let ax = abs(v.x as int);
    let ay = abs(v.y as int);
    assert(ax * ax == v.x * v.x) by (nonlinear_arith)
        requires
            ax == v.x as int || ax == -(v.x as int),
    ;
    assert(ay * ay == v.y * v.y) by (nonlinear_arith)
        requires
            ay == v.y as int || ay == -(v.y as int),
    ;
    assert(0 <= ax * ax && 0 <= ay * ay) by (nonlinear_arith);
    if ax > n {
        lemma_square_monotonic(n + 1, ax);
        assert((n + 1) * (n + 1) > n * n) by (nonlinear_arith)
            requires
                0 <= n,
        ;
    }
    if ay > n {
        lemma_square_monotonic(n + 1, ay);
        assert((n + 1) * (n + 1) > n * n) by (nonlinear_arith)
            requires
                0 <= n,
        ;
    }
    if v.x != 0 || v.y != 0 {
        assert(ax * ax + ay * ay >= 1) by (nonlinear_arith)
            requires
                ax >= 1 || ay >= 1,
                ax >= 0,
                ay >= 0,
        ;
    }
}

/// A vector brought to the length `m` is no longer than `m`, and neither
/// component is.
pub proof fn lemma_with_magnitude_bound(v: Vector2, m: int)
    requires
        0 <= m <= i64::MAX,
    ensures
        v.spec_with_magnitude(m).spec_norm_sq() <= m * m,
        v.spec_with_magnitude(m).spec_magnitude() <= m,
        abs(v.spec_with_magnitude(m).x as int) <= m,
        abs(v.spec_with_magnitude(m).y as int) <= m,
        v.spec_magnitude() != 0 ==> v.spec_with_magnitude(m).x == rescale(
            v.x as int,
            m,
            v.spec_magnitude(),
        ),
        v.spec_magnitude() != 0 ==> v.spec_with_magnitude(m).y == rescale(
            v.y as int,
            m,
            v.spec_magnitude(),
        ),
{
    let n = v.spec_magnitude();
    let s = v.spec_norm_sq();
    lemma_sqrt_ceil_exists(s);
    lemma_component_le_magnitude(v);
    let r = v.spec_with_magnitude(m);
    assert(0 <= m * m) by (nonlinear_arith);
    assert(n > 0 ==> n * n > 0) by (nonlinear_arith);
    if n == 0 {
        assert(r.spec_norm_sq() == 0);
    } else {
        let ax = abs(v.x as int);
        let ay = abs(v.y as int);
        let qx = (ax * m) / n;
        let qy = (ay * m) / n;
        lemma_mul_div_le(ax, m, n);
        lemma_mul_div_le(ay, m, n);
        lemma_div_bounds(ax * m, n);
        lemma_div_bounds(ay * m, n);
        assert(rescale(v.x as int, m, n) == if v.x >= 0 { qx } else { -qx });
        assert(rescale(v.y as int, m, n) == if v.y >= 0 { qy } else { -qy });
        assert(r.x as int == rescale(v.x as int, m, n));
        assert(r.y as int == rescale(v.y as int, m, n));
        assert(r.spec_norm_sq() == qx * qx + qy * qy) by (nonlinear_arith)
            requires
                r.x as int == qx || r.x as int == -qx,
                r.y as int == qy || r.y as int == -qy,
                r.spec_norm_sq() == r.x as int * r.x as int + r.y as int * r.y as int,
        ;
        assert(s == ax * ax + ay * ay) by (nonlinear_arith)
            requires
                ax == v.x as int || ax == -(v.x as int),
                ay == v.y as int || ay == -(v.y as int),
                s == v.x as int * v.x as int + v.y as int * v.y as int,
        ;
        // (qx * n)^2 <= (ax * m)^2, and likewise for y
        lemma_square_monotonic(qx * n, ax * m);
        lemma_square_monotonic(qy * n, ay * m);
        lemma_square_of_product(qx, n);
        lemma_square_of_product(qy, n);
        lemma_square_of_product(ax, m);
        lemma_square_of_product(ay, m);
        let n2 = n * n;
        let m2 = m * m;
        assert((qx * qx + qy * qy) * n2 == (qx * qx) * n2 + (qy * qy) * n2) by (nonlinear_arith);
        assert((ax * ax + ay * ay) * m2 == (ax * ax) * m2 + (ay * ay) * m2) by (nonlinear_arith);
        assert((ax * ax + ay * ay) * m2 <= n2 * m2) by (nonlinear_arith)
            requires
                ax * ax + ay * ay <= n2,
                0 <= m2,
        ;
        assert(qx * qx + qy * qy <= m2) by (nonlinear_arith)
            requires
                (qx * qx + qy * qy) * n2 <= n2 * m2,
                n2 > 0,
        ;
    }
    lemma_sqrt_ceil_exists(r.spec_norm_sq());
    lemma_sqrt_ceil_le(r.spec_norm_sq(), r.spec_magnitude(), m);
}

} // verus!
