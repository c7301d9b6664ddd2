//! Fixed-point numbers and the integer square root.

use vstd::prelude::*;

verus! {

/// The fixed-point representation of the real number one.
pub const UNIT: i64 = 1_000_000;

/// The largest argument that [`sqrt_ceil_u128`] accepts: the square of `u64::MAX`.
pub const SQRT_ARG_MAX: u128 = 0xffff_ffff_ffff_fffe_0000_0000_0000_0001;

/// `r` is the square root of `n`, rounded up to the next integer.
pub open spec fn is_sqrt_ceil(n: int, r: int) -> bool {
    &&& 0 <= r
    &&& r * r >= n
    &&& (r == 0 || (r - 1) * (r - 1) < n)
}

/// The square root of `n`, rounded up: the least natural number whose square
/// is at least `n`.
pub open spec fn sqrt_ceil(n: int) -> int {
    choose|r: int| is_sqrt_ceil(n, r)
}

/// Squaring is monotonic on the natural numbers.
pub proof fn lemma_square_monotonic(a: int, b: int)
    by (nonlinear_arith)
    requires
        0 <= a <= b,
    ensures
        a * a <= b * b,
{
}

/// At most one number is the rounded-up square root of `n`.
pub proof fn lemma_sqrt_ceil_unique(n: int, r1: int, r2: int)
    requires
        is_sqrt_ceil(n, r1),
        is_sqrt_ceil(n, r2),
    ensures
        r1 == r2,
{
    if r1 < r2 {
        lemma_square_monotonic(r1, r2 - 1);
    } else if r2 < r1 {
        lemma_square_monotonic(r2, r1 - 1);
    }
}

/// Whoever holds a rounded-up square root of `n` holds `sqrt_ceil(n)`.
pub proof fn lemma_sqrt_ceil_is(n: int, r: int)
    requires
        is_sqrt_ceil(n, r),
    ensures
        sqrt_ceil(n) == r,
{
    let c = sqrt_ceil(n);
    assert(is_sqrt_ceil(n, c));
    lemma_sqrt_ceil_unique(n, c, r);
}

/// Every number has a rounded-up square root, and `sqrt_ceil` is it.
pub proof fn lemma_sqrt_ceil_exists(n: int)
    ensures
        is_sqrt_ceil(n, sqrt_ceil(n)),
    decreases n,
{
    if n <= 0 {
        assert(is_sqrt_ceil(n, 0));
    } else {
        lemma_sqrt_ceil_exists(n - 1);
        let r = sqrt_ceil(n - 1);
        if r * r >= n {
            assert(is_sqrt_ceil(n, r));
        } else {
            assert((r + 1) * (r + 1) >= n) by (nonlinear_arith)
                requires
                    r * r >= n - 1,
                    r >= 0,
            ;
            assert(is_sqrt_ceil(n, r + 1));
        }
    }
}

/// `sqrt_ceil(n) <= m` exactly when `n <= m * m`, for a natural `m`.
pub proof fn lemma_sqrt_ceil_le(n: int, r: int, m: int)
    requires
        is_sqrt_ceil(n, r),
        0 <= m,
    ensures
        r <= m <==> n <= m * m,
{
    if r <= m {
        lemma_square_monotonic(r, m);
    } else {
        lemma_square_monotonic(m, r - 1);
    }
}

/// Computes the square root of `n`, rounded up.
pub fn sqrt_ceil_u128(n: u128) -> (r: u64)
    requires
        n <= SQRT_ARG_MAX,
    ensures
        is_sqrt_ceil(n as int, r as int),
        r as int == sqrt_ceil(n as int),
{
    let mut lo: u64 = 0;
    let mut hi: u64 = u64::MAX;
    assert(0xffff_ffff_ffff_ffffint * 0xffff_ffff_ffff_ffffint == SQRT_ARG_MAX as int);
    while lo < hi
        invariant
            lo <= hi,
            hi as int * hi as int >= n as int,
            lo == 0 || (lo as int - 1) * (lo as int - 1) < n as int,
        decreases hi - lo,
    {
        let mid: u64 = lo + (hi - lo) / 2;
        proof {
            lemma_square_monotonic(mid as int, u64::MAX as int);
            assert(0xffff_ffff_ffff_ffffint * 0xffff_ffff_ffff_ffffint == SQRT_ARG_MAX as int);
        }
        let sq: u128 = (mid as u128) * (mid as u128);
        if sq >= n {
            hi = mid;
        } else {
            lo = mid + 1;
        }
    }
    proof {
        lemma_sqrt_ceil_is(n as int, lo as int);
    }
    lo
}

/// The absolute value of `a`.
pub open spec fn abs(a: int) -> int {
    if a >= 0 {
        a
    } else {
        -a
    }
}

/// `v` confined to the interval from `lo` to `hi`.
pub open spec fn clamp(v: int, lo: int, hi: int) -> int {
    if v < lo {
        lo
    } else if v > hi {
        hi
    } else {
        v
    }
}

/// A quotient of naturals, multiplied back, does not exceed the dividend,
/// and misses it by less than the divisor.
pub proof fn lemma_div_bounds(a: int, b: int)
    by (nonlinear_arith)
    requires
        0 <= a,
        0 < b,
    ensures
        0 <= a / b,
        (a / b) * b <= a,
        a < (a / b) * b + b,
{
}

/// A product of naturals divided by one factor that is at least the other
/// stays below the third: `a * m / n <= m` when `a <= n`.
pub proof fn lemma_mul_div_le(a: int, m: int, n: int)
    by (nonlinear_arith)
    requires
        0 <= a <= n,
        0 <= m,
        0 < n,
    ensures
        0 <= (a * m) / n <= m,
        0 <= a * m,
{
}

/// Dividing by a positive number is monotonic in the dividend.
pub proof fn lemma_div_monotonic(a: int, b: int, d: int)
    by (nonlinear_arith)
    requires
        a <= b,
        0 < d,
    ensures
        a / d <= b / d,
{
}

/// A multiple of the divisor divides exactly.
pub proof fn lemma_div_exact(q: int, d: int)
    by (nonlinear_arith)
    requires
        0 < d,
    ensures
        (q * d) / d == q,
{
}

/// Computes `a * m / n`, rounded toward zero, for naturals `a <= n`.
pub fn mul_div(a: u64, m: u64, n: u64) -> (r: u64)
    requires
        0 < n,
        a <= n,
    ensures
        r as int == (a as int * m as int) / (n as int),
        r <= m,
{
    proof {
        lemma_mul_div_le(a as int, m as int, n as int);
        assert(a as int * m as int <= 0xffff_ffff_ffff_ffff * 0xffff_ffff_ffff_ffff) by (nonlinear_arith)
            requires
                0 <= a as int <= 0xffff_ffff_ffff_ffff,
                0 <= m as int <= 0xffff_ffff_ffff_ffff,
        ;
    }
    let p: u128 = (a as u128) * (m as u128);
    (p / (n as u128)) as u64
}

} // verus!
