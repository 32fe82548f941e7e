//! Fixed-point scalar arithmetic: the unit scale, truncating division,
//! an exact integer square root, and the bounds that make a freshly
//! normalized vector "unit length up to rounding".
use vstd::prelude::*;
use vstd::arithmetic::div_mod::lemma_fundamental_div_mod;
use vstd::arithmetic::div_mod::lemma_mod_division_less_than_divisor;

verus! {

/// One length unit.  A coordinate `x` stands for the real number
/// `x / SCALE`, so vectors on the unit sphere have coordinates of
/// magnitude at most `SCALE`.
pub const SCALE: i64 = 1_000_000;

/// `SCALE * SCALE`: the squared length of an exactly-unit vector.
pub const SCALE_SQ: i64 = 1_000_000_000_000;

/// The smallest squared length `normalize` accepts directly: a quarter
/// unit, squared.  Shorter vectors are doubled first (see `vec3`).
pub const MIN_NORM_SQ: i64 = 62_500_000_000;

/// Lower bound on the squared length of a normalized vector:
/// `SCALE_SQ - 4 * SCALE - 17`.
pub const UNIT_NORM_SQ_LO: i64 = 999_995_999_983;

/// Upper bound on the squared length of a normalized vector:
/// `SCALE_SQ + 8 * SCALE + 16`.
pub const UNIT_NORM_SQ_HI: i64 = 1_000_008_000_016;

/// Largest coordinate magnitude the vector operations accept; keeps
/// every intermediate product inside `i64`.
pub const COMP_MAX: i64 = 1_500_000_000;

/// Largest argument `isqrt` accepts; its square-root search starts from
/// `2_600_000_000`, whose square is just above this.
pub const ISQRT_MAX: i64 = 6_759_999_999_999_999_999;

/// The integer square root, defined by counting up.  Characterized by
/// `lemma_isqrt_bounds`: it is the unique `r >= 0` with
/// `r * r <= n < (r + 1) * (r + 1)`.
pub open spec fn spec_isqrt(n: int) -> int
    decreases n,
{
    if n <= 0 {
        0
    } else {
        let r = spec_isqrt(n - 1);
        if (r + 1) * (r + 1) <= n {
            r + 1
        } else {
            r
        }
    }
}

pub proof fn lemma_isqrt_bounds(n: int)
    requires
        n >= 0,
    ensures
        0 <= spec_isqrt(n),
        spec_isqrt(n) * spec_isqrt(n) <= n,
        n < (spec_isqrt(n) + 1) * (spec_isqrt(n) + 1),
    decreases n,
{
    if n == 0 {
    } else {
        lemma_isqrt_bounds(n - 1);
        let r = spec_isqrt(n - 1);
        if (r + 1) * (r + 1) <= n {
            assert(n - 1 < (r + 1) * (r + 1));
            assert(n == (r + 1) * (r + 1));
            assert((r + 1) * (r + 1) < (r + 2) * (r + 2)) by (nonlinear_arith)
                requires r >= 0;
        }
    }
}

pub proof fn lemma_isqrt_unique(n: int, r: int)
    requires
        n >= 0,
        r >= 0,
        r * r <= n,
        n < (r + 1) * (r + 1),
    ensures
        r == spec_isqrt(n),
{
    lemma_isqrt_bounds(n);
    let s = spec_isqrt(n);
    if r < s {
        assert((r + 1) * (r + 1) <= s * s) by (nonlinear_arith)
            requires 0 <= r + 1 <= s;
        assert(false);
    }
    if s < r {
        assert((s + 1) * (s + 1) <= r * r) by (nonlinear_arith)
            requires 0 <= s + 1 <= r;
        assert(false);
    }
}

/// Exact integer square root by binary search.
pub fn isqrt(n: i64) -> (r: i64)
    requires
        0 <= n <= ISQRT_MAX,
    ensures
        r == spec_isqrt(n as int),
        0 <= r,
        r * r <= n,
        n < (r + 1) * (r + 1),
{
    let mut lo: i64 = 0;
    let mut hi: i64 = 2_600_000_000;
    while lo + 1 < hi
        invariant
            0 <= lo < hi <= 2_600_000_000,
            lo * lo <= n,
            n < hi * hi,
            n <= ISQRT_MAX,
        decreases hi - lo,
    {
        let mid = lo + (((hi - lo) as u64 / 2) as i64);
        assert(mid * mid <= 6_760_000_000_000_000_000) by (nonlinear_arith)
            requires 0 <= mid <= 2_600_000_000;
        if mid * mid <= n {
            lo = mid;
        } else {
            hi = mid;
        }
    }
    proof {
        lemma_isqrt_unique(n as int, lo as int);
    }
    lo
}

/// Division rounding toward zero, the behaviour of `/` on machine
/// integers; spec-level `/` on `int` rounds toward negative infinity,
/// so the negative case is spelled out.
pub open spec fn spec_div_trunc(n: int, d: int) -> int {
    if n >= 0 {
        n / d
    } else {
        -((-n) / d)
    }
}

pub proof fn lemma_div_trunc_bounds(n: int, d: int)
    requires
        d >= 1,
    ensures
        n >= 0 ==> spec_div_trunc(n, d) >= 0
            && spec_div_trunc(n, d) * d <= n
            && n < (spec_div_trunc(n, d) + 1) * d,
        n < 0 ==> spec_div_trunc(n, d) <= 0
            && spec_div_trunc(n, d) * d >= n
            && n > (spec_div_trunc(n, d) - 1) * d,
{
    let m = if n >= 0 { n } else { -n };
    lemma_fundamental_div_mod(m, d);
    lemma_mod_division_less_than_divisor(m, d);
    let q = m / d;
    assert(d * q <= m);
    assert(m < d * (q + 1)) by (nonlinear_arith)
        requires m == d * q + m % d, m % d < d;
    assert(q >= 0) by (nonlinear_arith)
        requires d >= 1, m >= 0, m < d * (q + 1);
    assert(q * d == d * q) by (nonlinear_arith);
    assert((q + 1) * d == d * (q + 1)) by (nonlinear_arith);
    if n < 0 {
        assert((-q) * d == -(q * d)) by (nonlinear_arith);
        assert((-q - 1) * d == -((q + 1) * d)) by (nonlinear_arith);
    }
}

/// Truncating division on machine integers.
pub fn div_trunc(n: i64, d: i64) -> (q: i64)
    requires
        1 <= d,
        i64::MIN < n,
    ensures
        q == spec_div_trunc(n as int, d as int),
{
    proof {
        lemma_div_trunc_bounds(n as int, d as int);
    }
    if n >= 0 {
        ((n as u64) / (d as u64)) as i64
    } else {
        let m = -n;
        -(((m as u64) / (d as u64)) as i64)
    }
}

/// The product of two fixed-point scalars, in fixed point.
pub open spec fn spec_mul_fp(a: int, b: int) -> int {
    spec_div_trunc(a * b, SCALE as int)
}

pub fn mul_fp(a: i64, b: i64) -> (r: i64)
    requires
        -1_000_000_000_000_000 <= a * b <= 1_000_000_000_000_000,
    ensures
        r == spec_mul_fp(a as int, b as int),
        -1_000_000_000 <= r <= 1_000_000_000,
{
    proof {
        lemma_div_trunc_bounds((a * b) as int, SCALE as int);
    }
    let p = a * b;
    div_trunc(p, SCALE)
}

} // verus!
