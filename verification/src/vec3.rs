//! Fixed-point 3D vectors and the operations the mesh builder and the
//! navigator are built from.  Every executable operation is pinned to a
//! spec-level counterpart over mathematical integers, and normalization
//! is proved to land within rounding distance of unit length.
use vstd::prelude::*;
use crate::fixed::COMP_MAX;
use crate::fixed::MIN_NORM_SQ;
use crate::fixed::SCALE;
use crate::fixed::UNIT_NORM_SQ_HI;
use crate::fixed::UNIT_NORM_SQ_LO;
use crate::fixed::div_trunc;
use crate::fixed::isqrt;
use crate::fixed::lemma_div_trunc_bounds;
use crate::fixed::lemma_isqrt_bounds;
use crate::fixed::spec_div_trunc;
use crate::fixed::spec_isqrt;

verus! {

/// Largest coordinate magnitude accepted by the bilinear operations
/// (dot, cross, scale); keeps their products inside `i64`.
pub const OP_MAX: i64 = 100_000_000;

/// The mathematical model of a vector: three unbounded integers.
pub struct SpecVec3 {
    pub x: int,
    pub y: int,
    pub z: int,
}

/// A fixed-point vector; a coordinate `x` stands for `x / SCALE`.
#[derive(Clone, Copy, Debug, PartialEq, Eq, Structural)]
pub struct Vec3 {
    pub x: i64,
    pub y: i64,
    pub z: i64,
}

impl View for Vec3 {
    type V = SpecVec3;

    open spec fn view(&self) -> SpecVec3 {
        SpecVec3 { x: self.x as int, y: self.y as int, z: self.z as int }
    }
}

pub open spec fn sabs(x: int) -> int {
    if x >= 0 { x } else { -x }
}

/// Every coordinate has magnitude at most `b`.
pub open spec fn bounded(v: SpecVec3, b: int) -> bool {
    sabs(v.x) <= b && sabs(v.y) <= b && sabs(v.z) <= b
}

pub open spec fn spec_norm_sq(v: SpecVec3) -> int {
    v.x * v.x + v.y * v.y + v.z * v.z
}

/// Unit length up to normalization rounding.
pub open spec fn unit_vec(v: SpecVec3) -> bool {
    UNIT_NORM_SQ_LO <= spec_norm_sq(v) <= UNIT_NORM_SQ_HI && bounded(v, SCALE as int)
}

pub open spec fn spec_add(a: SpecVec3, b: SpecVec3) -> SpecVec3 {
    SpecVec3 { x: a.x + b.x, y: a.y + b.y, z: a.z + b.z }
}

pub open spec fn spec_sub(a: SpecVec3, b: SpecVec3) -> SpecVec3 {
    SpecVec3 { x: a.x - b.x, y: a.y - b.y, z: a.z - b.z }
}

/// The vertex halfway between `a` and `b` (coordinates truncated).
pub open spec fn spec_midpoint(a: SpecVec3, b: SpecVec3) -> SpecVec3 {
    SpecVec3 {
        x: spec_div_trunc(a.x + b.x, 2),
        y: spec_div_trunc(a.y + b.y, 2),
        z: spec_div_trunc(a.z + b.z, 2),
    }
}

/// The dot product before rescaling: its unit is `SCALE * SCALE`.
pub open spec fn spec_dot_raw(a: SpecVec3, b: SpecVec3) -> int {
    a.x * b.x + a.y * b.y + a.z * b.z
}

/// The dot product of two fixed-point vectors, in fixed point.
pub open spec fn spec_dot(a: SpecVec3, b: SpecVec3) -> int {
    spec_div_trunc(spec_dot_raw(a, b), SCALE as int)
}

/// `v` scaled by the fixed-point scalar `s`.
pub open spec fn spec_scale(v: SpecVec3, s: int) -> SpecVec3 {
    SpecVec3 {
        x: spec_div_trunc(v.x * s, SCALE as int),
        y: spec_div_trunc(v.y * s, SCALE as int),
        z: spec_div_trunc(v.z * s, SCALE as int),
    }
}

/// The cross product of two fixed-point vectors, in fixed point.
pub open spec fn spec_cross(a: SpecVec3, b: SpecVec3) -> SpecVec3 {
    SpecVec3 {
        x: spec_div_trunc(a.y * b.z - a.z * b.y, SCALE as int),
        y: spec_div_trunc(a.z * b.x - a.x * b.z, SCALE as int),
        z: spec_div_trunc(a.x * b.y - a.y * b.x, SCALE as int),
    }
}

/// Rescales `v` to unit length: each coordinate becomes
/// `v_i * SCALE / |v|`, truncated toward zero.
pub open spec fn spec_normalize(v: SpecVec3) -> SpecVec3 {
    let r = spec_isqrt(spec_norm_sq(v));
    SpecVec3 {
        x: spec_div_trunc(v.x * SCALE, r),
        y: spec_div_trunc(v.y * SCALE, r),
        z: spec_div_trunc(v.z * SCALE, r),
    }
}

/// Total form of normalization: vectors too short to normalize reliably
/// yield the caller-supplied fallback instead.
pub open spec fn spec_normalize_or(v: SpecVec3, fb: SpecVec3) -> SpecVec3 {
    if spec_norm_sq(v) >= MIN_NORM_SQ {
        spec_normalize(v)
    } else {
        fb
    }
}

pub open spec fn spec_double(v: SpecVec3) -> SpecVec3 {
    SpecVec3 { x: 2 * v.x, y: 2 * v.y, z: 2 * v.z }
}

/// Termination measure for `spec_upscale`: each doubling quadruples the
/// squared length, so the gap below `4 * MIN_NORM_SQ` shrinks.
pub open spec fn upscale_measure(v: SpecVec3) -> int {
    if spec_norm_sq(v) < 4 * MIN_NORM_SQ {
        4 * MIN_NORM_SQ - spec_norm_sq(v)
    } else {
        0
    }
}

#[via_fn]
proof fn upscale_decreases(v: SpecVec3) {
    let s = spec_norm_sq(v);
    if !(s <= 0 || s >= MIN_NORM_SQ) {
        lemma_double_norm_sq(v);
    }
}

pub proof fn lemma_double_norm_sq(v: SpecVec3)
    ensures
        spec_norm_sq(spec_double(v)) == 4 * spec_norm_sq(v),
{
    assert(spec_norm_sq(spec_double(v)) == 4 * spec_norm_sq(v)) by (nonlinear_arith)
        requires
            spec_norm_sq(spec_double(v)) == (2 * v.x) * (2 * v.x) + (2 * v.y) * (2 * v.y)
                + (2 * v.z) * (2 * v.z),
            spec_norm_sq(v) == v.x * v.x + v.y * v.y + v.z * v.z;
}

/// Doubles `v` until it is long enough to normalize; direction is kept
/// exactly.  Used for face normals, whose cross products are short for
/// small faces.
pub open spec fn spec_upscale(v: SpecVec3) -> SpecVec3
    decreases upscale_measure(v)
        via upscale_decreases
{
    if spec_norm_sq(v) <= 0 || spec_norm_sq(v) >= MIN_NORM_SQ {
        v
    } else {
        spec_upscale(spec_double(v))
    }
}

pub proof fn lemma_sq_bounds(x: int, b: int)
    by (nonlinear_arith)
    requires
        -b <= x <= b,
    ensures
        0 <= x * x,
        x * x <= b * b,
{
}

proof fn lemma_distrib3(p1: int, p2: int, p3: int, m: int)
    by (nonlinear_arith)
    ensures
        (p1 + p2 + p3) * m == p1 * m + p2 * m + p3 * m,
{
}

/// For `w = (a * k) / r` rounded down, the scaled square stays below
/// the square of the exact product.
proof fn lemma_sq_mul_le(w: int, a: int, r: int, k: int)
    by (nonlinear_arith)
    requires
        w >= 0,
        a >= 0,
        r >= 1,
        k >= 1,
        w * r <= a * k,
    ensures
        (w * w) * (r * r) <= (a * a) * (k * k),
{
}

/// For `w = (a * k) / r` rounded down, the scaled square sits at most
/// one rounding step below the square of the exact product.
#[verifier::rlimit(50)]
proof fn lemma_sq_mul_ge(w: int, a: int, r: int, k: int)
    by (nonlinear_arith)
    requires
        w >= 0,
        a >= 0,
        r >= 1,
        k >= 1,
        a * k < (w + 1) * r,
    ensures
        (w * w) * (r * r) >= (a * a) * (k * k) - 2 * (a * k) * r,
{
}

/// The squared length of a normalized vector lies within rounding
/// distance of `SCALE * SCALE`, and its coordinates within `SCALE`.
pub proof fn lemma_normalize_bounds(v: SpecVec3)
    requires
        bounded(v, COMP_MAX as int),
        MIN_NORM_SQ <= spec_norm_sq(v),
    ensures
        unit_vec(spec_normalize(v)),
{
    let s = spec_norm_sq(v);
    let k: int = SCALE as int;
    lemma_isqrt_bounds(s);
    let r = spec_isqrt(s);
    // r is at least a quarter unit because s >= MIN_NORM_SQ.
    assert(4 * r >= k) by (nonlinear_arith)
        requires
            r >= 0,
            s >= MIN_NORM_SQ,
            s < (r + 1) * (r + 1),
            k == SCALE as int;
    let a1 = sabs(v.x);
    let a2 = sabs(v.y);
    let a3 = sabs(v.z);
    assert(s == a1 * a1 + a2 * a2 + a3 * a3) by (nonlinear_arith)
        requires
            s == v.x * v.x + v.y * v.y + v.z * v.z,
            a1 == sabs(v.x) && a2 == sabs(v.y) && a3 == sabs(v.z);
    lemma_div_trunc_bounds(a1 * k, r);
    lemma_div_trunc_bounds(a2 * k, r);
    lemma_div_trunc_bounds(a3 * k, r);
    let w1 = spec_div_trunc(a1 * k, r);
    let w2 = spec_div_trunc(a2 * k, r);
    let w3 = spec_div_trunc(a3 * k, r);
    assert(a1 * k >= 0 && a2 * k >= 0 && a3 * k >= 0) by (nonlinear_arith)
        requires a1 >= 0 && a2 >= 0 && a3 >= 0 && k >= 1;
    // The normalized coordinates are +-w_i.
    let u = spec_normalize(v);
    assert(u.x == if v.x >= 0 { w1 } else { -w1 });
    assert(u.y == if v.y >= 0 { w2 } else { -w2 });
    assert(u.z == if v.z >= 0 { w3 } else { -w3 });
    let ss = spec_norm_sq(u);
    assert(ss == w1 * w1 + w2 * w2 + w3 * w3) by (nonlinear_arith)
        requires
            ss == u.x * u.x + u.y * u.y + u.z * u.z,
            u.x == w1 || u.x == -w1,
            u.y == w2 || u.y == -w2,
            u.z == w3 || u.z == -w3;
    // Each coordinate stays within SCALE: a_i <= r, so w_i <= k.
    assert(a1 * a1 <= s && a2 * a2 <= s && a3 * a3 <= s) by (nonlinear_arith)
        requires s == a1 * a1 + a2 * a2 + a3 * a3, a1 >= 0, a2 >= 0, a3 >= 0;
    assert(a1 <= r && a2 <= r && a3 <= r) by (nonlinear_arith)
        requires
            a1 >= 0 && a2 >= 0 && a3 >= 0,
            a1 * a1 <= s && a2 * a2 <= s && a3 * a3 <= s,
            s < (r + 1) * (r + 1),
            r >= 0;
    assert(w1 <= k && w2 <= k && w3 <= k) by (nonlinear_arith)
        requires
            r >= 1,
            k >= 1,
            a1 <= r && a2 <= r && a3 <= r,
            w1 * r <= a1 * k && w2 * r <= a2 * k && w3 * r <= a3 * k;
    // Upper bound on the squared length, component by component.
    lemma_sq_mul_le(w1, a1, r, k);
    lemma_sq_mul_le(w2, a2, r, k);
    lemma_sq_mul_le(w3, a3, r, k);
    lemma_distrib3(w1 * w1, w2 * w2, w3 * w3, r * r);
    lemma_distrib3(a1 * a1, a2 * a2, a3 * a3, k * k);
    assert(ss * (r * r) <= s * (k * k));
    assert(s * (k * k) < ((r + 1) * (r + 1)) * (k * k)) by (nonlinear_arith)
        requires s < (r + 1) * (r + 1), k >= 1;
    assert(ss <= k * k + 8 * k + 16) by (nonlinear_arith)
        requires
            ss * (r * r) < ((r + 1) * (r + 1)) * (k * k),
            4 * r >= k,
            k >= 4,
            r >= 1,
            ss >= 0;
    // Lower bound: each w_i * r exceeds a_i * k - r.
    lemma_sq_mul_ge(w1, a1, r, k);
    lemma_sq_mul_ge(w2, a2, r, k);
    lemma_sq_mul_ge(w3, a3, r, k);
    // The coordinate magnitudes sum to at most 2r + 1.
    assert((a1 + a2 + a3) * (a1 + a2 + a3) <= 3 * s) by (nonlinear_arith)
        requires s == a1 * a1 + a2 * a2 + a3 * a3;
    assert(a1 + a2 + a3 <= 2 * r + 1) by (nonlinear_arith)
        requires
            (a1 + a2 + a3) * (a1 + a2 + a3) <= 3 * s,
            s < (r + 1) * (r + 1),
            a1 >= 0 && a2 >= 0 && a3 >= 0,
            r >= 0;
    lemma_distrib3(a1, a2, a3, 2 * k * r);
    assert(a1 * (2 * k * r) == 2 * (a1 * k) * r
        && a2 * (2 * k * r) == 2 * (a2 * k) * r
        && a3 * (2 * k * r) == 2 * (a3 * k) * r) by (nonlinear_arith);
    assert(ss * (r * r) >= s * (k * k) - (a1 + a2 + a3) * (2 * k * r));
    assert(ss >= k * k - 4 * k - 17) by (nonlinear_arith)
        requires
            ss * (r * r) >= s * (k * k) - (a1 + a2 + a3) * (2 * k * r),
            a1 + a2 + a3 <= 2 * r + 1,
            s >= r * r,
            4 * r >= k,
            k >= 4,
            r >= 1,
            a1 + a2 + a3 >= 0;
}

impl Vec3 {
    pub fn add(&self, other: &Vec3) -> (r: Vec3)
        requires
            bounded(self@, COMP_MAX as int),
            bounded(other@, COMP_MAX as int),
        ensures
            r@ == spec_add(self@, other@),
    {
        Vec3 { x: self.x + other.x, y: self.y + other.y, z: self.z + other.z }
    }

    pub fn sub(&self, other: &Vec3) -> (r: Vec3)
        requires
            bounded(self@, COMP_MAX as int),
            bounded(other@, COMP_MAX as int),
        ensures
            r@ == spec_sub(self@, other@),
    {
        Vec3 { x: self.x - other.x, y: self.y - other.y, z: self.z - other.z }
    }

    pub fn midpoint(&self, other: &Vec3) -> (r: Vec3)
        requires
            bounded(self@, COMP_MAX as int),
            bounded(other@, COMP_MAX as int),
        ensures
            r@ == spec_midpoint(self@, other@),
            bounded(r@, COMP_MAX as int),
    {
        proof {
            lemma_div_trunc_bounds(self@.x + other@.x, 2);
            lemma_div_trunc_bounds(self@.y + other@.y, 2);
            lemma_div_trunc_bounds(self@.z + other@.z, 2);
        }
        Vec3 {
            x: div_trunc(self.x + other.x, 2),
            y: div_trunc(self.y + other.y, 2),
            z: div_trunc(self.z + other.z, 2),
        }
    }

    pub fn norm_sq(&self) -> (s: i64)
        requires
            bounded(self@, COMP_MAX as int),
        ensures
            s == spec_norm_sq(self@),
            0 <= s <= 6_750_000_000_000_000_000,
    {
        proof {
            lemma_sq_bounds(self@.x, COMP_MAX as int);
            lemma_sq_bounds(self@.y, COMP_MAX as int);
            lemma_sq_bounds(self@.z, COMP_MAX as int);
        }
        self.x * self.x + self.y * self.y + self.z * self.z
    }

    pub fn dot_raw(&self, other: &Vec3) -> (d: i64)
        requires
            bounded(self@, OP_MAX as int),
            bounded(other@, OP_MAX as int),
        ensures
            d == spec_dot_raw(self@, other@),
            -30_000_000_000_000_000 <= d <= 30_000_000_000_000_000,
    {
        proof {
            lemma_mul_abs_bound(self@.x, other@.x, OP_MAX as int);
            lemma_mul_abs_bound(self@.y, other@.y, OP_MAX as int);
            lemma_mul_abs_bound(self@.z, other@.z, OP_MAX as int);
        }
        self.x * other.x + self.y * other.y + self.z * other.z
    }

    pub fn dot(&self, other: &Vec3) -> (d: i64)
        requires
            bounded(self@, OP_MAX as int),
            bounded(other@, OP_MAX as int),
        ensures
            d == spec_dot(self@, other@),
            -30_000_000_000 <= d <= 30_000_000_000,
    {
        let raw = self.dot_raw(other);
        proof {
            lemma_div_trunc_bounds(raw as int, SCALE as int);
        }
        div_trunc(raw, SCALE)
    }

    pub fn scale(&self, s: i64) -> (r: Vec3)
        requires
            bounded(self@, OP_MAX as int),
            -(OP_MAX as int) <= s <= OP_MAX as int,
        ensures
            r@ == spec_scale(self@, s as int),
            bounded(r@, 10_000_000_000),
            bounded(self@, 1_100_000) && -3_700_000 <= s <= 3_700_000
                ==> bounded(r@, 4_070_001),
            bounded(self@, 1_100_000) && -100_000_000 <= s <= 100_000_000
                ==> bounded(r@, 110_000_001),
    {
        proof {
            lemma_mul_abs_bound(self@.x, s as int, OP_MAX as int);
            lemma_mul_abs_bound(self@.y, s as int, OP_MAX as int);
            lemma_mul_abs_bound(self@.z, s as int, OP_MAX as int);
            lemma_div_trunc_bounds(self@.x * s, SCALE as int);
            lemma_div_trunc_bounds(self@.y * s, SCALE as int);
            lemma_div_trunc_bounds(self@.z * s, SCALE as int);
            if bounded(self@, 1_100_000) && -100_000_000 <= s <= 100_000_000 {
                lemma_mul_abs_bound2(self@.x, s as int, 1_100_000, 100_000_000);
                lemma_mul_abs_bound2(self@.y, s as int, 1_100_000, 100_000_000);
                lemma_mul_abs_bound2(self@.z, s as int, 1_100_000, 100_000_000);
            }
            if bounded(self@, 1_100_000) && -3_700_000 <= s <= 3_700_000 {
                lemma_mul_abs_bound2(self@.x, s as int, 1_100_000, 3_700_000);
                lemma_mul_abs_bound2(self@.y, s as int, 1_100_000, 3_700_000);
                lemma_mul_abs_bound2(self@.z, s as int, 1_100_000, 3_700_000);
            }
        }
        Vec3 {
            x: div_trunc(self.x * s, SCALE),
            y: div_trunc(self.y * s, SCALE),
            z: div_trunc(self.z * s, SCALE),
        }
    }

    pub fn cross(&self, other: &Vec3) -> (r: Vec3)
        requires
            bounded(self@, OP_MAX as int),
            bounded(other@, OP_MAX as int),
        ensures
            r@ == spec_cross(self@, other@),
            bounded(r@, 20_000_000_000),
            bounded(self@, 25_000_000) && bounded(other@, 25_000_000)
                ==> bounded(r@, 1_250_000_001),
    {
        proof {
            lemma_mul_abs_bound(self@.y, other@.z, OP_MAX as int);
            lemma_mul_abs_bound(self@.z, other@.y, OP_MAX as int);
            lemma_mul_abs_bound(self@.z, other@.x, OP_MAX as int);
            lemma_mul_abs_bound(self@.x, other@.z, OP_MAX as int);
            lemma_mul_abs_bound(self@.x, other@.y, OP_MAX as int);
            lemma_mul_abs_bound(self@.y, other@.x, OP_MAX as int);
            if bounded(self@, 25_000_000) && bounded(other@, 25_000_000) {
                lemma_mul_abs_bound(self@.y, other@.z, 25_000_000);
                lemma_mul_abs_bound(self@.z, other@.y, 25_000_000);
                lemma_mul_abs_bound(self@.z, other@.x, 25_000_000);
                lemma_mul_abs_bound(self@.x, other@.z, 25_000_000);
                lemma_mul_abs_bound(self@.x, other@.y, 25_000_000);
                lemma_mul_abs_bound(self@.y, other@.x, 25_000_000);
            }
            lemma_div_trunc_bounds(self@.y * other@.z - self@.z * other@.y, SCALE as int);
            lemma_div_trunc_bounds(self@.z * other@.x - self@.x * other@.z, SCALE as int);
            lemma_div_trunc_bounds(self@.x * other@.y - self@.y * other@.x, SCALE as int);
        }
        Vec3 {
            x: div_trunc(self.y * other.z - self.z * other.y, SCALE),
            y: div_trunc(self.z * other.x - self.x * other.z, SCALE),
            z: div_trunc(self.x * other.y - self.y * other.x, SCALE),
        }
    }

    /// Rescales to unit length; callers guarantee the vector is long
    /// enough for the result to be accurate.
    pub fn normalize(&self) -> (r: Vec3)
        requires
            bounded(self@, COMP_MAX as int),
            MIN_NORM_SQ <= spec_norm_sq(self@),
        ensures
            r@ == spec_normalize(self@),
            unit_vec(r@),
    {
        let s = self.norm_sq();
        let rt = isqrt(s);
        proof {
            lemma_normalize_bounds(self@);
            assert(4 * (rt as int) >= SCALE as int) by (nonlinear_arith)
                requires
                    rt >= 0,
                    s >= MIN_NORM_SQ,
                    s < (rt + 1) * (rt + 1);
            lemma_mul_abs_bound(self@.x, SCALE as int, COMP_MAX as int);
            lemma_mul_abs_bound(self@.y, SCALE as int, COMP_MAX as int);
            lemma_mul_abs_bound(self@.z, SCALE as int, COMP_MAX as int);
        }
        Vec3 {
            x: div_trunc(self.x * SCALE, rt),
            y: div_trunc(self.y * SCALE, rt),
            z: div_trunc(self.z * SCALE, rt),
        }
    }

    /// Total normalization: a vector too short to normalize reliably is
    /// replaced by the fallback, which callers keep unit length.
    pub fn normalize_or(&self, fb: &Vec3) -> (r: Vec3)
        requires
            bounded(self@, COMP_MAX as int),
            unit_vec(fb@),
        ensures
            r@ == spec_normalize_or(self@, fb@),
            unit_vec(r@),
    {
        let s = self.norm_sq();
        if s >= MIN_NORM_SQ {
            self.normalize()
        } else {
            *fb
        }
    }

    /// Rescales a direction of any positive length to unit length by
    /// doubling it into range first; `None` exactly when the vector is
    /// zero.
    pub fn normalize_dir(&self) -> (r: Option<Vec3>)
        requires
            bounded(self@, COMP_MAX as int),
        ensures
            (spec_norm_sq(self@) == 0) == (r is None),
            r matches Some(u) ==> u@ == spec_normalize(spec_upscale(self@))
                && unit_vec(u@),
    {
        let s = self.norm_sq();
        if s == 0 {
            return None;
        }
        let mut v = *self;
        while v.norm_sq() < MIN_NORM_SQ
            invariant
                bounded(v@, COMP_MAX as int),
                spec_norm_sq(v@) > 0,
                spec_upscale(v@) == spec_upscale(self@),
            decreases upscale_measure(v@),
        {
            proof {
                lemma_double_norm_sq(v@);
                assert(-250_000 < v@.x < 250_000 && -250_000 < v@.y < 250_000
                    && -250_000 < v@.z < 250_000) by (nonlinear_arith)
                    requires
                        spec_norm_sq(v@) == v@.x * v@.x + v@.y * v@.y + v@.z * v@.z,
                        spec_norm_sq(v@) < MIN_NORM_SQ;
            }
            v = Vec3 { x: 2 * v.x, y: 2 * v.y, z: 2 * v.z };
        }
        Some(v.normalize())
    }
}

pub proof fn lemma_mul_abs_bound(a: int, b: int, m: int)
    by (nonlinear_arith)
    requires
        -m <= a <= m,
        -m <= b <= m,
        0 <= m <= 1_000_000_000_000,
    ensures
        -(m * m) <= a * b <= m * m,
{
}

pub proof fn lemma_mul_abs_bound2(a: int, b: int, ma: int, mb: int)
    by (nonlinear_arith)
    requires
        -ma <= a <= ma,
        -mb <= b <= mb,
        0 <= ma,
        0 <= mb,
        ma * mb <= 4_000_000_000_000_000_000,
    ensures
        -(ma * mb) <= a * b <= ma * mb,
{
}


/// A truncated quotient times its divisor stays within one divisor of
/// the dividend.
pub proof fn lemma_trunc_close(n: int, d: int)
    requires
        d >= 1,
    ensures
        n - d < spec_div_trunc(n, d) * d,
        spec_div_trunc(n, d) * d < n + d,
{
    lemma_div_trunc_bounds(n, d);
    let q = spec_div_trunc(n, d);
    assert((q + 1) * d == q * d + d) by (nonlinear_arith);
    assert((q - 1) * d == q * d - d) by (nonlinear_arith);
}

/// Magnitude bound for a product from magnitude bounds on the factors.
pub proof fn lemma_mul_abs_wide(a: int, b: int, ma: int, mb: int)
    by (nonlinear_arith)
    requires
        -ma <= a <= ma,
        -mb <= b <= mb,
        0 <= ma,
        0 <= mb,
    ensures
        -(ma * mb) <= a * b <= ma * mb,
{
}

/// One component of the Gram-Schmidt error computation: with
/// `e == t * k - u * d` the rounding left by the scaling step and
/// `e0 == d * k - s` the rounding left by the dot product, the
/// subtracted component decomposes exactly.
proof fn lemma_gs_component(u: int, v: int, t: int, d: int, k: int, e: int, e0: int, s: int)
    by (nonlinear_arith)
    requires
        e == t * k - u * d,
        e0 == d * k - s,
    ensures
        k * (k * (u * v - u * t)) == (u * v) * (k * k) - (u * u) * s - (u * u) * e0 - k * (u
            * e),
{
}

/// Subtracting from `v` its component along a unit vector `u` leaves a
/// vector whose raw dot product with `u` is a small multiple of the
/// unit scale (the raw scale of `SCALE * SCALE` stands for one).
pub proof fn lemma_gs_raw_dot(u: SpecVec3, v: SpecVec3)
    requires
        unit_vec(u),
        unit_vec(v),
    ensures
        sabs(spec_dot_raw(u, spec_sub(v, spec_scale(u, spec_dot(u, v)))))
            <= 32 * (SCALE as int),
{
    let k: int = SCALE as int;
    let s = spec_dot_raw(u, v);
    let d = spec_dot(u, v);
    let t1 = spec_div_trunc(u.x * d, k);
    let t2 = spec_div_trunc(u.y * d, k);
    let t3 = spec_div_trunc(u.z * d, k);
    let e1 = t1 * k - u.x * d;
    let e2 = t2 * k - u.y * d;
    let e3 = t3 * k - u.z * d;
    let e0 = d * k - s;
    lemma_trunc_close(u.x * d, k);
    lemma_trunc_close(u.y * d, k);
    lemma_trunc_close(u.z * d, k);
    lemma_trunc_close(s, k);
    assert(-k < e1 < k && -k < e2 < k && -k < e3 < k && -k < e0 < k);
    lemma_gs_component(u.x, v.x, t1, d, k, e1, e0, s);
    lemma_gs_component(u.y, v.y, t2, d, k, e2, e0, s);
    lemma_gs_component(u.z, v.z, t3, d, k, e3, e0, s);
    let w = spec_sub(v, spec_scale(u, d));
    let q = spec_norm_sq(u);
    let d1 = u.x * v.x - u.x * t1;
    let d2 = u.y * v.y - u.y * t2;
    let d3 = u.z * v.z - u.z * t3;
    assert(spec_dot_raw(u, w) == d1 + d2 + d3) by (nonlinear_arith)
        requires
            spec_dot_raw(u, w) == u.x * (v.x - t1) + u.y * (v.y - t2) + u.z * (v.z - t3),
            d1 == u.x * v.x - u.x * t1,
            d2 == u.y * v.y - u.y * t2,
            d3 == u.z * v.z - u.z * t3;
    let lhs = k * (k * spec_dot_raw(u, w));
    lemma_k2_distrib(d1, d2, d3, k);
    assert(lhs == k * (k * d1) + k * (k * d2) + k * (k * d3));
    lemma_distrib3(u.x * v.x, u.y * v.y, u.z * v.z, k * k);
    lemma_distrib3(u.x * u.x, u.y * u.y, u.z * u.z, s);
    lemma_distrib3(u.x * u.x, u.y * u.y, u.z * u.z, e0);
    lemma_distrib3_left(k, u.x * e1, u.y * e2, u.z * e3);
    let ee = u.x * e1 + u.y * e2 + u.z * e3;
    assert(lhs == s * (k * k) - q * s - q * e0 - k * ee);
    // Bound every term of the decomposition.
    lemma_mul_abs_bound(u.x, v.x, k);
    lemma_mul_abs_bound(u.y, v.y, k);
    lemma_mul_abs_bound(u.z, v.z, k);
    assert(-(3 * (k * k)) <= s <= 3 * (k * k));
    assert(s * (k * k) - q * s == s * (k * k - q)) by (nonlinear_arith);
    lemma_mul_abs_wide(s, k * k - q, 3 * (k * k), 9 * k);
    lemma_mul_abs_wide(q, e0, k * k + 8 * k + 16, k);
    lemma_mul_abs_wide(u.x, e1, k, k);
    lemma_mul_abs_wide(u.y, e2, k, k);
    lemma_mul_abs_wide(u.z, e3, k, k);
    assert(-(3 * (k * k)) <= ee <= 3 * (k * k));
    lemma_mul_abs_wide(k, ee, k, 3 * (k * k));
    assert(lhs == s * (k * k - q) - q * e0 - k * ee);
    assert((3 * (k * k)) * (9 * k) == 27_000_000_000_000_000_000
        && (k * k + 8 * k + 16) * k == 1_000_008_000_016_000_000
        && k * (3 * (k * k)) == 3_000_000_000_000_000_000) by (nonlinear_arith)
        requires
            k == SCALE as int;
    assert(-32_000_000_000_000_000_000 <= lhs <= 32_000_000_000_000_000_000);
    assert(-(32 * k) <= spec_dot_raw(u, w) <= 32 * k) by (nonlinear_arith)
        requires
            lhs == k * (k * spec_dot_raw(u, w)),
            -32_000_000_000_000_000_000 <= lhs <= 32_000_000_000_000_000_000,
            k == SCALE as int;
}

proof fn lemma_k2_distrib(a: int, b: int, c: int, k: int)
    by (nonlinear_arith)
    ensures
        k * (k * (a + b + c)) == k * (k * a) + k * (k * b) + k * (k * c),
{
}

proof fn lemma_distrib3_left(m: int, p1: int, p2: int, p3: int)
    by (nonlinear_arith)
    ensures
        m * (p1 + p2 + p3) == m * p1 + m * p2 + m * p3,
{
}

/// Normalization dilutes a raw dot-product bound by at most a factor of
/// four (the worst stretch for a vector just long enough to normalize),
/// plus rounding.
pub proof fn lemma_normalize_dot_bound(u: SpecVec3, w: SpecVec3, c: int)
    requires
        bounded(u, SCALE as int),
        MIN_NORM_SQ <= spec_norm_sq(w),
        -c <= spec_dot_raw(u, w) <= c,
        0 <= c,
    ensures
        sabs(spec_dot_raw(u, spec_normalize(w))) <= 4 * c + 3 * (SCALE as int),
{
    let k: int = SCALE as int;
    let sw = spec_norm_sq(w);
    lemma_isqrt_bounds(sw);
    let r = spec_isqrt(sw);
    assert(4 * r >= k) by (nonlinear_arith)
        requires
            r >= 0,
            sw >= MIN_NORM_SQ,
            sw < (r + 1) * (r + 1),
            k == SCALE as int;
    let n = spec_normalize(w);
    let e1 = n.x * r - w.x * k;
    let e2 = n.y * r - w.y * k;
    let e3 = n.z * r - w.z * k;
    lemma_trunc_close(w.x * k, r);
    lemma_trunc_close(w.y * k, r);
    lemma_trunc_close(w.z * k, r);
    assert(-r < e1 < r && -r < e2 < r && -r < e3 < r);
    lemma_scaled_comp(u.x, n.x, w.x, r, k, e1);
    lemma_scaled_comp(u.y, n.y, w.y, r, k, e2);
    lemma_scaled_comp(u.z, n.z, w.z, r, k, e3);
    lemma_distrib3(u.x * n.x, u.y * n.y, u.z * n.z, r);
    lemma_distrib3(u.x * w.x, u.y * w.y, u.z * w.z, k);
    assert(spec_dot_raw(u, n) * r == spec_dot_raw(u, w) * k + (u.x * e1 + u.y * e2 + u.z
        * e3));
    lemma_mul_abs_wide(u.x, e1, k, r);
    lemma_mul_abs_wide(u.y, e2, k, r);
    lemma_mul_abs_wide(u.z, e3, k, r);
    assert(-(4 * c + 3 * k) <= spec_dot_raw(u, n) <= 4 * c + 3 * k) by (nonlinear_arith)
        requires
            spec_dot_raw(u, n) * r == spec_dot_raw(u, w) * k + (u.x * e1 + u.y * e2 + u.z
                * e3),
            -c <= spec_dot_raw(u, w) <= c,
            -(k * r) <= u.x * e1 <= k * r,
            -(k * r) <= u.y * e2 <= k * r,
            -(k * r) <= u.z * e3 <= k * r,
            0 <= c,
            r >= 1,
            4 * r >= k,
            k >= 1;
}

/// The Gram-Schmidt correction the navigator runs every tick really
/// re-orthogonalizes: subtracting from a unit vector `v` its component
/// along a unit vector `u` and renormalizing yields a vector whose dot
/// product with `u` is within rounding noise of zero -- at most
/// `131 * SCALE` on the raw scale whose unit is `SCALE * SCALE`, that
/// is about `1.3e-4` of a unit.
pub proof fn lemma_gram_schmidt_orthogonal(u: SpecVec3, v: SpecVec3)
    requires
        unit_vec(u),
        unit_vec(v),
        MIN_NORM_SQ <= spec_norm_sq(spec_sub(v, spec_scale(u, spec_dot(u, v)))),
    ensures
        sabs(spec_dot_raw(u, spec_normalize(spec_sub(v, spec_scale(u, spec_dot(u, v))))))
            <= 131 * (SCALE as int),
{
    let w = spec_sub(v, spec_scale(u, spec_dot(u, v)));
    lemma_gs_raw_dot(u, v);
    lemma_normalize_dot_bound(u, w, 32 * (SCALE as int));
}

/// The scalar triple product with a repeated vector vanishes.
proof fn lemma_triple_product_zero(u: SpecVec3, f: SpecVec3)
    by (nonlinear_arith)
    ensures
        u.x * (u.y * f.z - u.z * f.y) + u.y * (u.z * f.x - u.x * f.z) + u.z * (u.x * f.y - u.y
            * f.x) == 0,
{
}

/// A rebuilt right vector is orthogonal to the normal it was built
/// from: the renormalized cross product of a unit vector `u` with any
/// unit vector `f` has a dot product with `u` within rounding noise of
/// zero -- at most `15 * SCALE` on the raw scale.
pub proof fn lemma_cross_orthogonal(u: SpecVec3, f: SpecVec3)
    requires
        unit_vec(u),
        unit_vec(f),
        MIN_NORM_SQ <= spec_norm_sq(spec_cross(u, f)),
    ensures
        sabs(spec_dot_raw(u, spec_normalize(spec_cross(u, f)))) <= 15 * (SCALE as int),
{
    let k: int = SCALE as int;
    let c = spec_cross(u, f);
    let r1 = u.y * f.z - u.z * f.y;
    let r2 = u.z * f.x - u.x * f.z;
    let r3 = u.x * f.y - u.y * f.x;
    let e1 = c.x * k - r1;
    let e2 = c.y * k - r2;
    let e3 = c.z * k - r3;
    lemma_trunc_close(r1, k);
    lemma_trunc_close(r2, k);
    lemma_trunc_close(r3, k);
    assert(-k < e1 < k && -k < e2 < k && -k < e3 < k);
    lemma_triple_product_zero(u, f);
    lemma_cross_comp(u.x, c.x, r1, k, e1);
    lemma_cross_comp(u.y, c.y, r2, k, e2);
    lemma_cross_comp(u.z, c.z, r3, k, e3);
    lemma_distrib3(u.x * c.x, u.y * c.y, u.z * c.z, k);
    assert(u.x * (u.y * f.z - u.z * f.y) + u.y * (u.z * f.x - u.x * f.z) + u.z * (u.x * f.y
        - u.y * f.x) == 0);
    assert(spec_dot_raw(u, c) * k == u.x * e1 + u.y * e2 + u.z * e3);
    lemma_mul_abs_wide(u.x, e1, k, k);
    lemma_mul_abs_wide(u.y, e2, k, k);
    lemma_mul_abs_wide(u.z, e3, k, k);
    assert(-(3 * k) <= spec_dot_raw(u, c) <= 3 * k) by (nonlinear_arith)
        requires
            spec_dot_raw(u, c) * k == u.x * e1 + u.y * e2 + u.z * e3,
            -(k * k) <= u.x * e1 <= k * k,
            -(k * k) <= u.y * e2 <= k * k,
            -(k * k) <= u.z * e3 <= k * k,
            k >= 1;
    lemma_normalize_dot_bound(u, c, 3 * k);
}


/// One component of the renormalization error computation.
proof fn lemma_scaled_comp(u: int, n: int, w: int, r: int, k: int, e: int)
    by (nonlinear_arith)
    requires
        e == n * r - w * k,
    ensures
        (u * n) * r == (u * w) * k + u * e,
{
}

/// One component of the cross-product error computation.
proof fn lemma_cross_comp(u: int, c: int, raw: int, k: int, e: int)
    by (nonlinear_arith)
    requires
        e == c * k - raw,
    ensures
        (u * c) * k == u * raw + u * e,
{
}


/// The difference the Gram-Schmidt correction normalizes: `v` minus its
/// component along `u`.
pub open spec fn spec_gs_diff(u: SpecVec3, v: SpecVec3) -> SpecVec3 {
    spec_sub(v, spec_scale(u, spec_dot(u, v)))
}

/// The fixed-point dot product of two vectors from the unit ball is at
/// most three units.
pub proof fn lemma_dot_ball_bound(a: SpecVec3, b: SpecVec3)
    requires
        bounded(a, SCALE as int),
        bounded(b, SCALE as int),
    ensures
        -3 * (SCALE as int) <= spec_dot(a, b) <= 3 * (SCALE as int),
{
    let k: int = SCALE as int;
    lemma_mul_abs_bound(a.x, b.x, k);
    lemma_mul_abs_bound(a.y, b.y, k);
    lemma_mul_abs_bound(a.z, b.z, k);
    lemma_div_trunc_bounds(spec_dot_raw(a, b), k);
}

/// Scaling a vector from the unit ball by at most three units keeps
/// its coordinates within a few units.
pub proof fn lemma_scale_ball_bound(u: SpecVec3, t: int)
    requires
        bounded(u, SCALE as int),
        -3 * (SCALE as int) <= t <= 3 * (SCALE as int),
    ensures
        bounded(spec_scale(u, t), 3 * (SCALE as int) + 1),
{
    let k: int = SCALE as int;
    lemma_mul_abs_wide(u.x, t, k, 3 * k);
    lemma_mul_abs_wide(u.y, t, k, 3 * k);
    lemma_mul_abs_wide(u.z, t, k, 3 * k);
    lemma_div_trunc_bounds(u.x * t, k);
    lemma_div_trunc_bounds(u.y * t, k);
    lemma_div_trunc_bounds(u.z * t, k);
}

/// The Gram-Schmidt correction of one unit vector against another is
/// itself a unit vector, whenever it is long enough to normalize.
pub proof fn lemma_gs_unit(u: SpecVec3, v: SpecVec3)
    requires
        unit_vec(u),
        unit_vec(v),
        MIN_NORM_SQ <= spec_norm_sq(spec_gs_diff(u, v)),
    ensures
        unit_vec(spec_normalize(spec_gs_diff(u, v))),
{
    lemma_dot_ball_bound(u, v);
    lemma_scale_ball_bound(u, spec_dot(u, v));
    lemma_normalize_bounds(spec_gs_diff(u, v));
}

proof fn lemma_assoc_mul(a: int, b: int, t: int)
    by (nonlinear_arith)
    ensures
        a * (b * t) == (a * b) * t,
{
}

proof fn lemma_dot_scale_regroup(ux: int, uy: int, uz: int, fx: int, fy: int, fz: int, t: int)
    ensures
        ux * (fx * t) + uy * (fy * t) + uz * (fz * t) == (ux * fx + uy * fy + uz * fz) * t,
{
    lemma_assoc_mul(ux, fx, t);
    lemma_assoc_mul(uy, fy, t);
    lemma_assoc_mul(uz, fz, t);
    lemma_distrib3(ux * fx, uy * fy, uz * fz, t);
}

proof fn lemma_dot_sub(u: SpecVec3, a: SpecVec3, b: SpecVec3)
    by (nonlinear_arith)
    ensures
        spec_dot_raw(u, spec_sub(a, b)) == spec_dot_raw(u, a) - spec_dot_raw(u, b),
{
}

/// A vector nearly orthogonal to `u` stays so after being scaled by a
/// few units: the raw dot of `u` with `scale(f, t)` is controlled by
/// the raw dot of `u` with `f`.
proof fn lemma_dot_scale_bound(u: SpecVec3, f: SpecVec3, t: int)
    requires
        bounded(u, SCALE as int),
        bounded(f, SCALE as int),
        -3 * (SCALE as int) <= t <= 3 * (SCALE as int),
        sabs(spec_dot_raw(u, f)) <= 131 * (SCALE as int),
    ensures
        sabs(spec_dot_raw(u, spec_scale(f, t))) <= 396 * (SCALE as int),
{
    let k: int = SCALE as int;
    let sc = spec_scale(f, t);
    let e1 = sc.x * k - f.x * t;
    let e2 = sc.y * k - f.y * t;
    let e3 = sc.z * k - f.z * t;
    lemma_trunc_close(f.x * t, k);
    lemma_trunc_close(f.y * t, k);
    lemma_trunc_close(f.z * t, k);
    assert(-k < e1 < k && -k < e2 < k && -k < e3 < k);
    lemma_cross_comp(u.x, sc.x, f.x * t, k, e1);
    lemma_cross_comp(u.y, sc.y, f.y * t, k, e2);
    lemma_cross_comp(u.z, sc.z, f.z * t, k, e3);
    lemma_distrib3(u.x * sc.x, u.y * sc.y, u.z * sc.z, k);
    lemma_dot_scale_regroup(u.x, u.y, u.z, f.x, f.y, f.z, t);
    assert(spec_dot_raw(u, sc) * k == spec_dot_raw(u, f) * t + (u.x * e1 + u.y * e2 + u.z
        * e3));
    lemma_mul_abs_wide(spec_dot_raw(u, f), t, 131 * k, 3 * k);
    lemma_mul_abs_wide(u.x, e1, k, k);
    lemma_mul_abs_wide(u.y, e2, k, k);
    lemma_mul_abs_wide(u.z, e3, k, k);
    assert(sabs(spec_dot_raw(u, sc)) <= 396 * k) by (nonlinear_arith)
        requires
            spec_dot_raw(u, sc) * k == spec_dot_raw(u, f) * t + (u.x * e1 + u.y * e2 + u.z
                * e3),
            -((131 * k) * (3 * k)) <= spec_dot_raw(u, f) * t <= (131 * k) * (3 * k),
            -(k * k) <= u.x * e1 <= k * k,
            -(k * k) <= u.y * e2 <= k * k,
            -(k * k) <= u.z * e3 <= k * k,
            k == SCALE as int;
}

/// The whole per-tick re-orthonormalization pass: with `up` held fixed,
/// `forward` corrected against `up`, and `right` corrected first
/// against `up` and then against the corrected `forward`, all three
/// pairs of the resulting frame are orthogonal within rounding noise
/// (raw dots of a few hundred times `SCALE`, that is a few parts in ten
/// thousand, where exact orthogonality is zero and the raw scale of
/// `SCALE * SCALE` stands for one).
pub proof fn lemma_frame_orthogonal(u: SpecVec3, v1: SpecVec3, v2: SpecVec3)
    requires
        unit_vec(u),
        unit_vec(v1),
        unit_vec(v2),
        MIN_NORM_SQ <= spec_norm_sq(spec_gs_diff(u, v1)),
        MIN_NORM_SQ <= spec_norm_sq(spec_gs_diff(u, v2)),
        MIN_NORM_SQ <= spec_norm_sq(spec_gs_diff(
            spec_normalize(spec_gs_diff(u, v1)),
            spec_normalize(spec_gs_diff(u, v2)),
        )),
    ensures
        ({
            let f = spec_normalize(spec_gs_diff(u, v1));
            let r = spec_normalize(spec_gs_diff(f, spec_normalize(spec_gs_diff(u, v2))));
            sabs(spec_dot_raw(u, f)) <= 131 * (SCALE as int)
                && sabs(spec_dot_raw(f, r)) <= 131 * (SCALE as int)
                && sabs(spec_dot_raw(u, r)) <= 2111 * (SCALE as int)
        }),
{
    let k: int = SCALE as int;
    let f = spec_normalize(spec_gs_diff(u, v1));
    let r1 = spec_normalize(spec_gs_diff(u, v2));
    lemma_gram_schmidt_orthogonal(u, v1);
    lemma_gram_schmidt_orthogonal(u, v2);
    lemma_gs_unit(u, v1);
    lemma_gs_unit(u, v2);
    lemma_gram_schmidt_orthogonal(f, r1);
    // The second correction moves `right` out of orthogonality with
    // `up` by no more than it moves it along `forward`.
    let t = spec_dot(f, r1);
    lemma_dot_ball_bound(f, r1);
    lemma_dot_scale_bound(u, f, t);
    lemma_dot_sub(u, r1, spec_scale(f, t));
    let w = spec_gs_diff(f, r1);
    assert(sabs(spec_dot_raw(u, w)) <= 527 * k);
    lemma_normalize_dot_bound(u, w, 527 * k);
}


proof fn lemma_dot_raw_sym(a: SpecVec3, b: SpecVec3)
    by (nonlinear_arith)
    ensures
        spec_dot_raw(a, b) == spec_dot_raw(b, a),
{
}

proof fn lemma_dot_raw_add(u: SpecVec3, a: SpecVec3, b: SpecVec3)
    by (nonlinear_arith)
    ensures
        spec_dot_raw(u, spec_add(a, b)) == spec_dot_raw(u, a) + spec_dot_raw(u, b),
{
}

/// Nearby vectors have nearby raw dot products with any vector of the
/// unit ball.
pub proof fn lemma_dot_near(a: SpecVec3, b: SpecVec3, f: SpecVec3, m: int)
    requires
        bounded(spec_sub(a, b), m),
        bounded(f, SCALE as int),
        0 <= m,
    ensures
        spec_dot_raw(b, f) - 3 * m * (SCALE as int) <= spec_dot_raw(a, f)
            <= spec_dot_raw(b, f) + 3 * m * (SCALE as int),
{
    let k: int = SCALE as int;
    lemma_mul_abs_wide(a.x - b.x, f.x, m, k);
    lemma_mul_abs_wide(a.y - b.y, f.y, m, k);
    lemma_mul_abs_wide(a.z - b.z, f.z, m, k);
    assert(spec_dot_raw(a, f) - spec_dot_raw(b, f) == (a.x - b.x) * f.x + (a.y - b.y) * f.y
        + (a.z - b.z) * f.z) by (nonlinear_arith)
        requires
            spec_dot_raw(a, f) == a.x * f.x + a.y * f.y + a.z * f.z,
            spec_dot_raw(b, f) == b.x * f.x + b.y * f.y + b.z * f.z;
}

/// Renormalizing a vector that is already unit length moves each
/// coordinate by at most a few units.
pub proof fn lemma_normalize_near_identity(c: SpecVec3)
    requires
        unit_vec(c),
    ensures
        bounded(spec_sub(spec_normalize(c), c), 6),
{
    let k: int = SCALE as int;
    let s = spec_norm_sq(c);
    lemma_isqrt_bounds(s);
    let r = spec_isqrt(s);
    assert(k - 3 <= r <= k + 4) by (nonlinear_arith)
        requires
            UNIT_NORM_SQ_LO <= s <= UNIT_NORM_SQ_HI,
            r * r <= s,
            s < (r + 1) * (r + 1),
            r >= 0,
            k == SCALE as int;
    let n = spec_normalize(c);
    lemma_trunc_close(c.x * k, r);
    lemma_trunc_close(c.y * k, r);
    lemma_trunc_close(c.z * k, r);
    assert(sabs(n.x - c.x) <= 6) by (nonlinear_arith)
        requires
            c.x * k - r < n.x * r < c.x * k + r,
            -k <= c.x <= k,
            k - 3 <= r <= k + 4,
            k == SCALE as int;
    assert(sabs(n.y - c.y) <= 6) by (nonlinear_arith)
        requires
            c.y * k - r < n.y * r < c.y * k + r,
            -k <= c.y <= k,
            k - 3 <= r <= k + 4,
            k == SCALE as int;
    assert(sabs(n.z - c.z) <= 6) by (nonlinear_arith)
        requires
            c.z * k - r < n.z * r < c.z * k + r,
            -k <= c.z <= k,
            k - 3 <= r <= k + 4,
            k == SCALE as int;
}

/// Scaling a vector of the unit ball by a scalar of magnitude at most
/// `tm` gives coordinates of magnitude at most `tm`.
pub proof fn lemma_scale_comp_bound(v: SpecVec3, t: int, tm: int)
    requires
        bounded(v, SCALE as int),
        -tm <= t <= tm,
        0 <= tm,
    ensures
        bounded(spec_scale(v, t), tm),
{
    let k: int = SCALE as int;
    lemma_mul_abs_wide(v.x, t, k, tm);
    lemma_mul_abs_wide(v.y, t, k, tm);
    lemma_mul_abs_wide(v.z, t, k, tm);
    lemma_div_trunc_bounds(v.x * t, k);
    lemma_div_trunc_bounds(v.y * t, k);
    lemma_div_trunc_bounds(v.z * t, k);
}

/// How far the moved-and-renormalized center can tilt against a vector
/// the pre-move up was orthogonal to: the residual is the rounding
/// noise `c0` inflated by renormalization, plus a term linear in the
/// step scalar.  `u1` must be the renormalized `c1`, and `c2` the
/// translation result the navigator computes.
pub proof fn lemma_up_refresh_dot(
    c1: SpecVec3,
    u1: SpecVec3,
    mv: SpecVec3,
    sd: int,
    f: SpecVec3,
    c0: int,
    sdm: int,
)
    requires
        unit_vec(c1),
        u1 == spec_normalize(c1),
        unit_vec(f),
        -sdm <= sd <= sdm,
        0 <= sdm,
        sabs(spec_dot_raw(u1, f)) <= c0,
        0 <= c0,
        bounded(mv, SCALE as int),
    ensures
        ({
            let w = spec_add(c1, spec_scale(mv, sd));
            let c2 = spec_normalize_or(w, c1);
            let u2 = spec_normalize_or(c2, u1);
            unit_vec(c2) ==> sabs(spec_dot_raw(u2, f)) <= 4 * c0 + 12 * sdm * (SCALE as int)
                + 93 * (SCALE as int)
        }),
{
    let k: int = SCALE as int;
    let sc = spec_scale(mv, sd);
    let w = spec_add(c1, sc);
    let c2 = spec_normalize_or(w, c1);
    let u2 = spec_normalize_or(c2, u1);
    if unit_vec(c2) {
        // The pre-move center is as orthogonal to `f` as the up built
        // from it, within renormalization rounding.
        lemma_normalize_near_identity(c1);
        lemma_dot_near(u1, c1, f, 6);
        assert(sabs(spec_dot_raw(c1, f)) <= c0 + 18 * k);
        // The movement contributes at most its scalar magnitude.
        lemma_scale_comp_bound(mv, sd, sdm);
        lemma_mul_abs_wide(sc.x, f.x, sdm, k);
        lemma_mul_abs_wide(sc.y, f.y, sdm, k);
        lemma_mul_abs_wide(sc.z, f.z, sdm, k);
        assert(sabs(spec_dot_raw(sc, f)) <= 3 * sdm * k);
        lemma_dot_raw_sym(w, f);
        lemma_dot_raw_add(f, c1, sc);
        lemma_dot_raw_sym(f, c1);
        lemma_dot_raw_sym(f, sc);
        assert(sabs(spec_dot_raw(w, f)) <= c0 + 18 * k + 3 * sdm * k);
        // Through the renormalization of the moved center.
        if spec_norm_sq(w) >= MIN_NORM_SQ {
            lemma_dot_raw_sym(f, w);
            lemma_normalize_dot_bound(f, w, c0 + 18 * k + 3 * sdm * k);
            lemma_dot_raw_sym(f, spec_normalize(w));
            assert(sabs(spec_dot_raw(c2, f)) <= 4 * (c0 + 18 * k + 3 * sdm * k) + 3 * k);
        } else {
            assert(c2 == c1);
            assert(sabs(spec_dot_raw(c2, f)) <= 4 * (c0 + 18 * k + 3 * sdm * k) + 3 * k);
        }
        // And through the refresh of up from the moved center.
        assert(spec_norm_sq(c2) >= MIN_NORM_SQ);
        assert(u2 == spec_normalize(c2));
        lemma_normalize_near_identity(c2);
        lemma_dot_near(u2, c2, f, 6);
        assert(sabs(spec_dot_raw(u2, f)) <= 4 * (c0 + 18 * k + 3 * sdm * k) + 3 * k + 18 * k);
    }
}

} // verus!
