//! Fixed-point numbers and three-component vectors.
//!
//! A real number `v` is held as the integer `v * ONE`, rounded. Products of two
//! such numbers are kept at the scale `ONE * ONE` until they are divided back.
use vstd::prelude::*;

verus! {

/// The fixed-point representation of 1.0.
pub const ONE: i64 = 65536;

/// Squared length, at scale `ONE * ONE`, below which a vector is treated as having
/// no direction: components that small carry too little precision to be normalized.
pub const MIN_NORM_SQ: i64 = 1024;

/// Largest component magnitude accepted by `normalize`.
pub const NORMALIZE_LIMIT: i64 = 0x1000_0000_0000;

/// Largest component magnitude accepted by `Vec3::scale`.
pub const SCALE_LIMIT: i64 = 0x1000_0000_0000;

/// Largest factor magnitude accepted by `Vec3::scale`.
pub const FACTOR_LIMIT: i64 = 0x4_0000_0000;

/// A point or a direction in space, each coordinate in fixed point.
#[derive(Clone, Copy, Debug, PartialEq, Eq, Structural)]
pub struct Vec3 {
    pub x: i64,
    pub y: i64,
    pub z: i64,
}

/// Dot product of two vectors, at scale `ONE * ONE`.
pub open spec fn dot(a: Vec3, b: Vec3) -> int {
    a.x * b.x + a.y * b.y + a.z * b.z
}

/// Squared length of a vector, at scale `ONE * ONE`.
pub open spec fn norm_sq(a: Vec3) -> int {
    dot(a, a)
}

/// Every component of `a` lies in `[-limit, limit]`.
pub open spec fn bounded(a: Vec3, limit: int) -> bool {
    -limit <= a.x <= limit && -limit <= a.y <= limit && -limit <= a.z <= limit
}

/// `a` has unit length within the tolerance of the renderer: its squared length
/// lies in `[0.9, 1.1]`.
pub open spec fn is_unit(a: Vec3) -> bool {
    9 * (ONE * ONE) <= 10 * norm_sq(a) && 10 * norm_sq(a) <= 11 * (ONE * ONE)
}

/// The vector with components `(x, y, z)`, when they fit in `i64`.
pub open spec fn vec_of(x: int, y: int, z: int) -> Vec3 {
    Vec3 { x: x as i64, y: y as i64, z: z as i64 }
}

/// `r` is the integer square root of `n`.
pub open spec fn is_sqrt_floor(n: int, r: int) -> bool {
    0 <= r && r * r <= n && n < (r + 1) * (r + 1)
}

/// The integer square root of `n` (for `n >= 0`).
pub open spec fn sqrt_floor(n: int) -> int {
    choose|r: int| is_sqrt_floor(n, r)
}

/// `n / d` rounded toward zero, for `d > 0`, as Rust's integer division does.
pub open spec fn div_trunc(n: int, d: int) -> int {
    if n >= 0 {
        n / d
    } else {
        -((-n) / d)
    }
}

/// A fixed-point product `a * b`, rounded toward zero.
pub open spec fn fmul(a: int, b: int) -> int {
    div_trunc(a * b, ONE as int)
}

/// The integer square root is unique.
pub proof fn lemma_sqrt_floor_unique(n: int, r: int)
    requires
        is_sqrt_floor(n, r),
    ensures
        sqrt_floor(n) == r,
{
    let s = sqrt_floor(n);
    assert(is_sqrt_floor(n, s));
    if s < r {
        assert((s + 1) * (s + 1) <= r * r) by (nonlinear_arith)
            requires
                0 <= s < r,
        ;
    } else if r < s {
        assert((r + 1) * (r + 1) <= s * s) by (nonlinear_arith)
            requires
                0 <= r < s,
        ;
    }
}

/// Every natural number has an integer square root.
pub proof fn lemma_sqrt_floor_exists(n: int)
    requires
        n >= 0,
    ensures
        is_sqrt_floor(n, sqrt_floor(n)),
    decreases n,
{
    if n == 0 {
        assert(is_sqrt_floor(0, 0));
    } else {
        lemma_sqrt_floor_exists(n - 1);
        let r = sqrt_floor(n - 1);
        if (r + 1) * (r + 1) <= n {
            assert(n < (r + 2) * (r + 2)) by (nonlinear_arith)
                requires
                    n - 1 < (r + 1) * (r + 1),
                    r >= 0,
            ;
            assert(is_sqrt_floor(n, r + 1));
        } else {
            assert(is_sqrt_floor(n, r));
        }
    }
}

/// Integer square root of a 128-bit number, by bisection.
pub fn isqrt(n: u128) -> (r: u128)
    ensures
        is_sqrt_floor(n as int, r as int),
        r == sqrt_floor(n as int),
        r <= 0x1_0000_0000_0000_0000,
{
    let mut lo: u128 = 0;
    let mut hi: u128 = 0x1_0000_0000_0000_0000;
    assert(n < hi * hi) by (nonlinear_arith)
        requires
            n <= 0xffff_ffff_ffff_ffff_ffff_ffff_ffff_ffff,
            hi == 0x1_0000_0000_0000_0000u128,
    ;
    while hi - lo > 1
        invariant
            lo < hi <= 0x1_0000_0000_0000_0000,
            lo * lo <= n,
            n < hi * hi,
        decreases hi - lo,
    {
        let mid: u128 = lo + (hi - lo) / 2;
        assert(mid * mid <= 0xffff_ffff_ffff_fffe_0000_0000_0000_0001) by (nonlinear_arith)
            requires
                mid < 0x1_0000_0000_0000_0000,
        ;
        if mid * mid <= n {
            lo = mid;
        } else {
            hi = mid;
        }
    }
    assert(hi == lo + 1);
    proof {
        lemma_sqrt_floor_unique(n as int, lo as int);
    }
    lo
}

impl Vec3 {
    /// The vector `(x, y, z)`.
    pub fn new(x: i64, y: i64, z: i64) -> (r: Vec3)
        ensures
            r == (Vec3 { x, y, z }),
    {
        Vec3 { x, y, z }
    }

    /// The zero vector.
    pub fn zero() -> (r: Vec3)
        ensures
            r == (Vec3 { x: 0, y: 0, z: 0 }),
    {
        Vec3 { x: 0, y: 0, z: 0 }
    }

    /// Componentwise sum.
    pub fn add(&self, o: &Vec3) -> (r: Vec3)
        requires
            bounded(*self, 0x2000_0000_0000_0000),
            bounded(*o, 0x2000_0000_0000_0000),
        ensures
            r == vec_of(self.x + o.x, self.y + o.y, self.z + o.z),
    {
        Vec3 { x: self.x + o.x, y: self.y + o.y, z: self.z + o.z }
    }

    /// Componentwise difference.
    pub fn sub(&self, o: &Vec3) -> (r: Vec3)
        requires
            bounded(*self, 0x2000_0000_0000_0000),
            bounded(*o, 0x2000_0000_0000_0000),
        ensures
            r == vec_of(self.x - o.x, self.y - o.y, self.z - o.z),
    {
        Vec3 { x: self.x - o.x, y: self.y - o.y, z: self.z - o.z }
    }

    /// The vector pointing the other way.
    pub fn neg(&self) -> (r: Vec3)
        requires
            bounded(*self, 0x2000_0000_0000_0000),
        ensures
            r == vec_of(-self.x, -self.y, -self.z),
    {
        Vec3 { x: -self.x, y: -self.y, z: -self.z }
    }

    /// Dot product, at scale `ONE * ONE`.
    pub fn dot(&self, o: &Vec3) -> (r: i128)
        requires
            bounded(*self, 0x1_0000_0000_0000),
            bounded(*o, 0x1_0000_0000_0000),
        ensures
            r == dot(*self, *o),
    {
        proof {
            lemma_mul_bounded(self.x as int, o.x as int, 0x1_0000_0000_0000);
            lemma_mul_bounded(self.y as int, o.y as int, 0x1_0000_0000_0000);
            lemma_mul_bounded(self.z as int, o.z as int, 0x1_0000_0000_0000);
        }
        (self.x as i128) * (o.x as i128) + (self.y as i128) * (o.y as i128) + (self.z as i128) * (
        o.z as i128)
    }

    /// Each component multiplied by the fixed-point factor `k`, rounded toward zero.
    pub fn scale(&self, k: i64) -> (r: Vec3)
        requires
            bounded(*self, SCALE_LIMIT as int),
            -FACTOR_LIMIT <= k <= FACTOR_LIMIT,
        ensures
            r == vec_of(fmul(self.x as int, k as int), fmul(self.y as int, k as int), fmul(self.z as int, k as int)),
    {
        let x = scale_component(self.x, k);
        let y = scale_component(self.y, k);
        let z = scale_component(self.z, k);
        Vec3 { x, y, z }
    }
}

/// A product of two numbers of magnitude at most `m` has magnitude at most `m * m`.
pub proof fn lemma_mul_bounded(a: int, b: int, m: int)
    requires
        -m <= a <= m,
        -m <= b <= m,
    ensures
        -(m * m) <= a * b <= m * m,
{
    assert(-(m * m) <= a * b <= m * m) by (nonlinear_arith)
        requires
            -m <= a <= m,
            -m <= b <= m,
    ;
}

/// A fixed-point product of two non-negative numbers is non-negative and no larger
/// than the product of their bounds.
pub proof fn lemma_fmul_nonneg(a: int, b: int, ma: int, mb: int)
    requires
        0 <= a <= ma,
        0 <= b <= mb,
    ensures
        0 <= fmul(a, b) <= (ma * mb) / (ONE as int),
{
    assert(0 <= a * b <= ma * mb) by (nonlinear_arith)
        requires
            0 <= a <= ma,
            0 <= b <= mb,
    ;
    vstd::arithmetic::div_mod::lemma_div_is_ordered(a * b, ma * mb, ONE as int);
    vstd::arithmetic::div_mod::lemma_div_pos_is_pos(a * b, ONE as int);
}

/// A quotient rounded toward zero is no larger than `m` when the dividend is at most
/// `m` times the divisor.
pub proof fn lemma_div_trunc_le(n: int, d: int, m: int)
    requires
        d >= 1,
        m >= 0,
        -(m * d) <= n <= m * d,
    ensures
        -m <= div_trunc(n, d) <= m,
{
    let a = if n >= 0 { n } else { -n };
    vstd::arithmetic::div_mod::lemma_fundamental_div_mod(a, d);
    vstd::arithmetic::div_mod::lemma_div_pos_is_pos(a, d);
    vstd::arithmetic::div_mod::lemma_mod_pos_bound(a, d);
    let q = a / d;
    assert(d * q <= a);
    assert(q <= m) by (nonlinear_arith)
        requires
            d * q <= a,
            a <= m * d,
            d >= 1,
    ;
}

/// A product is no larger than the product of the bounds of its factors.
pub proof fn lemma_mul_bounds(a: int, b: int, ma: int, mb: int)
    requires
        -ma <= a <= ma,
        -mb <= b <= mb,
    ensures
        -(ma * mb) <= a * b <= ma * mb,
{
    assert(-(ma * mb) <= a * b <= ma * mb) by (nonlinear_arith)
        requires
            -ma <= a <= ma,
            -mb <= b <= mb,
    ;
}

/// `n` divided by the positive `d`, rounded toward zero, for an `n` that fits in `i128`.
pub fn div_trunc_i128(n: i128, d: i128) -> (r: i128)
    requires
        d > 0,
        n > i128::MIN,
    ensures
        r == div_trunc(n as int, d as int),
{
    if n >= 0 {
        ((n as u128) / (d as u128)) as i128
    } else {
        let m: u128 = (-n) as u128;
        let q: u128 = m / (d as u128);
        assert(q <= m);
        -(q as i128)
    }
}

/// One component multiplied by a fixed-point factor.
pub fn scale_component(a: i64, k: i64) -> (r: i64)
    requires
        -SCALE_LIMIT <= a <= SCALE_LIMIT,
        -FACTOR_LIMIT <= k <= FACTOR_LIMIT,
    ensures
        r == fmul(a as int, k as int),
{
    proof {
        lemma_fmul_bound(a as int, k as int, SCALE_LIMIT as int, FACTOR_LIMIT as int);
        lemma_mul_bounded(a as int, k as int, SCALE_LIMIT as int);
    }
    let p: i128 = (a as i128) * (k as i128);
    let q = div_trunc_i128(p, ONE as i128);
    q as i64
}

/// A fixed-point product is no larger than the product of the bounds of its factors.
pub proof fn lemma_fmul_bound(a: int, b: int, ma: int, mb: int)
    requires
        -ma <= a <= ma,
        -mb <= b <= mb,
    ensures
        -((ma * mb) / (ONE as int)) <= fmul(a, b) <= (ma * mb) / (ONE as int),
{
    let p = a * b;
    assert(-(ma * mb) <= p <= ma * mb) by (nonlinear_arith)
        requires
            -ma <= a <= ma,
            -mb <= b <= mb,
            p == a * b,
    ;
    if p >= 0 {
        vstd::arithmetic::div_mod::lemma_div_is_ordered(p, ma * mb, ONE as int);
    } else {
        vstd::arithmetic::div_mod::lemma_div_is_ordered(-p, ma * mb, ONE as int);
    }
}


/// `v` scaled to unit length, or `None` when `v` is too short to have a direction.
/// Each component is `v_i * ONE / sqrt(|v|^2)`, rounded toward zero.
pub open spec fn normalize_spec(v: Vec3) -> Option<Vec3> {
    if norm_sq(v) < MIN_NORM_SQ {
        None
    } else {
        let s = sqrt_floor(norm_sq(v));
        Some(
            vec_of(
                div_trunc(v.x * ONE, s),
                div_trunc(v.y * ONE, s),
                div_trunc(v.z * ONE, s),
            ),
        )
    }
}

/// One component divided by the length `s`, in fixed point.
fn unit_component(a: i64, s: u128) -> (r: i64)
    requires
        -NORMALIZE_LIMIT <= a <= NORMALIZE_LIMIT,
        32 <= s,
        (a as int) * (a as int) < (s + 1) * (s + 1),
    ensures
        r == div_trunc(a * ONE, s as int),
        -ONE <= r <= ONE,
{
    let m: u128 = if a >= 0 {
        a as u128
    } else {
        (-a) as u128
    };
    proof {
        assert(m * m == (a as int) * (a as int)) by (nonlinear_arith)
            requires
                m == a || m == -a,
        ;
        assert(m <= s) by (nonlinear_arith)
            requires
                m * m < (s + 1) * (s + 1),
                m >= 0,
                s >= 0,
        ;
        assert(m * 65536 <= s * 65536) by (nonlinear_arith)
            requires
                m <= s,
        ;
        vstd::arithmetic::div_mod::lemma_div_is_ordered((m * 65536) as int, (s * 65536) as int, s as int);
        vstd::arithmetic::div_mod::lemma_div_multiples_vanish(65536, s as int);
        assert((s * 65536) as int == (s as int) * 65536);
        assert((m * 65536) as int == (m as int) * 65536);
        assert(a >= 0 ==> (a as int) * ONE == (m as int) * 65536);
        assert(a < 0 ==> -((a as int) * ONE) == (m as int) * 65536);
    }
    let q: u128 = (m * 65536) / s;
    if a >= 0 {
        q as i64
    } else {
        -(q as i64)
    }
}

/// `v` scaled to unit length; `None` when its squared length is under `MIN_NORM_SQ`.
pub fn normalize(v: &Vec3) -> (r: Option<Vec3>)
    requires
        bounded(*v, NORMALIZE_LIMIT as int),
    ensures
        r == normalize_spec(*v),
        r matches Some(u) ==> is_unit(u) && bounded(u, ONE as int),
        r is None <==> norm_sq(*v) < MIN_NORM_SQ,
{
    proof {
        lemma_mul_bounded(v.x as int, v.x as int, NORMALIZE_LIMIT as int);
        lemma_mul_bounded(v.y as int, v.y as int, NORMALIZE_LIMIT as int);
        lemma_mul_bounded(v.z as int, v.z as int, NORMALIZE_LIMIT as int);
        assert(v.x * v.x >= 0 && v.y * v.y >= 0 && v.z * v.z >= 0) by (nonlinear_arith);
    }
    let sq: i128 = (v.x as i128) * (v.x as i128) + (v.y as i128) * (v.y as i128) + (v.z as i128)
        * (v.z as i128);
    if sq < MIN_NORM_SQ as i128 {
        return None;
    }
    let s = isqrt(sq as u128);
    proof {
        assert(s >= 32) by (nonlinear_arith)
            requires
                sq < (s + 1) * (s + 1),
                sq >= 1024,
                s >= 0,
        ;
        assert(v.x * v.x <= sq && v.y * v.y <= sq && v.z * v.z <= sq) by (nonlinear_arith)
            requires
                sq == v.x * v.x + v.y * v.y + v.z * v.z,
        ;
    }
    let x = unit_component(v.x, s);
    let y = unit_component(v.y, s);
    let z = unit_component(v.z, s);
    let u = Vec3 { x, y, z };
    proof {
        lemma_normalized_is_unit(v.x as int, v.y as int, v.z as int, s as int);
    }
    Some(u)
}

/// The quotient `q = (a * ONE) / s` puts `a * ONE` between `s * q` and `s * (q + 1)`,
/// and the squares of the three likewise.
proof fn lemma_unit_part(a: int, s: int, q: int)
    requires
        s >= 32,
        a >= 0,
        q == (a * 65536) / s,
    ensures
        s * q <= a * 65536 < s * (q + 1),
        s * s * (q * q) <= (a * a) * (65536 * 65536),
        (a * a) * (65536 * 65536) < s * s * (q * q + 2 * q + 1),
        q >= 0,
{
    vstd::arithmetic::div_mod::lemma_fundamental_div_mod(a * 65536, s);
    assert(a * 65536 >= 0) by (nonlinear_arith)
        requires
            a >= 0,
    ;
    vstd::arithmetic::div_mod::lemma_div_pos_is_pos(a * 65536, s);
    let r = (a * 65536) % s;
    assert(0 <= r < s);
    assert(s * q <= a * 65536 < s * (q + 1)) by (nonlinear_arith)
        requires
            a * 65536 == s * q + r,
            0 <= r < s,
    ;
    assert((s * q) * (s * q) <= (a * 65536) * (a * 65536)) by (nonlinear_arith)
        requires
            0 <= s * q <= a * 65536,
    ;
    assert(s * s * (q * q) <= (a * a) * (65536 * 65536)) by (nonlinear_arith)
        requires
            (s * q) * (s * q) <= (a * 65536) * (a * 65536),
    ;
    assert((a * 65536) * (a * 65536) < (s * (q + 1)) * (s * (q + 1))) by (nonlinear_arith)
        requires
            0 <= a * 65536 < s * (q + 1),
    ;
    assert((a * a) * (65536 * 65536) < s * s * (q * q + 2 * q + 1)) by (nonlinear_arith)
        requires
            (a * 65536) * (a * 65536) < (s * (q + 1)) * (s * (q + 1)),
    ;
}

/// A vector whose components are divided by the integer square root of its squared
/// length, in fixed point, has unit length within the tolerance.
proof fn lemma_normalized_is_unit(x: int, y: int, z: int, s: int)
    requires
        s >= 32,
        is_sqrt_floor(x * x + y * y + z * z, s),
    ensures
        ({
            let dx = div_trunc(x * ONE, s);
            let dy = div_trunc(y * ONE, s);
            let dz = div_trunc(z * ONE, s);
            &&& 9 * (ONE * ONE) <= 10 * (dx * dx + dy * dy + dz * dz)
            &&& 10 * (dx * dx + dy * dy + dz * dz) <= 11 * (ONE * ONE)
        }),
{
    let ax = if x >= 0 { x } else { -x };
    let ay = if y >= 0 { y } else { -y };
    let az = if z >= 0 { z } else { -z };
    let qx = (ax * 65536) / s;
    let qy = (ay * 65536) / s;
    let qz = (az * 65536) / s;
    lemma_unit_part(ax, s, qx);
    lemma_unit_part(ay, s, qy);
    lemma_unit_part(az, s, qz);
    let n = x * x + y * y + z * z;
    assert(ax * ax + ay * ay + az * az == n) by (nonlinear_arith)
        requires
            ax == x || ax == -x,
            ay == y || ay == -y,
            az == z || az == -z,
            n == x * x + y * y + z * z,
    ;
    assert(div_trunc(x * ONE, s) == qx || div_trunc(x * ONE, s) == -qx) by {
        if x < 0 {
            assert(-(x * ONE) == ax * 65536);
        }
    }
    assert(div_trunc(y * ONE, s) == qy || div_trunc(y * ONE, s) == -qy) by {
        if y < 0 {
            assert(-(y * ONE) == ay * 65536);
        }
    }
    assert(div_trunc(z * ONE, s) == qz || div_trunc(z * ONE, s) == -qz) by {
        if z < 0 {
            assert(-(z * ONE) == az * 65536);
        }
    }
    let q2 = qx * qx + qy * qy + qz * qz;
    let k = 65536int * 65536;
    // upper bound
    assert(s * s * q2 == s * s * (qx * qx) + s * s * (qy * qy) + s * s * (qz * qz)) by (nonlinear_arith)
        requires
            q2 == qx * qx + qy * qy + qz * qz,
    ;
    assert(n * k == (ax * ax) * k + (ay * ay) * k + (az * az) * k) by (nonlinear_arith)
        requires
            n == ax * ax + ay * ay + az * az,
    ;
    assert(s * s * q2 <= n * k);
    assert(n * k < (s + 1) * (s + 1) * k) by (nonlinear_arith)
        requires
            n < (s + 1) * (s + 1),
            k > 0,
    ;
    assert(10 * ((s + 1) * (s + 1)) <= 11 * (s * s)) by (nonlinear_arith)
        requires
            s >= 32,
    ;
    assert(s * s * (10 * q2) < s * s * (11 * k)) by (nonlinear_arith)
        requires
            s * s * q2 < (s + 1) * (s + 1) * k,
            10 * ((s + 1) * (s + 1)) <= 11 * (s * s),
            k > 0,
    ;
    assert(10 * q2 < 11 * k) by (nonlinear_arith)
        requires
            s * s * (10 * q2) < s * s * (11 * k),
            s >= 32,
    ;
    // lower bound
    assert(s * s * (q2 + 2 * (qx + qy + qz) + 3) == s * s * (qx * qx + 2 * qx + 1) + s * s * (qy
        * qy + 2 * qy + 1) + s * s * (qz * qz + 2 * qz + 1)) by (nonlinear_arith)
        requires
            q2 == qx * qx + qy * qy + qz * qz,
    ;
    assert(n * k < s * s * (q2 + 2 * (qx + qy + qz) + 3));
    assert(k < q2 + 2 * (qx + qy + qz) + 3) by (nonlinear_arith)
        requires
            s * s * k <= n * k,
            n * k < s * s * (q2 + 2 * (qx + qy + qz) + 3),
            s >= 32,
    ;
    assert(ax <= s && ay <= s && az <= s) by (nonlinear_arith)
        requires
            ax * ax + ay * ay + az * az < (s + 1) * (s + 1),
            ax >= 0,
            ay >= 0,
            az >= 0,
            s >= 0,
    ;
    assert(qx <= 65536 && qy <= 65536 && qz <= 65536) by (nonlinear_arith)
        requires
            s * qx <= ax * 65536,
            s * qy <= ay * 65536,
            s * qz <= az * 65536,
            ax <= s,
            ay <= s,
            az <= s,
            s >= 32,
    ;
    assert(9 * k <= 10 * q2);
    let dx = div_trunc(x * ONE, s);
    let dy = div_trunc(y * ONE, s);
    let dz = div_trunc(z * ONE, s);
    assert(dx * dx + dy * dy + dz * dz == q2) by (nonlinear_arith)
        requires
            dx == qx || dx == -qx,
            dy == qy || dy == -qy,
            dz == qz || dz == -qz,
            q2 == qx * qx + qy * qy + qz * qz,
    ;
}


/// The fixed-point representation of pi / 2, rounded up.
pub const HALF_PI: i64 = 102944;

/// `a / k` rounded toward zero.
pub open spec fn fdiv(a: int, k: int) -> int {
    div_trunc(a, k)
}

/// The sine of the angle `x` (radians, fixed point), by its Taylor polynomial through
/// the ninth power, evaluated in Horner form.
pub open spec fn sin_spec(x: int) -> int {
    let x2 = fmul(x, x);
    let h4 = ONE - fdiv(x2, 72);
    let h3 = ONE - fdiv(fmul(x2, h4), 42);
    let h2 = ONE - fdiv(fmul(x2, h3), 20);
    let h1 = ONE - fdiv(fmul(x2, h2), 6);
    fmul(x, h1)
}

/// The cosine of the angle `x` (radians, fixed point), by its Taylor polynomial
/// through the tenth power, evaluated in Horner form.
pub open spec fn cos_spec(x: int) -> int {
    let x2 = fmul(x, x);
    let g5 = ONE - fdiv(x2, 90);
    let g4 = ONE - fdiv(fmul(x2, g5), 56);
    let g3 = ONE - fdiv(fmul(x2, g4), 30);
    let g2 = ONE - fdiv(fmul(x2, g3), 12);
    ONE - fdiv(fmul(x2, g2), 2)
}

/// One Horner step `ONE - (x2 * h) / k`.
fn horner_step(x2: i64, h: i64, k: i64) -> (r: i64)
    requires
        0 <= x2 <= 0x3_0000,
        -0x4_0000 <= h <= 0x4_0000,
        1 <= k <= 100,
    ensures
        r == ONE - fdiv(fmul(x2 as int, h as int), k as int),
        -0x10_0000 <= r <= 0x10_0000,
        k >= 6 ==> -0x4_0000 <= r <= 0x4_0000,
{
    proof {
        lemma_fmul_bound(x2 as int, h as int, 0x3_0000, 0x4_0000);
    }
    let p = scale_component(x2, h);
    let q = div_trunc_i128(p as i128, k as i128);
    proof {
        let m: int = if p >= 0 { p as int } else { -p };
        let mq: int = m / (k as int);
        vstd::arithmetic::div_mod::lemma_fundamental_div_mod(m, k as int);
        vstd::arithmetic::div_mod::lemma_div_pos_is_pos(m, k as int);
        assert(q == mq || q == -mq);
        assert(k * mq <= m);
        assert(mq <= m) by (nonlinear_arith)
            requires
                k * mq <= m,
                k >= 1,
                mq >= 0,
        ;
        if k >= 6 {
            assert(6 * mq <= 0xc_0000) by (nonlinear_arith)
                requires
                    k * mq <= m,
                    m <= 0xc_0000,
                    k >= 6,
                    mq >= 0,
            ;
        }
    }
    ONE - q as i64
}

/// The sine and cosine of `x`, as `sin_spec` and `cos_spec` give them.
pub fn sin_cos(x: i64) -> (r: (i64, i64))
    requires
        -HALF_PI <= x <= HALF_PI,
    ensures
        r.0 == sin_spec(x as int),
        r.1 == cos_spec(x as int),
        -0x8_0000 <= r.0 <= 0x8_0000,
        -0x10_0000 <= r.1 <= 0x10_0000,
{
    proof {
        lemma_fmul_bound(x as int, x as int, HALF_PI as int, HALF_PI as int);
        assert(x * x >= 0) by (nonlinear_arith);
        vstd::arithmetic::div_mod::lemma_div_pos_is_pos(x * x, ONE as int);
    }
    let x2 = scale_component(x, x);
    proof {
        assert(0 <= x2 <= 0x3_0000);
    }
    let h4 = horner_step(x2, ONE, 72);
    let h3 = horner_step(x2, h4, 42);
    let h2 = horner_step(x2, h3, 20);
    let h1 = horner_step(x2, h2, 6);
    let g5 = horner_step(x2, ONE, 90);
    let g4 = horner_step(x2, g5, 56);
    let g3 = horner_step(x2, g4, 30);
    let g2 = horner_step(x2, g3, 12);
    let c = horner_step(x2, g2, 2);
    proof {
        lemma_fmul_bound(x as int, h1 as int, HALF_PI as int, 0x4_0000);
    }
    let s = scale_component(x, h1);
    (s, c)
}


/// The fixed-point representation of pi, rounded down.
pub const PI: i64 = 205887;

/// The fixed-point representation of two pi, rounded up.
pub const TWO_PI: i64 = 411775;

/// Largest angle magnitude accepted by `turn_sin_cos`.
pub const ANGLE_LIMIT: i64 = 0x100_0000_0000;

/// The angle `a` brought into `(-pi, pi]` by whole turns of `TWO_PI`.
pub open spec fn reduce_angle(a: int) -> int {
    let r = a % (TWO_PI as int);
    if r > PI {
        r - TWO_PI
    } else {
        r
    }
}

/// The sine of any angle: the angle is reduced to `(-pi, pi]` and, beyond a quarter
/// turn, reflected by `sin(x) = sin(pi - x)` (or `sin(-pi - x)`) into the range where
/// `sin_spec` applies.
pub open spec fn sin_any(a: int) -> int {
    let r = reduce_angle(a);
    if r > HALF_PI {
        sin_spec(PI - r)
    } else if r < -HALF_PI {
        sin_spec(-PI - r)
    } else {
        sin_spec(r)
    }
}

/// The cosine of any angle, reduced as `sin_any` does, with `cos(x) = -cos(pi - x)`
/// (or `-cos(-pi - x)`) beyond a quarter turn.
pub open spec fn cos_any(a: int) -> int {
    let r = reduce_angle(a);
    if r > HALF_PI {
        -cos_spec(PI - r)
    } else if r < -HALF_PI {
        -cos_spec(-PI - r)
    } else {
        cos_spec(r)
    }
}

/// The sine and cosine of any angle, as `sin_any` and `cos_any` give them.
pub fn turn_sin_cos(a: i64) -> (r: (i64, i64))
    requires
        -ANGLE_LIMIT <= a <= ANGLE_LIMIT,
    ensures
        r.0 == sin_any(a as int),
        r.1 == cos_any(a as int),
        -0x8_0000 <= r.0 <= 0x8_0000,
        -0x10_0000 <= r.1 <= 0x10_0000,
{
    let t: u64 = TWO_PI as u64;
    let r0: i64 = if a >= 0 {
        ((a as u64) % t) as i64
    } else {
        let m: u64 = ((-a) as u64) % t;
        proof {
            let q = (-a) / (TWO_PI as int);
            vstd::arithmetic::div_mod::lemma_fundamental_div_mod(-a, TWO_PI as int);
            vstd::arithmetic::div_mod::lemma_mod_pos_bound(-a, TWO_PI as int);
            if m == 0 {
                vstd::arithmetic::div_mod::lemma_fundamental_div_mod_converse(a as int, TWO_PI as int, -q, 0);
            } else {
                assert(a == (-q - 1) * TWO_PI + (TWO_PI - m)) by (nonlinear_arith)
                    requires
                        -a == TWO_PI * q + m,
                ;
                vstd::arithmetic::div_mod::lemma_fundamental_div_mod_converse(
                    a as int,
                    TWO_PI as int,
                    -q - 1,
                    TWO_PI - m,
                );
            }
        }
        if m == 0 {
            0
        } else {
            (t - m) as i64
        }
    };
    assert(r0 == (a as int) % (TWO_PI as int));
    let r = if r0 > PI {
        r0 - TWO_PI
    } else {
        r0
    };
    if r > HALF_PI {
        let sc = sin_cos(PI - r);
        (sc.0, -sc.1)
    } else if r < -HALF_PI {
        let sc = sin_cos(-PI - r);
        (sc.0, -sc.1)
    } else {
        sin_cos(r)
    }
}


/// The Cauchy-Schwarz inequality: a dot product squared is at most the product of the
/// squared lengths.
pub proof fn lemma_cauchy_schwarz(a: Vec3, b: Vec3)
    ensures
        dot(a, b) * dot(a, b) <= norm_sq(a) * norm_sq(b),
{
    lemma_lagrange_identity(a.x as int, a.y as int, a.z as int, b.x as int, b.y as int, b.z as int);
    let p = a.x * b.y - a.y * b.x;
    let q = a.x * b.z - a.z * b.x;
    let r = a.y * b.z - a.z * b.y;
    assert(p * p >= 0 && q * q >= 0 && r * r >= 0) by (nonlinear_arith);
}

/// Lagrange's identity in three dimensions.
proof fn lemma_lagrange_identity(ax: int, ay: int, az: int, bx: int, by: int, bz: int)
    ensures
        (ax * ax + ay * ay + az * az) * (bx * bx + by * by + bz * bz) - (ax * bx + ay * by + az
            * bz) * (ax * bx + ay * by + az * bz) == (ax * by - ay * bx) * (ax * by - ay * bx) + (
        ax * bz - az * bx) * (ax * bz - az * bx) + (ay * bz - az * by) * (ay * bz - az * by),
{
    let (a1, a2, a3) = (ax * ax, ay * ay, az * az);
    let (b1, b2, b3) = (bx * bx, by * by, bz * bz);
    lemma_sum3_product(a1, a2, a3, b1, b2, b3);
    lemma_square_of_product(ax, bx);
    lemma_square_of_product(ax, by);
    lemma_square_of_product(ax, bz);
    lemma_square_of_product(ay, bx);
    lemma_square_of_product(ay, by);
    lemma_square_of_product(ay, bz);
    lemma_square_of_product(az, bx);
    lemma_square_of_product(az, by);
    lemma_square_of_product(az, bz);
    lemma_square_sum3(ax * bx, ay * by, az * bz);
    lemma_square_difference(ax * by, ay * bx);
    lemma_square_difference(ax * bz, az * bx);
    lemma_square_difference(ay * bz, az * by);
    lemma_cross_terms(ax, bx, ay, by);
    lemma_cross_terms(ax, bx, az, bz);
    lemma_cross_terms(ay, by, az, bz);
}

/// A product of two sums of three, multiplied out.
proof fn lemma_sum3_product(a1: int, a2: int, a3: int, b1: int, b2: int, b3: int)
    ensures
        (a1 + a2 + a3) * (b1 + b2 + b3) == a1 * b1 + a1 * b2 + a1 * b3 + a2 * b1 + a2 * b2 + a2
            * b3 + a3 * b1 + a3 * b2 + a3 * b3,
{
    vstd::arithmetic::mul::lemma_mul_is_distributive_add_other_way(b1 + b2 + b3, a1 + a2, a3);
    vstd::arithmetic::mul::lemma_mul_is_distributive_add_other_way(b1 + b2 + b3, a1, a2);
    vstd::arithmetic::mul::lemma_mul_is_distributive_add(a1, b1 + b2, b3);
    vstd::arithmetic::mul::lemma_mul_is_distributive_add(a1, b1, b2);
    vstd::arithmetic::mul::lemma_mul_is_distributive_add(a2, b1 + b2, b3);
    vstd::arithmetic::mul::lemma_mul_is_distributive_add(a2, b1, b2);
    vstd::arithmetic::mul::lemma_mul_is_distributive_add(a3, b1 + b2, b3);
    vstd::arithmetic::mul::lemma_mul_is_distributive_add(a3, b1, b2);
}

/// The square of a product is the product of the squares.
proof fn lemma_square_of_product(a: int, b: int)
    ensures
        (a * b) * (a * b) == (a * a) * (b * b),
{
    assert((a * b) * (a * b) == (a * a) * (b * b)) by (nonlinear_arith);
}

/// The square of a sum of three, multiplied out.
proof fn lemma_square_sum3(x: int, y: int, z: int)
    ensures
        (x + y + z) * (x + y + z) == x * x + y * y + z * z + 2 * (x * y) + 2 * (x * z) + 2 * (y
            * z),
{
    assert((x + y + z) * (x + y + z) == x * x + y * y + z * z + 2 * (x * y) + 2 * (x * z) + 2 * (y
        * z)) by (nonlinear_arith);
}

/// The square of a difference, multiplied out.
proof fn lemma_square_difference(x: int, y: int)
    ensures
        (x - y) * (x - y) == x * x + y * y - 2 * (x * y),
{
    assert((x - y) * (x - y) == x * x + y * y - 2 * (x * y)) by (nonlinear_arith);
}

/// Two ways of grouping the same four factors.
proof fn lemma_cross_terms(a: int, b: int, c: int, d: int)
    ensures
        (a * b) * (c * d) == (a * d) * (c * b),
{
    assert((a * b) * (c * d) == (a * d) * (c * b)) by (nonlinear_arith);
}

} // verus!
