//! Fixed-point three-dimensional vectors.
//!
//! A world length of one is `SCALE` fixed-point units, and a direction is a
//! vector whose length is close to `SCALE`.
use vstd::arithmetic::div_mod::{
    lemma_div_is_ordered, lemma_div_multiples_vanish, lemma_fundamental_div_mod,
    lemma_fundamental_div_mod_converse,
};
use vstd::arithmetic::mul::lemma_mul_inequality;
use vstd::prelude::*;

verus! {

/// Fixed-point units per world unit; also the length of a unit direction.
pub const SCALE: i64 = 10_000;

/// Largest magnitude of a component that `normalize` accepts (2 to the 56th).
pub const NORMALIZE_LIMIT: i64 = 72_057_594_037_927_936;

/// A vector of fixed-point components.
#[derive(Clone, Copy, Debug, PartialEq, Eq, Structural)]
pub struct Vec3 {
    pub x: i64,
    pub y: i64,
    pub z: i64,
}

impl View for Vec3 {
    type V = (int, int, int);

    open spec fn view(&self) -> (int, int, int) {
        (self.x as int, self.y as int, self.z as int)
    }
}

pub open spec fn dot(a: (int, int, int), b: (int, int, int)) -> int {
    a.0 * b.0 + a.1 * b.1 + a.2 * b.2
}

pub open spec fn plus(a: (int, int, int), b: (int, int, int)) -> (int, int, int) {
    (a.0 + b.0, a.1 + b.1, a.2 + b.2)
}

pub open spec fn minus(a: (int, int, int), b: (int, int, int)) -> (int, int, int) {
    (a.0 - b.0, a.1 - b.1, a.2 - b.2)
}

pub open spec fn sq_len(v: (int, int, int)) -> int {
    dot(v, v)
}

pub open spec fn is_zero(v: (int, int, int)) -> bool {
    v.0 == 0 && v.1 == 0 && v.2 == 0
}

/// Every component lies within `-bound ..= bound`.
pub open spec fn within(v: (int, int, int), bound: int) -> bool {
    -bound <= v.0 <= bound && -bound <= v.1 <= bound && -bound <= v.2 <= bound
}

/// Integer division that rounds toward zero; `b` is positive.
pub open spec fn trunc_div(a: int, b: int) -> int {
    if a >= 0 {
        a / b
    } else {
        -((-a) / b)
    }
}

pub open spec fn sign(a: int) -> int {
    if a > 0 {
        1
    } else if a < 0 {
        -1
    } else {
        0
    }
}

pub open spec fn is_floor_sqrt(n: int, r: int) -> bool {
    0 <= r && r * r <= n < (r + 1) * (r + 1)
}

/// The largest integer whose square is at most `n`.
pub open spec fn floor_sqrt(n: nat) -> nat
    decreases n,
{
    if n == 0 {
        0
    } else {
        let r = floor_sqrt((n - 1) as nat);
        if (r + 1) * (r + 1) <= n {
            (r + 1) as nat
        } else {
            r
        }
    }
}

/// The component `c` of a vector of squared length `s`, divided by the
/// vector's length, times `SCALE`, and truncated toward zero:
/// the largest `k` with `k * k * s <= c * c * SCALE * SCALE`, signed as `c`.
pub open spec fn unit_component(c: int, s: int) -> int {
    sign(c) * floor_sqrt(((c * c * SCALE * SCALE) / s) as nat)
}

/// The direction of `v` with length `SCALE`, each component truncated toward zero.
pub open spec fn normal_of(v: (int, int, int)) -> (int, int, int) {
    let s = sq_len(v);
    (unit_component(v.0, s), unit_component(v.1, s), unit_component(v.2, s))
}

/// A direction: its length is `SCALE` up to the rounding of its components.
pub open spec fn is_unit(v: (int, int, int)) -> bool {
    (SCALE - 4) * (SCALE - 4) <= sq_len(v) <= SCALE * SCALE
}

pub proof fn lemma_floor_sqrt(n: nat)
    ensures
        is_floor_sqrt(n as int, floor_sqrt(n) as int),
    decreases n,
{
    if n > 0 {
        lemma_floor_sqrt((n - 1) as nat);
        let r = floor_sqrt((n - 1) as nat) as int;
        assert((r + 1) * (r + 1) < (r + 2) * (r + 2)) by (nonlinear_arith)
            requires
                r >= 0,
        ;
    }
}

pub proof fn lemma_floor_sqrt_unique(n: int, r: int)
    requires
        n >= 0,
        is_floor_sqrt(n, r),
    ensures
        r == floor_sqrt(n as nat),
{
    lemma_floor_sqrt(n as nat);
    let f = floor_sqrt(n as nat) as int;
    if r < f {
        lemma_mul_inequality(r + 1, f, r + 1);
        lemma_mul_inequality(r + 1, f, f);
    } else if f < r {
        lemma_mul_inequality(f + 1, r, f + 1);
        lemma_mul_inequality(f + 1, r, r);
    }
}

proof fn lemma_unit_component_bounds(c: int, s: int)
    requires
        s > 0,
    ensures
        ({
            let k = floor_sqrt(((c * c * SCALE * SCALE) / s) as nat) as int;
            &&& k >= 0
            &&& k * k * s <= c * c * SCALE * SCALE < (k + 1) * (k + 1) * s
            &&& unit_component(c, s) * unit_component(c, s) == k * k
        }),
{
    let a = c * c * SCALE * SCALE;
    assert(a >= 0) by (nonlinear_arith)
        requires
            a == c * c * SCALE * SCALE,
            SCALE > 0,
    ;
    let q = a / s;
    lemma_fundamental_div_mod(a, s);
    let r = a % s;
    assert(q >= 0) by {
        lemma_div_is_ordered(0, a, s);
    }
    lemma_floor_sqrt(q as nat);
    let k = floor_sqrt(q as nat) as int;
    assert(k * k * s <= a < (k + 1) * (k + 1) * s) by (nonlinear_arith)
        requires
            a == s * q + r,
            0 <= r < s,
            k * k <= q < (k + 1) * (k + 1),
    ;
    if c == 0 {
        assert(a == 0);
        assert(q == 0);
    }
    assert(unit_component(c, s) * unit_component(c, s) == k * k) by (nonlinear_arith)
        requires
            unit_component(c, s) == sign(c) * k,
            sign(c) == 1 || sign(c) == -1 || (sign(c) == 0 && k == 0),
    ;
}

/// A normalized vector is a direction: its squared length is within the
/// rounding of its three components from `SCALE * SCALE`.
pub proof fn lemma_normal_is_unit(v: (int, int, int))
    requires
        !is_zero(v),
    ensures
        is_unit(normal_of(v)),
{
    let s = sq_len(v);
    assert(s > 0) by (nonlinear_arith)
        requires
            v.0 != 0 || v.1 != 0 || v.2 != 0,
            s == v.0 * v.0 + v.1 * v.1 + v.2 * v.2,
    ;
    lemma_unit_component_bounds(v.0, s);
    lemma_unit_component_bounds(v.1, s);
    lemma_unit_component_bounds(v.2, s);
    let n = normal_of(v);
    let a = floor_sqrt(((v.0 * v.0 * SCALE * SCALE) / s) as nat) as int;
    let b = floor_sqrt(((v.1 * v.1 * SCALE * SCALE) / s) as nat) as int;
    let c = floor_sqrt(((v.2 * v.2 * SCALE * SCALE) / s) as nat) as int;
    let u = SCALE as int;
    assert(sq_len(n) == a * a + b * b + c * c);
    let x2 = v.0 * v.0;
    let y2 = v.1 * v.1;
    let z2 = v.2 * v.2;
    assert(a * a * s + b * b * s + c * c * s <= x2 * u * u + y2 * u * u + z2 * u * u);
    assert((a * a + b * b + c * c) * s <= s * (u * u)) by (nonlinear_arith)
        requires
            a * a * s + b * b * s + c * c * s <= x2 * u * u + y2 * u * u + z2 * u * u,
            s == x2 + y2 + z2,
    ;
    assert(a * a + b * b + c * c <= u * u) by (nonlinear_arith)
        requires
            (a * a + b * b + c * c) * s <= s * (u * u),
            s > 0,
    ;
    let aa = (a + 1) * (a + 1);
    let bb = (b + 1) * (b + 1);
    let cc = (c + 1) * (c + 1);
    let uu = u * u;
    assert(x2 * u * u == x2 * uu && y2 * u * u == y2 * uu && z2 * u * u == z2 * uu)
        by (nonlinear_arith)
        requires
            uu == u * u,
    ;
    assert(x2 * uu + y2 * uu + z2 * uu == s * uu) by (nonlinear_arith)
        requires
            s == x2 + y2 + z2,
    ;
    assert(aa * s + bb * s + cc * s == (aa + bb + cc) * s) by (nonlinear_arith);
    assert(s * (u * u) < ((a + 1) * (a + 1) + (b + 1) * (b + 1) + (c + 1) * (c + 1)) * s);
    assert((a + 1) * (a + 1) + (b + 1) * (b + 1) + (c + 1) * (c + 1) > u * u) by (nonlinear_arith)
        requires
            s * (u * u) < ((a + 1) * (a + 1) + (b + 1) * (b + 1) + (c + 1) * (c + 1)) * s,
            s > 0,
    ;
    assert(a <= u && b <= u && c <= u) by (nonlinear_arith)
        requires
            a >= 0,
            b >= 0,
            c >= 0,
            u > 0,
            a * a + b * b + c * c <= u * u,
    ;
    assert((u - 4) * (u - 4) <= a * a + b * b + c * c) by (nonlinear_arith)
        requires
            u == 10_000,
            0 <= a <= u,
            0 <= b <= u,
            0 <= c <= u,
            (a + 1) * (a + 1) + (b + 1) * (b + 1) + (c + 1) * (c + 1) > u * u,
    ;
}

/// `a / b` rounded toward zero.
pub fn div_toward_zero(a: i128, b: i128) -> (r: i128)
    requires
        b > 0,
        a > i128::MIN,
    ensures
        r == trunc_div(a as int, b as int),
{
    if a >= 0 {
        a / b
    } else {
        -((-a) / b)
    }
}

/// A quotient rounded toward zero is no larger than the bound that the
/// dividend has in multiples of the divisor.
pub proof fn lemma_trunc_div_bound(a: int, b: int, m: int)
    requires
        b > 0,
        m >= 0,
        -(m * b) <= a <= m * b,
    ensures
        -m <= trunc_div(a, b) <= m,
{
    assert(m * b == b * m) by (nonlinear_arith);
    assert(0int / b == 0);
    if a >= 0 {
        lemma_div_is_ordered(0, a, b);
        lemma_div_is_ordered(a, m * b, b);
        lemma_div_multiples_vanish(m, b);
    } else {
        lemma_div_is_ordered(0, -a, b);
        lemma_div_is_ordered(-a, m * b, b);
        lemma_div_multiples_vanish(m, b);
    }
}

/// The floor square root of `n`.
pub fn isqrt(n: u64) -> (r: u64)
    requires
        n < 0x4000_0000_0000_0000,
    ensures
        r == floor_sqrt(n as nat),
{
    let mut lo: u64 = 0;
    let mut hi: u64 = 0x8000_0000;
    assert(hi * hi == 0x4000_0000_0000_0000) by (nonlinear_arith)
        requires
            hi == 0x8000_0000,
    ;
    while lo + 1 < hi
        invariant
            lo < hi <= 0x8000_0000,
            lo * lo <= n < hi * hi,
        decreases hi - lo,
    {
        let mid = lo + (hi - lo) / 2;
        assert(mid * mid <= 0x4000_0000_0000_0000) by (nonlinear_arith)
            requires
                mid <= 0x8000_0000,
        ;
        if mid * mid <= n {
            lo = mid;
        } else {
            hi = mid;
        }
    }
    proof {
        lemma_floor_sqrt_unique(n as int, lo as int);
    }
    lo
}

/// `floor(a * SCALE * SCALE / s)` for `a <= s`, in two divisions so that no
/// product leaves the range of `u128`.
fn scaled_ratio(a: u128, s: u128) -> (q: u64)
    requires
        0 < s < 0x4_0000_0000_0000_0000_0000_0000_0000,
        a <= s,
    ensures
        q == (a * SCALE * SCALE) / (s as int),
        q <= SCALE * SCALE,
{
    let u: u128 = SCALE as u128;
    assert(s * u < 0x4_0000_0000_0000_0000_0000_0000_0000 * 10_000) by (nonlinear_arith)
        requires
            s < 0x4_0000_0000_0000_0000_0000_0000_0000,
            u == 10_000,
    ;
    assert(a * u <= s * u) by {
        lemma_mul_inequality(a as int, s as int, u as int);
    }
    let q1 = (a * u) / s;
    let r1 = (a * u) % s;
    assert(r1 * u < s * u) by {
        lemma_mul_inequality(r1 as int + 1, s as int, u as int);
    }
    let q2 = (r1 * u) / s;
    proof {
        let si = s as int;
        let ui = u as int;
        lemma_fundamental_div_mod((a * u) as int, si);
        lemma_fundamental_div_mod((r1 * u) as int, si);
        assert(q1 <= u) by {
            lemma_div_is_ordered((a * u) as int, si * ui, si);
            lemma_div_multiples_vanish(ui, si);
        }
        let r2 = (r1 * ui) % si;
        // a * u * u == (q1 * u + q2) * s + r2
        assert(a * ui * ui == (q1 * ui + q2) * si + r2) by (nonlinear_arith)
            requires
                a * ui == si * q1 + r1,
                r1 * ui == si * q2 + r2,
        ;
        lemma_fundamental_div_mod_converse(a * ui * ui, si, q1 * ui + q2, r2 as int);
        assert(a * ui * ui <= si * ui * ui) by (nonlinear_arith)
            requires
                a <= si,
                ui > 0,
        ;
        assert(si * ui * ui == si * (ui * ui)) by (nonlinear_arith);
        lemma_div_is_ordered(a * ui * ui, si * (ui * ui), si);
        lemma_div_multiples_vanish(ui * ui, si);
    }
    (q1 * u + q2) as u64
}

fn abs_u128(c: i64) -> (r: u128)
    ensures
        r == if c >= 0 { c as int } else { -c },
{
    if c >= 0 {
        c as u128
    } else {
        (-(c as i128)) as u128
    }
}

fn unit_part(c: i64, s: u128) -> (k: i64)
    requires
        -NORMALIZE_LIMIT <= c <= NORMALIZE_LIMIT,
        c * c <= s < 0x4_0000_0000_0000_0000_0000_0000_0000,
        s > 0,
    ensures
        k == unit_component(c as int, s as int),
        -SCALE <= k <= SCALE,
{
    let m = abs_u128(c);
    assert(m * m == c * c) by (nonlinear_arith)
        requires
            m == if c >= 0 { c as int } else { -c },
    ;
    assert(m * m <= 0x1_0000_0000_0000_0000_0000_0000_0000) by (nonlinear_arith)
        requires
            m <= NORMALIZE_LIMIT,
    ;
    let q = scaled_ratio(m * m, s);
    let r = isqrt(q);
    proof {
        lemma_floor_sqrt(q as nat);
        assert(m * m * SCALE * SCALE == c * c * SCALE * SCALE);
        if r > SCALE {
            lemma_mul_inequality(SCALE as int + 1, r as int, SCALE as int + 1);
            lemma_mul_inequality(SCALE as int + 1, r as int, r as int);
        }
    }
    if c > 0 {
        r as i64
    } else if c < 0 {
        -(r as i64)
    } else {
        0
    }
}

/// The direction of a non-zero vector, scaled to length `SCALE`.
pub fn normalize(v: Vec3) -> (n: Vec3)
    requires
        !is_zero(v@),
        within(v@, NORMALIZE_LIMIT as int),
    ensures
        n@ == normal_of(v@),
        within(n@, SCALE as int),
{
    let x = v.x as i128;
    let y = v.y as i128;
    let z = v.z as i128;
    proof {
        assert(x * x <= 0x1_0000_0000_0000_0000_0000_0000_0000) by (nonlinear_arith)
            requires
                -NORMALIZE_LIMIT <= x <= NORMALIZE_LIMIT,
        ;
        assert(y * y <= 0x1_0000_0000_0000_0000_0000_0000_0000) by (nonlinear_arith)
            requires
                -NORMALIZE_LIMIT <= y <= NORMALIZE_LIMIT,
        ;
        assert(z * z <= 0x1_0000_0000_0000_0000_0000_0000_0000) by (nonlinear_arith)
            requires
                -NORMALIZE_LIMIT <= z <= NORMALIZE_LIMIT,
        ;
        assert(x * x + y * y + z * z > 0) by (nonlinear_arith)
            requires
                x != 0 || y != 0 || z != 0,
        ;
        assert(x * x >= 0 && y * y >= 0 && z * z >= 0) by (nonlinear_arith);
    }
    let s = (x * x + y * y + z * z) as u128;
    Vec3 { x: unit_part(v.x, s), y: unit_part(v.y, s), z: unit_part(v.z, s) }
}

} // verus!
