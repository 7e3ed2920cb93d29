use vstd::prelude::*;

verus! {

/// The fixed-point encoding of 1: a scalar stores its value times `FP_ONE`.
pub const FP_ONE: i64 = 65536;

/// The fixed-point encoding of pi, rounded to the nearest representable value.
pub const FP_PI: i64 = 205887;

/// The fixed-point encoding of -1.
pub const FP_NEG_ONE: i64 = -65536;

/// One of the three coordinate axes.
#[derive(Clone, Copy, PartialEq, Eq, Structural, Debug)]
pub enum Axis {
    X,
    Y,
    Z,
}

/// The absolute value of a mathematical integer.
pub open spec fn abs_int(a: int) -> int {
    if a >= 0 {
        a
    } else {
        -a
    }
}

/// Clamps a mathematical integer into the range of `i64`.
pub open spec fn sat64(x: int) -> int {
    if x > i64::MAX as int {
        i64::MAX as int
    } else if x < i64::MIN as int {
        i64::MIN as int
    } else {
        x
    }
}

/// Integer division rounded toward zero.
pub open spec fn div_trunc(a: int, b: int) -> int
    recommends
        b != 0,
{
    if (a >= 0) == (b >= 0) {
        abs_int(a) / abs_int(b)
    } else {
        -(abs_int(a) / abs_int(b))
    }
}

/// The value `fp_mul` encodes before saturation: the product of two
/// fixed-point scalars, rescaled and rounded toward zero.
pub open spec fn spec_fp_mul(a: int, b: int) -> int {
    div_trunc(a * b, FP_ONE as int)
}

/// The value `fp_div` encodes before saturation: the quotient of two
/// fixed-point scalars, rescaled and rounded toward zero.
pub open spec fn spec_fp_div(a: int, b: int) -> int
    recommends
        b != 0,
{
    div_trunc(a * FP_ONE, b)
}

/// The magnitude of a scalar as an unsigned value.
fn abs_u128(a: i64) -> (r: u128)
    ensures
        r as int == abs_int(a as int),
{
    if a >= 0 {
        a as u128
    } else {
        (-(a as i128)) as u128
    }
}

/// Clamps a wide intermediate into the `i64` range.
fn sat_i128(x: i128) -> (r: i64)
    ensures
        r as int == sat64(x as int),
{
    if x > i64::MAX as i128 {
        i64::MAX
    } else if x < i64::MIN as i128 {
        i64::MIN
    } else {
        x as i64
    }
}

proof fn lemma_abs_mul(a: int, b: int)
    ensures
        abs_int(a * b) == abs_int(a) * abs_int(b),
        (a < 0) != (b < 0) ==> a * b <= 0,
        (a < 0) == (b < 0) ==> a * b >= 0,
{
    if a >= 0 && b >= 0 {
        assert(a * b >= 0) by (nonlinear_arith)
            requires
                a >= 0 && b >= 0,
        ;
    } else if a >= 0 && b < 0 {
        assert(a * b <= 0 && a * (-b) == -(a * b)) by (nonlinear_arith)
            requires
                a >= 0 && b < 0,
        ;
    } else if a < 0 && b >= 0 {
        assert(a * b <= 0 && (-a) * b == -(a * b)) by (nonlinear_arith)
            requires
                a < 0 && b >= 0,
        ;
    } else {
        assert(a * b >= 0 && (-a) * (-b) == a * b) by (nonlinear_arith)
            requires
                a < 0 && b < 0,
        ;
    }
}

/// Fixed-point product, saturating at the `i64` range.
pub fn fp_mul(a: i64, b: i64) -> (r: i64)
    ensures
        r as int == sat64(spec_fp_mul(a as int, b as int)),
{
    proof {
        lemma_abs_mul(a as int, b as int);
        assert(abs_int(a as int) * abs_int(b as int) <= 0x8000_0000_0000_0000
            * 0x8000_0000_0000_0000) by (nonlinear_arith)
            requires
                0 <= abs_int(a as int) <= 0x8000_0000_0000_0000 && 0 <= abs_int(b as int)
                    <= 0x8000_0000_0000_0000,
        ;
    }
    let m: u128 = abs_u128(a) * abs_u128(b);
    let q: u128 = m / (FP_ONE as u128);
    if (a < 0) != (b < 0) {
        sat_i128(-(q as i128))
    } else {
        sat_i128(q as i128)
    }
}

/// Fixed-point quotient, saturating at the `i64` range.
pub fn fp_div(a: i64, b: i64) -> (r: i64)
    requires
        b != 0,
    ensures
        r as int == sat64(spec_fp_div(a as int, b as int)),
{
    let m: u128 = abs_u128(a) * (FP_ONE as u128);
    let q: u128 = m / abs_u128(b);
    proof {
        assert(abs_int((a as int) * (FP_ONE as int)) == abs_int(a as int) * (FP_ONE as int));
        assert((a < 0) == (((a as int) * (FP_ONE as int)) < 0));
    }
    if (a < 0) != (b < 0) {
        sat_i128(-(q as i128))
    } else {
        sat_i128(q as i128)
    }
}

/// Saturating sum of two scalars.
pub fn sat_add(a: i64, b: i64) -> (r: i64)
    ensures
        r as int == sat64(a + b),
{
    sat_i128((a as i128) + (b as i128))
}

/// Saturating difference of two scalars.
pub fn sat_sub(a: i64, b: i64) -> (r: i64)
    ensures
        r as int == sat64(a - b),
{
    sat_i128((a as i128) - (b as i128))
}

/// The smaller of two scalars.
pub fn min(a: i64, b: i64) -> (r: i64)
    ensures
        r == if a < b { a } else { b },
{
    if a < b {
        a
    } else {
        b
    }
}

/// The larger of two scalars.
pub fn max(a: i64, b: i64) -> (r: i64)
    ensures
        r == if a > b { a } else { b },
{
    if a > b {
        a
    } else {
        b
    }
}

/// Restricts a value to a closed interval.
pub fn clamp(value: i64, lo: i64, hi: i64) -> (r: i64)
    requires
        lo <= hi,
    ensures
        r == if value < lo { lo } else if value > hi { hi } else { value },
{
    if value < lo {
        lo
    } else if value > hi {
        hi
    } else {
        value
    }
}

/// The mathematically non-negative remainder of `n` modulo `m`.
pub fn modulo(n: i64, m: i64) -> (r: i64)
    requires
        m > 0,
    ensures
        r as int == (n as int) % (m as int),
        0 <= r < m,
{
    if n >= 0 {
        ((n as u64) % (m as u64)) as i64
    } else {
        let k = (((-((n as i128) + 1)) as u128) % (m as u128)) as i64;
        proof {
            lemma_mod_negative(n as int, m as int);
        }
        m - 1 - k
    }
}

proof fn lemma_mod_negative(n: int, m: int)
    requires
        n < 0,
        m > 0,
    ensures
        n % m == m - 1 - ((-(n + 1)) % m),
        0 <= n % m < m,
{
    let p = -(n + 1);
    vstd::arithmetic::div_mod::lemma_fundamental_div_mod(p, m);
    vstd::arithmetic::div_mod::lemma_mod_bound(p, m);
    assert(n == (-(p / m) - 1) * m + (m - 1 - (p % m))) by (nonlinear_arith)
        requires
            n == -p - 1 && p == m * (p / m) + (p % m),
    ;
    vstd::arithmetic::div_mod::lemma_fundamental_div_mod_converse(
        n,
        m,
        -(p / m) - 1,
        m - 1 - (p % m),
    );
}

/// Drops the fractional bits of a fixed-point scalar, rounding toward zero.
pub fn fp_trunc(a: i64) -> (r: i64)
    ensures
        r as int == div_trunc(a as int, FP_ONE as int),
{
    if a >= 0 {
        ((a as u64) / (FP_ONE as u64)) as i64
    } else {
        let q = (((-(a as i128)) as u128) / (FP_ONE as u128)) as i64;
        -q
    }
}

/// The fixed-point encoding of pi / 2.
pub const FP_PI_2: i64 = 102944;

/// The fixed-point encoding of pi / 4.
pub const FP_PI_4: i64 = 51472;

/// The slope correction of the arctangent approximation.
pub const ATAN_K: i64 = 17892;

/// The magnitude of a scalar, saturating at `i64::MAX`.
pub open spec fn spec_abs_sat(v: int) -> int {
    if v < 0 {
        sat64(0 - v)
    } else {
        v
    }
}

pub fn abs_sat(v: i64) -> (r: i64)
    ensures
        r as int == spec_abs_sat(v as int),
        r >= 0,
{
    if v < 0 {
        sat_sub(0, v)
    } else {
        v
    }
}

/// The polynomial arctangent on `[0, FP_ONE]`, in fixed point.
pub open spec fn spec_atan_unit(z: int) -> int {
    sat64(
        sat64(spec_fp_mul(z, FP_PI_4 as int)) + sat64(
            spec_fp_mul(sat64(spec_fp_mul(ATAN_K as int, z)), sat64(FP_ONE - z)),
        ),
    )
}

fn atan_unit(z: i64) -> (r: i64)
    ensures
        r as int == spec_atan_unit(z as int),
{
    sat_add(fp_mul(z, FP_PI_4), fp_mul(fp_mul(ATAN_K, z), sat_sub(FP_ONE, z)))
}

/// The angle of the point `(x, y)`, in fixed-point radians, by octant
/// reduction over the polynomial arctangent.
pub open spec fn spec_atan2(y: int, x: int) -> int {
    if x == 0 && y == 0 {
        0
    } else {
        let ax = spec_abs_sat(x);
        let ay = spec_abs_sat(y);
        let base = if ax >= ay {
            spec_atan_unit(sat64(spec_fp_div(ay, ax)))
        } else {
            sat64(FP_PI_2 - spec_atan_unit(sat64(spec_fp_div(ax, ay))))
        };
        let r1 = if x >= 0 {
            base
        } else {
            sat64(FP_PI - base)
        };
        if y >= 0 {
            r1
        } else {
            sat64(0 - r1)
        }
    }
}

pub fn atan2_fp(y: i64, x: i64) -> (r: i64)
    ensures
        r as int == spec_atan2(y as int, x as int),
{
    if x == 0 && y == 0 {
        return 0;
    }
    let ax = abs_sat(x);
    let ay = abs_sat(y);
    let base = if ax >= ay {
        atan_unit(fp_div(ay, ax))
    } else {
        sat_sub(FP_PI_2, atan_unit(fp_div(ax, ay)))
    };
    let r1 = if x >= 0 {
        base
    } else {
        sat_sub(FP_PI, base)
    };
    if y >= 0 {
        r1
    } else {
        sat_sub(0, r1)
    }
}

/// The integer square root: the largest `r` with `r * r <= n`.
pub open spec fn spec_isqrt(n: nat) -> nat
    decreases n,
{
    if n == 0 {
        0
    } else {
        let p = spec_isqrt((n - 1) as nat);
        if (p + 1) * (p + 1) <= n {
            p + 1
        } else {
            p
        }
    }
}

pub proof fn lemma_isqrt_bounds(n: nat)
    ensures
        spec_isqrt(n) * spec_isqrt(n) <= n,
        n < (spec_isqrt(n) + 1) * (spec_isqrt(n) + 1),
    decreases n,
{
    if n == 0 {
        assert(spec_isqrt(0) == 0);
        assert(0nat < (0nat + 1) * (0nat + 1)) by (nonlinear_arith);
    } else {
        lemma_isqrt_bounds((n - 1) as nat);
        let p = spec_isqrt((n - 1) as nat);
        if (p + 1) * (p + 1) <= n {
            assert(spec_isqrt(n) == p + 1);
            assert(n - 1 < (p + 1) * (p + 1));
            assert(n <= (p + 1) * (p + 1));
            assert((p + 1) * (p + 1) < (p + 2) * (p + 2)) by (nonlinear_arith)
                requires
                    p >= 0,
            ;
            assert(n < (p + 2) * (p + 2));
            assert((spec_isqrt(n) + 1) * (spec_isqrt(n) + 1) == (p + 2) * (p + 2));
        } else {
            assert(spec_isqrt(n) == p);
            assert(n < (p + 1) * (p + 1));
        }
    }
}

proof fn lemma_isqrt_unique(n: nat, r: nat)
    requires
        r * r <= n,
        n < (r + 1) * (r + 1),
    ensures
        r == spec_isqrt(n),
{
    lemma_isqrt_bounds(n);
    let s = spec_isqrt(n);
    if r < s {
        assert((r + 1) * (r + 1) <= s * s) by (nonlinear_arith)
            requires
                r + 1 <= s,
        ;
    }
    if s < r {
        assert((s + 1) * (s + 1) <= r * r) by (nonlinear_arith)
            requires
                s + 1 <= r,
        ;
    }
}

/// Integer square root by bisection.
pub fn isqrt(n: u128) -> (r: u64)
    requires
        n < 0x1_0000_0000_0000_0000_0000,
    ensures
        r as nat == spec_isqrt(n as nat),
        (r as nat) * (r as nat) <= n as nat,
        (n as nat) < ((r as nat) + 1) * ((r as nat) + 1),
{
    let mut lo: u64 = 0;
    let mut hi: u64 = 0x100_0000_0000;
    assert((0x100_0000_0000 as nat) * (0x100_0000_0000 as nat) == 0x1_0000_0000_0000_0000_0000);
    while lo + 1 < hi
        invariant
            lo < hi <= 0x100_0000_0000,
            (lo as nat) * (lo as nat) <= n as nat,
            (n as nat) < (hi as nat) * (hi as nat),
        decreases hi - lo,
    {
        let mid = lo + (hi - lo) / 2;
        proof {
            assert((mid as nat) * (mid as nat) <= (0x100_0000_0000 as nat) * (
            0x100_0000_0000 as nat)) by (nonlinear_arith)
                requires
                    0 <= mid <= 0x100_0000_0000,
            ;
        }
        if (mid as u128) * (mid as u128) <= n {
            lo = mid;
        } else {
            hi = mid;
        }
    }
    proof {
        lemma_isqrt_unique(n as nat, lo as nat);
    }
    lo
}

/// The square root of a non-negative fixed-point scalar, as a fixed-point
/// scalar rounded down.
pub fn fp_sqrt(a: i64) -> (r: i64)
    requires
        a >= 0,
    ensures
        r as nat == spec_isqrt((a * FP_ONE) as nat),
        r >= 0,
{
    let m: u128 = (a as u128) * 65536;
    let r = isqrt(m);
    proof {
        lemma_isqrt_bounds(m as nat);
        if r as nat > 0xffff_ffff_ffff {
            assert((0x1_0000_0000_0000 as nat) * (0x1_0000_0000_0000 as nat)
                > m as nat + 1) by (nonlinear_arith)
                requires
                    m < 0x1_0000_0000_0000_0000_0000,
            ;
            assert((r as nat) * (r as nat) >= (0x1_0000_0000_0000 as nat) * (
            0x1_0000_0000_0000 as nat)) by (nonlinear_arith)
                requires
                    r as nat >= 0x1_0000_0000_0000,
            ;
        }
    }
    r as i64
}

} // verus!
