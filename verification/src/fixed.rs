//! Scalar core: signed fixed-point numbers with 16 fractional bits.
//!
//! A scalar is an `i64` holding `round(v * 65536)` for a real value `v`.
//! Multiplication truncates toward zero and saturates at `VAL_MAX`, so every
//! stage of the pipeline keeps its elements inside one fixed range and no
//! operation overflows.  The transcendental helpers (`exp_fx`, `sin_fx`,
//! `cos_fx`, `tanh_fx`) are fixed-point approximations; their contracts state
//! the exact value each one returns.

use vstd::prelude::*;
use vstd::arithmetic::div_mod::*;

verus! {

/// Fixed-point scale: 2^16.
pub const SCALE: i64 = 65536;

/// Half of one fixed-point unit, used for round-to-nearest.
pub const HALF_SCALE: i64 = 32768;

/// Saturation bound for matrix elements: 2^46, about 2^30 in real units.
pub const VAL_MAX: i64 = 70368744177664;

/// Largest row or column count a matrix may have.
pub const DIM_MAX: usize = 32768;

/// Arguments to `exp_fx` are clamped to `[-16, 8]` in real units.
pub const EXP_ARG_MIN: i64 = -1048576;

/// Upper clamp for `exp_fx` arguments: 8 in real units.
pub const EXP_ARG_MAX: i64 = 524288;

/// Saturation cap inside the squaring chain of `exp_fx`; `e^8` in fixed
/// point is about 1.95e8, so the cap is never reached for clamped inputs.
pub const EXP_CAP: i64 = 200000000;

/// 2*pi in fixed point.
pub const TWO_PI_FX: i64 = 411775;

/// pi in fixed point.
pub const PI_FX: i64 = 205887;

/// pi/2 in fixed point.
pub const HALF_PI_FX: i64 = 102944;

/// 3*pi/2 in fixed point.
pub const THREE_HALF_PI_FX: i64 = 308831;

/// Bound on the magnitude of `sin_fx` and `cos_fx` results (slightly above
/// one real unit, since the cubic/quintic polynomials overshoot a little).
pub const TRIG_BOUND: i64 = 110000;

/// Truncating division (round toward zero), defined for positive divisors.
pub open spec fn tdiv(a: int, b: int) -> int
    recommends
        b > 0,
{
    if a >= 0 {
        a / b
    } else {
        -((-a) / b)
    }
}

/// Clamp to the scalar saturation range `[-VAL_MAX, VAL_MAX]`.
pub open spec fn sat_val(x: int) -> int {
    if x > VAL_MAX {
        VAL_MAX as int
    } else if x < -VAL_MAX {
        -VAL_MAX as int
    } else {
        x
    }
}

/// Saturating fixed-point product.
pub open spec fn fmul(a: int, b: int) -> int {
    sat_val(tdiv(a * b, SCALE as int))
}

/// Saturating sum.
pub open spec fn fadd(a: int, b: int) -> int {
    sat_val(a + b)
}

/// Rectifier: max(0, x).
pub open spec fn relu_spec(x: int) -> int {
    if x >= 0 {
        x
    } else {
        0
    }
}

pub proof fn lemma_tdiv_bounds(a: int, b: int)
    requires
        b > 0,
    ensures
        a >= 0 ==> 0 <= tdiv(a, b) <= a,
        a < 0 ==> a <= tdiv(a, b) <= 0,
{
    if a >= 0 {
        lemma_div_pos_is_pos(a, b);
        lemma_div_nonincreasing(a, b);
    } else {
        lemma_div_pos_is_pos(-a, b);
        lemma_div_nonincreasing(-a, b);
    }
}

/// Division shrinks magnitudes at least proportionally.
pub proof fn lemma_tdiv_upper(a: int, b: int, bound: int)
    requires
        b > 0,
        0 <= a,
        a <= bound * b,
        0 <= bound,
    ensures
        tdiv(a, b) <= bound,
{
    assert(bound * b == b * bound) by (nonlinear_arith);
    lemma_div_multiples_vanish(bound, b);
    assert((b * bound) / b == bound);
    lemma_div_is_ordered(a, b * bound, b);
    assert(a / b <= (b * bound) / b);
}

/// A magnitude bound on the dividend gives one on the truncated quotient.
pub proof fn lemma_tdiv_abs(a: int, b: int, m: int)
    requires
        b > 0,
        0 <= m,
        -m <= a <= m,
    ensures
        -tdiv(m, b) <= tdiv(a, b) <= tdiv(m, b),
        0 <= tdiv(m, b),
{
    lemma_tdiv_bounds(m, b);
    if a >= 0 {
        lemma_div_is_ordered(a, m, b);
        lemma_div_pos_is_pos(a, b);
    } else {
        lemma_div_is_ordered(-a, m, b);
        lemma_div_pos_is_pos(-a, b);
    }
}

/// Truncating division on i64, for a positive divisor.
pub fn tdiv64(a: i64, b: i64) -> (r: i64)
    requires
        b > 0,
        a > i64::MIN,
    ensures
        r as int == tdiv(a as int, b as int),
        a >= 0 ==> 0 <= r <= a,
        a < 0 ==> a <= r <= 0,
{
    proof {
        lemma_tdiv_bounds(a as int, b as int);
    }
    if a >= 0 {
        ((a as u64) / (b as u64)) as i64
    } else {
        let m: u64 = (-a) as u64;
        -(((m / (b as u64)) as i64))
    }
}

/// Truncating division on i128, for a positive divisor.
pub fn tdiv128(a: i128, b: i128) -> (r: i128)
    requires
        b > 0,
        a > i128::MIN,
    ensures
        r as int == tdiv(a as int, b as int),
        a >= 0 ==> 0 <= r <= a,
        a < 0 ==> a <= r <= 0,
{
    proof {
        lemma_tdiv_bounds(a as int, b as int);
    }
    if a >= 0 {
        ((a as u128) / (b as u128)) as i128
    } else {
        let m: u128 = (-a) as u128;
        -(((m / (b as u128)) as i128))
    }
}

/// Clamp a wide intermediate back into the scalar range.
pub fn sat_narrow(x: i128) -> (r: i64)
    ensures
        r as int == sat_val(x as int),
        -VAL_MAX <= r <= VAL_MAX,
{
    if x > VAL_MAX as i128 {
        VAL_MAX
    } else if x < -VAL_MAX as i128 {
        -VAL_MAX
    } else {
        x as i64
    }
}

/// Widening multiplication: the full product of two scalars.
pub fn mul_wide(a: i64, b: i64) -> (r: i128)
    ensures
        r as int == (a as int) * (b as int),
{
    proof {
        assert((a as i128) * (b as i128) <= 9223372036854775808i128 * 9223372036854775808i128
            && (a as i128) * (b as i128) >= -(9223372036854775808i128 * 9223372036854775808i128))
            by (nonlinear_arith)
            requires
                -9223372036854775808i128 <= a as i128 <= 9223372036854775808i128,
                -9223372036854775808i128 <= b as i128 <= 9223372036854775808i128,
        ;
    }
    (a as i128) * (b as i128)
}

/// Saturating fixed-point multiplication.
pub fn mul_fx(a: i64, b: i64) -> (r: i64)
    ensures
        r as int == fmul(a as int, b as int),
        -VAL_MAX <= r <= VAL_MAX,
{
    proof {
        assert((a as i128) * (b as i128) <= 9223372036854775808i128 * 9223372036854775808i128
            && (a as i128) * (b as i128) >= -(9223372036854775808i128 * 9223372036854775808i128))
            by (nonlinear_arith)
            requires
                -9223372036854775808i128 <= a as i128 <= 9223372036854775808i128,
                -9223372036854775808i128 <= b as i128 <= 9223372036854775808i128,
        ;
    }
    let p: i128 = (a as i128) * (b as i128);
    let q: i128 = tdiv128(p, SCALE as i128);
    sat_narrow(q)
}

/// Saturating addition.
pub fn add_fx(a: i64, b: i64) -> (r: i64)
    ensures
        r as int == fadd(a as int, b as int),
        -VAL_MAX <= r <= VAL_MAX,
{
    let s: i128 = (a as i128) + (b as i128);
    sat_narrow(s)
}

/// Rectifier on a scalar.
pub fn relu_fx(x: i64) -> (r: i64)
    ensures
        r as int == relu_spec(x as int),
{
    if x >= 0 {
        x
    } else {
        0
    }
}

/// Integer square root on u128: the greatest `r` with `r * r <= x`.
pub fn isqrt_u128(x: u128) -> (r: u128)
    requires
        x < 85070591730234615865843651857942052864u128,
    ensures
        r * r <= x,
        (r + 1) * (r + 1) > x,
{
    if x == 0 {
        return 0;
    }
    let mut lo: u128 = 0;
    let mut hi: u128 = 9223372036854775808u128;
    assert(9223372036854775808u128 * 9223372036854775808u128
        == 85070591730234615865843651857942052864u128) by (nonlinear_arith);
    while lo + 1 < hi
        invariant
            lo < hi,
            hi <= 9223372036854775808u128,
            lo * lo <= x,
            hi * hi > x,
        decreases hi - lo,
    {
        let mid: u128 = lo + (hi - lo) / 2;
        proof {
            assert(mid * mid <= 9223372036854775808u128 * 9223372036854775808u128)
                by (nonlinear_arith)
                requires
                    0 <= mid <= 9223372036854775808u128,
            ;
        }
        if mid * mid <= x {
            lo = mid;
        } else {
            hi = mid;
        }
    }
    lo
}

/// Clamp an `exp_fx` argument into the supported range.
pub open spec fn exp_clamp(x: int) -> int {
    if x < EXP_ARG_MIN {
        EXP_ARG_MIN as int
    } else if x > EXP_ARG_MAX {
        EXP_ARG_MAX as int
    } else {
        x
    }
}

/// One capped squaring step of the exponential chain.
pub open spec fn exp_step(y: int) -> int {
    let s: int = tdiv(y * y, SCALE as int);
    if s > EXP_CAP {
        EXP_CAP as int
    } else {
        s
    }
}

/// `n` capped squaring steps.
pub open spec fn exp_chain(y: int, n: nat) -> int
    decreases n,
{
    if n == 0 {
        y
    } else {
        exp_step(exp_chain(y, (n - 1) as nat))
    }
}

/// Fixed-point `e^x`: clamp to `[-16, 8]`, seed `1 + x/256`, square 8 times.
pub open spec fn exp_spec(x: int) -> int {
    exp_chain(SCALE + tdiv(exp_clamp(x), 256), 8)
}

/// Fixed-point exponential.  The result is nonnegative and, for clamped
/// arguments, stays below `EXP_CAP`.
pub fn exp_fx(x: i64) -> (r: i64)
    ensures
        r as int == exp_spec(x as int),
        0 <= r <= EXP_CAP,
{
    let c: i64 = if x < EXP_ARG_MIN {
        EXP_ARG_MIN
    } else if x > EXP_ARG_MAX {
        EXP_ARG_MAX
    } else {
        x
    };
    proof {
        lemma_tdiv_abs(c as int, 256, 1048576);
    }
    let mut y: i64 = SCALE + tdiv64(c, 256);
    assert(0 <= y <= EXP_CAP);
    let mut i: usize = 0;
    while i < 8
        invariant
            0 <= i <= 8,
            0 <= y <= EXP_CAP,
            y as int == exp_chain((SCALE + tdiv(exp_clamp(x as int), 256)) as int, i as nat),
        decreases 8 - i,
    {
        proof {
            assert(y * y <= 200000000i64 * 200000000i64) by (nonlinear_arith)
                requires
                    0 <= y <= 200000000i64,
            ;
        }
        let p: i64 = y * y;
        let q: i64 = tdiv64(p, SCALE);
        y = if q > EXP_CAP {
            EXP_CAP
        } else {
            q
        };
        i = i + 1;
    }
    y
}

/// Odd cubic/quintic polynomial for sine on `[0, pi/2]`:
/// `t - t^3/6 + t^5/120` in fixed point.
pub open spec fn sin_poly(t: int) -> int {
    let t2: int = tdiv(t * t, SCALE as int);
    let t3: int = tdiv(t2 * t, SCALE as int);
    let t5: int = tdiv(tdiv(t2 * t2, SCALE as int) * t, SCALE as int);
    t - tdiv(t3, 6) + tdiv(t5, 120)
}

/// Even polynomial for cosine on `[0, pi/2]`:
/// `1 - t^2/2 + t^4/24 - t^6/720` in fixed point.
pub open spec fn cos_poly(t: int) -> int {
    let t2: int = tdiv(t * t, SCALE as int);
    let t4: int = tdiv(t2 * t2, SCALE as int);
    let t6: int = tdiv(t4 * t2, SCALE as int);
    SCALE - tdiv(t2, 2) + tdiv(t4, 24) - tdiv(t6, 720)
}

/// Reduce a nonnegative angle into `[0, 2*pi)`.
pub open spec fn angle_reduce(a: int) -> int {
    a % (TWO_PI_FX as int)
}

/// Fixed-point sine of a nonnegative angle, by quadrant reduction.
pub open spec fn sin_spec(a: int) -> int {
    let r: int = angle_reduce(a);
    if r < HALF_PI_FX {
        sin_poly(r)
    } else if r < PI_FX {
        sin_poly(PI_FX - r)
    } else if r < THREE_HALF_PI_FX {
        -sin_poly(r - PI_FX)
    } else {
        -sin_poly(TWO_PI_FX - r)
    }
}

/// Fixed-point cosine of a nonnegative angle, by quadrant reduction.
pub open spec fn cos_spec(a: int) -> int {
    let r: int = angle_reduce(a);
    if r < HALF_PI_FX {
        cos_poly(r)
    } else if r < PI_FX {
        -cos_poly(PI_FX - r)
    } else if r < THREE_HALF_PI_FX {
        -cos_poly(r - PI_FX)
    } else {
        cos_poly(TWO_PI_FX - r)
    }
}

/// Evaluate both polynomials for a reduced argument in `[0, pi/2]`-ish range.
fn trig_polys(t: i64) -> (r: (i64, i64))
    requires
        0 <= t <= HALF_PI_FX,
    ensures
        r.0 as int == sin_poly(t as int),
        r.1 as int == cos_poly(t as int),
        -TRIG_BOUND <= r.0 <= TRIG_BOUND,
        -TRIG_BOUND <= r.1 <= TRIG_BOUND,
{
    proof {
        assert(t * t <= 102944i64 * 102944i64) by (nonlinear_arith)
            requires
                0 <= t <= 102944i64,
        ;
    }
    let t2: i64 = tdiv64(t * t, SCALE);
    proof {
        lemma_tdiv_upper((t * t) as int, SCALE as int, 161705);
    }
    assert(0 <= t2 <= 161705);
    proof {
        assert(t2 * t <= 161705i64 * 102944i64) by (nonlinear_arith)
            requires
                0 <= t2 <= 161705i64,
                0 <= t <= 102944i64,
        ;
        assert(t2 * t2 <= 161705i64 * 161705i64) by (nonlinear_arith)
            requires
                0 <= t2 <= 161705i64,
        ;
    }
    let t3: i64 = tdiv64(t2 * t, SCALE);
    let t4: i64 = tdiv64(t2 * t2, SCALE);
    proof {
        lemma_tdiv_upper((t2 * t) as int, SCALE as int, 254007);
        lemma_tdiv_upper((t2 * t2) as int, SCALE as int, 398995);
    }
    assert(0 <= t3 <= 254007);
    assert(0 <= t4 <= 398995);
    proof {
        assert(t4 * t <= 398995i64 * 102944i64) by (nonlinear_arith)
            requires
                0 <= t4 <= 398995i64,
                0 <= t <= 102944i64,
        ;
        assert(t4 * t2 <= 398995i64 * 161705i64) by (nonlinear_arith)
            requires
                0 <= t4 <= 398995i64,
                0 <= t2 <= 161705i64,
        ;
    }
    let t5: i64 = tdiv64(t4 * t, SCALE);
    let t6: i64 = tdiv64(t4 * t2, SCALE);
    proof {
        lemma_tdiv_upper((t4 * t) as int, SCALE as int, 626742);
        lemma_tdiv_upper((t4 * t2) as int, SCALE as int, 984490);
    }
    assert(0 <= t5 <= 626742);
    assert(0 <= t6 <= 984490);
    let s: i64 = t - tdiv64(t3, 6) + tdiv64(t5, 120);
    let c: i64 = SCALE - tdiv64(t2, 2) + tdiv64(t4, 24) - tdiv64(t6, 720);
    proof {
        assert(sin_poly(t as int) == t - tdiv(t3 as int, 6) + tdiv(t5 as int, 120));
        assert(cos_poly(t as int) == SCALE - tdiv(t2 as int, 2) + tdiv(t4 as int, 24) - tdiv(
            t6 as int,
            720,
        ));
    }
    (s, c)
}

/// Fixed-point sine and cosine of a nonnegative angle.
pub fn sin_cos_fx(a: i64) -> (r: (i64, i64))
    requires
        a >= 0,
    ensures
        r.0 as int == sin_spec(a as int),
        r.1 as int == cos_spec(a as int),
        -TRIG_BOUND <= r.0 <= TRIG_BOUND,
        -TRIG_BOUND <= r.1 <= TRIG_BOUND,
{
    let red: i64 = ((a as u64) % (TWO_PI_FX as u64)) as i64;
    assert(red as int == angle_reduce(a as int));
    if red < HALF_PI_FX {
        let (s, c) = trig_polys(red);
        (s, c)
    } else if red < PI_FX {
        let (s, c) = trig_polys(PI_FX - red);
        (s, -c)
    } else if red < THREE_HALF_PI_FX {
        let (s, c) = trig_polys(red - PI_FX);
        (-s, -c)
    } else {
        let (s, c) = trig_polys(TWO_PI_FX - red);
        (-s, c)
    }
}

/// Fixed-point hyperbolic tangent: `(e^{2x} - 1) / (e^{2x} + 1)`.
pub open spec fn tanh_spec(x: int) -> int {
    let e: int = exp_spec(sat_val(2 * x));
    tdiv((e - SCALE) * SCALE, e + SCALE)
}

/// Fixed-point tanh; the result magnitude never exceeds one real unit.
pub fn tanh_fx(x: i64) -> (r: i64)
    requires
        -VAL_MAX <= x <= VAL_MAX,
    ensures
        r as int == tanh_spec(x as int),
        -SCALE <= r <= SCALE,
{
    let d: i64 = add_fx(x, x);
    assert(d as int == sat_val(2 * x));
    let e: i64 = exp_fx(d);
    let num: i64 = (e - SCALE) * SCALE;
    let den: i64 = e + SCALE;
    let r: i64 = tdiv64(num, den);
    proof {
        if e >= SCALE {
            assert((e - SCALE) * SCALE <= SCALE * (e + SCALE)) by (nonlinear_arith)
                requires
                    e >= SCALE,
            ;
            lemma_tdiv_upper(num as int, den as int, SCALE as int);
        } else {
            assert((SCALE - e) * SCALE <= SCALE * (e + SCALE)) by (nonlinear_arith)
                requires
                    0 <= e < SCALE,
            ;
            lemma_tdiv_upper((-num) as int, den as int, SCALE as int);
            assert(tdiv(num as int, den as int) == -tdiv((-num) as int, den as int));
        }
    }
    r
}

/// Fixed-point GELU with the tanh approximation:
/// `0.5 * x * (1 + tanh(0.7978845608 * x * (1 + 0.044715 * x^2)))`.
pub open spec fn gelu_spec(x: int) -> int {
    let x2: int = fmul(x, x);
    let inner: int = fmul(fmul(x, 52290), fadd(SCALE as int, fmul(2930, x2)));
    let th: int = tanh_spec(inner);
    tdiv(fmul(x, fadd(SCALE as int, th)), 2)
}

/// Fixed-point GELU activation.
pub fn gelu_fx(x: i64) -> (r: i64)
    ensures
        r as int == gelu_spec(x as int),
        -VAL_MAX <= r <= VAL_MAX,
{
    let x2: i64 = mul_fx(x, x);
    let inner: i64 = mul_fx(mul_fx(x, 52290), add_fx(SCALE, mul_fx(2930, x2)));
    let th: i64 = tanh_fx(inner);
    let g: i64 = mul_fx(x, add_fx(SCALE, th));
    tdiv64(g, 2)
}


/// The floor of the square root: halve the bit width recursively, then
/// correct by one.
pub open spec fn sqrt_floor(x: int) -> int
    decreases x,
{
    if x <= 0 {
        0
    } else {
        let r = 2 * sqrt_floor(x / 4);
        if (r + 1) * (r + 1) <= x {
            r + 1
        } else {
            r
        }
    }
}

/// The defining bracket of the floor square root.
pub proof fn lemma_sqrt_floor_bounds(x: int)
    requires
        x >= 0,
    ensures
        sqrt_floor(x) >= 0,
        sqrt_floor(x) * sqrt_floor(x) <= x,
        x < (sqrt_floor(x) + 1) * (sqrt_floor(x) + 1),
    decreases x,
{
    if x == 0 {
        assert(0 * 0 <= 0 && 0 < (0 + 1) * (0 + 1)) by (nonlinear_arith);
    } else {
        lemma_div_pos_is_pos(x, 4);
        vstd::arithmetic::div_mod::lemma_div_is_strictly_smaller(x, 4);
        lemma_sqrt_floor_bounds(x / 4);
        let r0 = sqrt_floor(x / 4);
        let r = 2 * r0;
        lemma_fundamental_div_mod(x, 4);
        lemma_mod_bound(x, 4);
        assert(r * r <= x && x < (r + 2) * (r + 2)) by (nonlinear_arith)
            requires
                r == 2 * r0,
                r0 >= 0,
                r0 * r0 <= x / 4,
                x / 4 < (r0 + 1) * (r0 + 1),
                x == 4 * (x / 4) + x % 4,
                0 <= x % 4 < 4,
        ;
        if (r + 1) * (r + 1) <= x {
            assert(sqrt_floor(x) == r + 1);
        } else {
            assert(sqrt_floor(x) == r);
        }
    }
}

/// Any integer inside the bracket is the floor square root.
pub proof fn lemma_sqrt_floor_unique(x: int, r: int)
    requires
        x >= 0,
        r >= 0,
        r * r <= x,
        x < (r + 1) * (r + 1),
    ensures
        r == sqrt_floor(x),
{
    lemma_sqrt_floor_bounds(x);
    let s = sqrt_floor(x);
    if r < s {
        assert((r + 1) * (r + 1) <= s * s) by (nonlinear_arith)
            requires
                0 <= r + 1 <= s,
        ;
    }
    if s < r {
        assert((s + 1) * (s + 1) <= r * r) by (nonlinear_arith)
            requires
                0 <= s + 1 <= r,
        ;
    }
}

/// The floor square root on u128, pinned to `sqrt_floor`.
pub fn isqrt_exact(x: u128) -> (r: u128)
    requires
        x < 85070591730234615865843651857942052864u128,
    ensures
        r as int == sqrt_floor(x as int),
        r * r <= x,
{
    let r: u128 = isqrt_u128(x);
    proof {
        lemma_sqrt_floor_unique(x as int, r as int);
    }
    r
}

} // verus!
