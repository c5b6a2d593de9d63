//! Image preprocessing: bicubic resampling to a fixed target size and
//! per-channel mean/std normalization into a channel-major tensor.
//!
//! The resampler works in exact integer arithmetic.  An output pixel maps
//! to the source coordinate `(o + 0.5) * in/out - 0.5`, a rational with
//! denominator `q = 2 * out`; the Catmull-Rom weights of the four taps
//! around it are integer polynomials over the common denominator `2*q^3`,
//! so the weighted sum needs no rounding at all and taps outside the
//! source are skipped without renormalizing, exactly as specified.

use vstd::prelude::*;
use vstd::arithmetic::div_mod::*;
use crate::fixed::{tdiv, tdiv64, SCALE, VAL_MAX};

verus! {

/// Largest accepted image width or height.
pub const IMG_MAX: usize = 16384;

/// A decoded raster: interleaved 8-bit RGB rows, top to bottom.
pub struct RasterImage {
    pub width: usize,
    pub height: usize,
    pub data: Vec<u8>,
}

impl RasterImage {
    /// Dimensions within bounds and exactly `width * height * 3` samples.
    pub open spec fn wf(self) -> bool {
        &&& self.width <= IMG_MAX
        &&& self.height <= IMG_MAX
        &&& self.data.len() == self.width * self.height * 3
    }

    /// Channel `c` of the pixel at column `x`, row `y`.
    pub open spec fn pix(self, x: int, y: int, c: int) -> int {
        self.data[(y * self.width + x) * 3 + c] as int
    }
}

/// Numerator of the continuous source coordinate for output index `o`:
/// the coordinate is `src_num / (2*out_d)`.
pub open spec fn src_num(o: int, in_d: int, out_d: int) -> int {
    (2 * o + 1) * in_d - out_d
}

/// The integer part (floor) of the source coordinate.
pub open spec fn src_base(o: int, in_d: int, out_d: int) -> int {
    src_num(o, in_d, out_d) / (2 * out_d)
}

/// The fractional part of the source coordinate, as a numerator over
/// `2*out_d`.
pub open spec fn src_frac(o: int, in_d: int, out_d: int) -> int {
    src_num(o, in_d, out_d) % (2 * out_d)
}

/// Catmull-Rom tap weight for tap `t` (offsets -1, 0, 1, 2 from the base),
/// as an integer over the common denominator `2*q^3`, where the fractional
/// position is `f / q`.
pub open spec fn wtap(f: int, q: int, t: int) -> int {
    if t == 0 {
        let u = f + q;
        outer_cubic(u, q)
    } else if t == 1 {
        inner_cubic(f, q)
    } else if t == 2 {
        inner_cubic(q - f, q)
    } else if t == 3 {
        outer_cubic(2 * q - f, q)
    } else {
        0
    }
}

/// The kernel's outer branch `-0.5 t^3 + 2.5 t^2 - 4 t + 2` at `t = u/q`,
/// scaled by `2 q^3`.
pub open spec fn outer_cubic(u: int, q: int) -> int {
    let u2 = u * u;
    let u3 = u2 * u;
    let q2 = q * q;
    let q3 = q2 * q;
    -u3 + 5 * (q * u2) - 8 * (q2 * u) + 4 * q3
}

/// The kernel's inner branch `1.5 t^3 - 2.5 t^2 + 1` at `t = u/q`,
/// scaled by `2 q^3`.
pub open spec fn inner_cubic(u: int, q: int) -> int {
    let u2 = u * u;
    let u3 = u2 * u;
    let q2 = q * q;
    let q3 = q2 * q;
    3 * u3 - 5 * (q * u2) + 2 * q3
}

/// The four tap weights always sum to exactly one: `2*q^3` over the
/// common denominator `2*q^3`.  This is the partition of unity of the
/// Catmull-Rom kernel, and it holds as a polynomial identity.
pub proof fn lemma_wtap_unity(f: int, q: int)
    ensures
        wtap(f, q, 0) + wtap(f, q, 1) + wtap(f, q, 2) + wtap(f, q, 3) == 2 * (q * q * q),
{
    let w0 = wtap(f, q, 0);
    let w1 = wtap(f, q, 1);
    let w2 = wtap(f, q, 2);
    let w3 = wtap(f, q, 3);
    assert(w0 + w1 + w2 + w3 == 2 * (q * q * q)) by (nonlinear_arith)
        requires
            w0 == outer_cubic(f + q, q),
            w1 == inner_cubic(f, q),
            w2 == inner_cubic(q - f, q),
            w3 == outer_cubic(2 * q - f, q),
            w0 == -((f + q) * (f + q) * (f + q)) + 5 * (q * ((f + q) * (f + q))) - 8 * ((q * q) * (f
                + q)) + 4 * ((q * q) * q),
            w1 == 3 * (f * f * f) - 5 * (q * (f * f)) + 2 * ((q * q) * q),
            w2 == 3 * ((q - f) * (q - f) * (q - f)) - 5 * (q * ((q - f) * (q - f))) + 2 * ((q * q)
                * q),
            w3 == -((2 * q - f) * (2 * q - f) * (2 * q - f)) + 5 * (q * ((2 * q - f) * (2 * q - f)))
                - 8 * ((q * q) * (2 * q - f)) + 4 * ((q * q) * q),
    ;
}

/// The contribution of tap `(m, n)` (row, column, each in 0..4) to the
/// weighted sum for output pixel `(x, y)`, channel `c`: the source sample
/// times both axis weights, or zero when the tap falls outside the image.
pub open spec fn tap_at(
    img: RasterImage,
    out_w: int,
    out_h: int,
    x: int,
    y: int,
    c: int,
    m: int,
    n: int,
) -> int {
    let sy = src_base(y, img.height as int, out_h) + m - 1;
    let sx = src_base(x, img.width as int, out_w) + n - 1;
    if 0 <= sy < img.height && 0 <= sx < img.width {
        img.pix(sx, sy, c) * wtap(src_frac(x, img.width as int, out_w), 2 * out_w, n) * wtap(
            src_frac(y, img.height as int, out_h),
            2 * out_h,
            m,
        )
    } else {
        0
    }
}

/// The sum of the first `k` of the 16 tap contributions, taken row-major
/// over the 4x4 neighborhood.
pub open spec fn taps_prefix(
    img: RasterImage,
    out_w: int,
    out_h: int,
    x: int,
    y: int,
    c: int,
    k: int,
) -> int
    decreases k,
{
    if k <= 0 {
        0
    } else {
        taps_prefix(img, out_w, out_h, x, y, c, k - 1) + tap_at(
            img,
            out_w,
            out_h,
            x,
            y,
            c,
            (k - 1) / 4,
            (k - 1) % 4,
        )
    }
}

/// The common denominator of the 16 products of two axis weights.
pub open spec fn tap_den(out_w: int, out_h: int) -> int {
    let qx = 2 * out_w;
    let qy = 2 * out_h;
    (2 * (qx * qx * qx)) * (2 * (qy * qy * qy))
}

/// The resampled value: the exact weighted sum over the in-bounds taps,
/// divided by the weight denominator and clamped to `[0, 255]`.
pub open spec fn resized_pix(
    img: RasterImage,
    out_w: int,
    out_h: int,
    x: int,
    y: int,
    c: int,
) -> int {
    let s = taps_prefix(img, out_w, out_h, x, y, c, 16);
    if s <= 0 {
        0
    } else {
        let v = s / tap_den(out_w, out_h);
        if v > 255 {
            255
        } else {
            v
        }
    }
}

/// Floor division and remainder of a (possibly negative) numerator that
/// exceeds `-q`, by shifting one period up before dividing.
fn floor_div_frac(num: i64, q: i64) -> (r: (i64, i64))
    requires
        1 <= q <= 65536,
        -q < num,
        num < 2147483647,
    ensures
        r.0 as int == num as int / q as int,
        r.1 as int == num as int % q as int,
        -1 <= r.0 <= 2147549183,
        0 <= r.1 < q,
{
    let nq: i64 = num + q;
    let d: i64 = ((nq as u64) / (q as u64)) as i64;
    let m: i64 = ((nq as u64) % (q as u64)) as i64;
    proof {
        lemma_fundamental_div_mod(nq as int, q as int);
        lemma_mod_bound(nq as int, q as int);
        lemma_div_nonincreasing(nq as int, q as int);
        lemma_div_pos_is_pos(nq as int, q as int);
        assert(num as int == (d - 1) * q + m) by (nonlinear_arith)
            requires
                nq == num + q,
                nq as int == q * (d as int) + m,
        ;
        lemma_fundamental_div_mod_converse_div(num as int, q as int, d as int - 1, m as int);
        lemma_fundamental_div_mod_converse_mod(num as int, q as int, d as int - 1, m as int);
    }
    (d - 1, m)
}

/// One integer Catmull-Rom weight; the magnitude stays below 1.7e15.
fn wtap_exec(f: i64, q: i64, t: usize) -> (w: i64)
    requires
        0 <= f < q,
        q <= 32768,
        t < 4,
    ensures
        w as int == wtap(f as int, q as int, t as int),
        -1690000000000000 <= w <= 1690000000000000,
{
    if t == 0 {
        outer_cubic_exec(f + q, q)
    } else if t == 1 {
        inner_cubic_exec(f, q)
    } else if t == 2 {
        inner_cubic_exec(q - f, q)
    } else {
        outer_cubic_exec(2 * q - f, q)
    }
}

/// The outer-branch cubic on machine integers.
fn outer_cubic_exec(u: i64, q: i64) -> (w: i64)
    requires
        0 < q <= 32768,
        0 <= u <= 2 * q,
    ensures
        w as int == outer_cubic(u as int, q as int),
        -1690000000000000 <= w <= 1690000000000000,
{
    proof {
        lemma_cubic_bounds(u as int, q as int);
    }
    let u2: i64 = u * u;
    let u3: i64 = u2 * u;
    let q2: i64 = q * q;
    let q3: i64 = q2 * q;
    let qu2: i64 = q * u2;
    let q2u: i64 = q2 * u;
    -u3 + 5 * qu2 - 8 * q2u + 4 * q3
}

/// The inner-branch cubic on machine integers.
fn inner_cubic_exec(u: i64, q: i64) -> (w: i64)
    requires
        0 < q <= 32768,
        0 <= u <= 2 * q,
    ensures
        w as int == inner_cubic(u as int, q as int),
        -1690000000000000 <= w <= 1690000000000000,
{
    proof {
        lemma_cubic_bounds(u as int, q as int);
    }
    let u2: i64 = u * u;
    let u3: i64 = u2 * u;
    let q2: i64 = q * q;
    let q3: i64 = q2 * q;
    let qu2: i64 = q * u2;
    3 * u3 - 5 * qu2 + 2 * q3
}

/// Bounds on every power and product that the cubics form.
proof fn lemma_cubic_bounds(u: int, q: int)
    requires
        0 < q <= 32768,
        0 <= u <= 2 * q,
    ensures
        0 <= u * u <= 4294967296,
        0 <= (u * u) * u <= 281474976710656,
        0 <= q * q <= 1073741824,
        0 <= (q * q) * q <= 35184372088832,
        0 <= q * (u * u) <= 140737488355328,
        0 <= (q * q) * u <= 70368744177664,
{
    assert(0 <= u * u <= 4294967296 && 0 <= (u * u) * u <= 281474976710656 && 0 <= q * q
        <= 1073741824 && 0 <= (q * q) * q <= 35184372088832 && 0 <= q * (u * u)
        <= 140737488355328 && 0 <= (q * q) * u <= 70368744177664) by (nonlinear_arith)
        requires
            0 <= u <= 2 * q,
            0 < q <= 32768,
    ;
}


/// Flat index arithmetic for interleaved RGB rasters.
proof fn lemma_pix_index(x: int, y: int, c: int, w: int, h: int)
    requires
        0 <= x < w,
        0 <= y < h,
        0 <= c < 3,
    ensures
        0 <= (y * w + x) * 3 + c < w * h * 3,
        y * w + x < w * h,
{
    assert(0 <= (y * w + x) * 3 + c < w * h * 3 && y * w + x < w * h) by (nonlinear_arith)
        requires
            0 <= x < w,
            0 <= y < h,
            0 <= c < 3,
    ;
}

impl RasterImage {
    /// Read one 8-bit sample.
    pub fn get_pix(&self, x: usize, y: usize, c: usize) -> (p: u8)
        requires
            self.wf(),
            x < self.width,
            y < self.height,
            c < 3,
        ensures
            p as int == self.pix(x as int, y as int, c as int),
    {
        proof {
            lemma_pix_index(
                x as int,
                y as int,
                c as int,
                self.width as int,
                self.height as int,
            );
            vstd::arithmetic::mul::lemma_mul_upper_bound(
                y as int,
                IMG_MAX as int,
                self.width as int,
                IMG_MAX as int,
            );
        }
        let idx: usize = (y * self.width + x) * 3 + c;
        self.data[idx]
    }
}

/// Resample an RGB raster to `out_w x out_h` with the Catmull-Rom kernel.
/// Every output sample is pinned to `resized_pix`: the exact rational
/// weighted sum over the in-bounds taps of its 4x4 source neighborhood,
/// clamped to `[0, 255]`.
pub fn resize_bicubic(input: &RasterImage, out_w: usize, out_h: usize) -> (r: RasterImage)
    requires
        input.wf(),
        1 <= input.width,
        1 <= input.height,
        1 <= out_w <= IMG_MAX,
        1 <= out_h <= IMG_MAX,
    ensures
        r.wf(),
        r.width == out_w,
        r.height == out_h,
        forall|x: int, y: int, c: int|
            0 <= x < out_w && 0 <= y < out_h && 0 <= c < 3 ==> r.pix(x, y, c) == resized_pix(
                *input,
                out_w as int,
                out_h as int,
                x,
                y,
                c,
            ),
{
    let in_w: usize = input.width;
    let in_h: usize = input.height;
    let row3: usize = out_w * 3;
    let mut data: Vec<u8> = Vec::new();
    let mut y: usize = 0;
    while y < out_h
        invariant
            input.wf(),
            1 <= in_w == input.width <= IMG_MAX,
            1 <= in_h == input.height <= IMG_MAX,
            1 <= out_w <= IMG_MAX,
            1 <= out_h <= IMG_MAX,
            row3 == out_w * 3,
            y <= out_h,
            data.len() == y * row3,
            forall|t: int|
                0 <= t < data.len() ==> #[trigger] data[t] as int == resized_pix(
                    *input,
                    out_w as int,
                    out_h as int,
                    (t / 3) % (out_w as int),
                    (t / 3) / (out_w as int),
                    t % 3,
                ),
        decreases out_h - y,
    {
        let qy: i64 = 2 * (out_h as i64);
        proof {
            assert((2 * (y as int) + 1) * (in_h as int) <= 32769 * 16384) by (nonlinear_arith)
                requires
                    0 <= (y as int) < 16384,
                    1 <= (in_h as int) <= 16384,
            ;
        }
        let num_y: i64 = (2 * (y as i64) + 1) * (in_h as i64) - (out_h as i64);
        let (y0, fy) = floor_div_frac(num_y, qy);
        let wy0: i64 = wtap_exec(fy, qy, 0);
        let wy1: i64 = wtap_exec(fy, qy, 1);
        let wy2: i64 = wtap_exec(fy, qy, 2);
        let wy3: i64 = wtap_exec(fy, qy, 3);
        let mut x: usize = 0;
        while x < out_w
            invariant
                input.wf(),
                1 <= in_w == input.width <= IMG_MAX,
                1 <= in_h == input.height <= IMG_MAX,
                1 <= out_w <= IMG_MAX,
                1 <= out_h <= IMG_MAX,
                row3 == out_w * 3,
                y < out_h,
                x <= out_w,
                qy == 2 * out_h,
                y0 as int == src_base(y as int, in_h as int, out_h as int),
                -1 <= y0 <= 2147549183,
                fy as int == src_frac(y as int, in_h as int, out_h as int),
                wy0 as int == wtap(fy as int, qy as int, 0),
                wy1 as int == wtap(fy as int, qy as int, 1),
                wy2 as int == wtap(fy as int, qy as int, 2),
                wy3 as int == wtap(fy as int, qy as int, 3),
                -1690000000000000 <= wy0 <= 1690000000000000,
                -1690000000000000 <= wy1 <= 1690000000000000,
                -1690000000000000 <= wy2 <= 1690000000000000,
                -1690000000000000 <= wy3 <= 1690000000000000,
                data.len() == y * row3 + x * 3,
                forall|t: int|
                    0 <= t < data.len() ==> #[trigger] data[t] as int == resized_pix(
                        *input,
                        out_w as int,
                        out_h as int,
                        (t / 3) % (out_w as int),
                        (t / 3) / (out_w as int),
                        t % 3,
                    ),
            decreases out_w - x,
        {
            let qx: i64 = 2 * (out_w as i64);
            proof {
                assert((2 * (x as int) + 1) * (in_w as int) <= 32769 * 16384) by (nonlinear_arith)
                    requires
                        0 <= (x as int) < 16384,
                        1 <= (in_w as int) <= 16384,
                ;
            }
            let num_x: i64 = (2 * (x as i64) + 1) * (in_w as i64) - (out_w as i64);
            let (x0, fx) = floor_div_frac(num_x, qx);
            let wx0: i64 = wtap_exec(fx, qx, 0);
            let wx1: i64 = wtap_exec(fx, qx, 1);
            let wx2: i64 = wtap_exec(fx, qx, 2);
            let wx3: i64 = wtap_exec(fx, qx, 3);
            let mut c: usize = 0;
            while c < 3
                invariant
                    input.wf(),
                    1 <= in_w == input.width <= IMG_MAX,
                    1 <= in_h == input.height <= IMG_MAX,
                    1 <= out_w <= IMG_MAX,
                    1 <= out_h <= IMG_MAX,
                    row3 == out_w * 3,
                    y < out_h,
                    x < out_w,
                    c <= 3,
                    qy == 2 * out_h,
                    qx == 2 * out_w,
                    y0 as int == src_base(y as int, in_h as int, out_h as int),
                    fy as int == src_frac(y as int, in_h as int, out_h as int),
                    x0 as int == src_base(x as int, in_w as int, out_w as int),
                    -1 <= y0 <= 2147549183,
                    -1 <= x0 <= 2147549183,
                    fx as int == src_frac(x as int, in_w as int, out_w as int),
                    wy0 as int == wtap(fy as int, qy as int, 0),
                    wy1 as int == wtap(fy as int, qy as int, 1),
                    wy2 as int == wtap(fy as int, qy as int, 2),
                    wy3 as int == wtap(fy as int, qy as int, 3),
                    wx0 as int == wtap(fx as int, qx as int, 0),
                    wx1 as int == wtap(fx as int, qx as int, 1),
                    wx2 as int == wtap(fx as int, qx as int, 2),
                    wx3 as int == wtap(fx as int, qx as int, 3),
                    -1690000000000000 <= wy0 <= 1690000000000000,
                    -1690000000000000 <= wy1 <= 1690000000000000,
                    -1690000000000000 <= wy2 <= 1690000000000000,
                    -1690000000000000 <= wy3 <= 1690000000000000,
                    -1690000000000000 <= wx0 <= 1690000000000000,
                    -1690000000000000 <= wx1 <= 1690000000000000,
                    -1690000000000000 <= wx2 <= 1690000000000000,
                    -1690000000000000 <= wx3 <= 1690000000000000,
                    data.len() == y * row3 + x * 3 + c,
                    forall|t: int|
                        0 <= t < data.len() ==> #[trigger] data[t] as int == resized_pix(
                            *input,
                            out_w as int,
                            out_h as int,
                            (t / 3) % (out_w as int),
                            (t / 3) / (out_w as int),
                            t % 3,
                        ),
                decreases 3 - c,
            {
                let v: u8 = resample_channel(
                    input, out_w, out_h, x, y, c, x0, y0, fx, fy,
                    wx0, wx1, wx2, wx3, wy0, wy1, wy2, wy3, qx, qy,
                );
                proof {
                    let t = data.len() as int;
                    let ow = out_w as int;
                    assert(t == ((y as int) * ow + x) * 3 + c) by (nonlinear_arith)
                        requires
                            t == (y as int) * ((ow * 3) as int) + (x as int) * 3 + c,
                            row3 == ow * 3,
                    ;
                    lemma_fundamental_div_mod_converse_div(t, 3, (y as int) * ow + x, c as int);
                    lemma_fundamental_div_mod_converse_mod(t, 3, (y as int) * ow + x, c as int);
                    lemma_fundamental_div_mod_converse_div((y as int) * ow + x, ow, y as int, x as int);
                    lemma_fundamental_div_mod_converse_mod((y as int) * ow + x, ow, y as int, x as int);
                }
                data.push(v);
                c = c + 1;
            }
            x = x + 1;
        }
        proof {
            assert((y as int) * row3 + (out_w as int) * 3 == (y as int + 1) * row3)
                by (nonlinear_arith)
                requires
                    row3 == (out_w as int) * 3,
            ;
        }
        y = y + 1;
    }
    let r = RasterImage { width: out_w, height: out_h, data };
    proof {
        assert((out_h as int) * ((out_w as int) * 3) == (out_w as int) * (out_h as int) * 3)
            by (nonlinear_arith);
        assert forall|x: int, y: int, c: int|
            0 <= x < out_w && 0 <= y < out_h && 0 <= c < 3 implies #[trigger] r.pix(x, y, c)
            == resized_pix(*input, out_w as int, out_h as int, x, y, c) by {
            let ow = out_w as int;
            let t = (y * ow + x) * 3 + c;
            lemma_pix_index(x, y, c, ow, out_h as int);
            lemma_fundamental_div_mod_converse_div(t, 3, y * ow + x, c);
            lemma_fundamental_div_mod_converse_mod(t, 3, y * ow + x, c);
            lemma_fundamental_div_mod_converse_div(y * ow + x, ow, y, x);
            lemma_fundamental_div_mod_converse_mod(y * ow + x, ow, y, x);
        }
    }
    r
}


/// Accumulate the 16 tap contributions for one output sample and clamp.
#[verifier::rlimit(30)]
fn resample_channel(
    input: &RasterImage,
    out_w: usize,
    out_h: usize,
    x: usize,
    y: usize,
    c: usize,
    x0: i64,
    y0: i64,
    fx: i64,
    fy: i64,
    wx0: i64,
    wx1: i64,
    wx2: i64,
    wx3: i64,
    wy0: i64,
    wy1: i64,
    wy2: i64,
    wy3: i64,
    qx: i64,
    qy: i64,
) -> (v: u8)
    requires
        input.wf(),
        1 <= input.width <= IMG_MAX,
        1 <= input.height <= IMG_MAX,
        1 <= out_w <= IMG_MAX,
        1 <= out_h <= IMG_MAX,
        x < out_w,
        y < out_h,
        c < 3,
        qx == 2 * out_w,
        qy == 2 * out_h,
        x0 as int == src_base(x as int, input.width as int, out_w as int),
        y0 as int == src_base(y as int, input.height as int, out_h as int),
        fx as int == src_frac(x as int, input.width as int, out_w as int),
        fy as int == src_frac(y as int, input.height as int, out_h as int),
        wx0 as int == wtap(fx as int, qx as int, 0),
        wx1 as int == wtap(fx as int, qx as int, 1),
        wx2 as int == wtap(fx as int, qx as int, 2),
        wx3 as int == wtap(fx as int, qx as int, 3),
        wy0 as int == wtap(fy as int, qy as int, 0),
        wy1 as int == wtap(fy as int, qy as int, 1),
        wy2 as int == wtap(fy as int, qy as int, 2),
        wy3 as int == wtap(fy as int, qy as int, 3),
        -1690000000000000 <= wx0 <= 1690000000000000,
        -1690000000000000 <= wx1 <= 1690000000000000,
        -1690000000000000 <= wx2 <= 1690000000000000,
        -1690000000000000 <= wx3 <= 1690000000000000,
        -1690000000000000 <= wy0 <= 1690000000000000,
        -1690000000000000 <= wy1 <= 1690000000000000,
        -1690000000000000 <= wy2 <= 1690000000000000,
        -1690000000000000 <= wy3 <= 1690000000000000,
        -1 <= x0 <= 2147549183,
        -1 <= y0 <= 2147549183,
    ensures
        v as int == resized_pix(*input, out_w as int, out_h as int, x as int, y as int, c as int),
{
    let ghost cmax: int = 728305500000000000000000000000000;
    let mut acc: i128 = 0;
    let mut k: usize = 0;
    while k < 16
        invariant
            input.wf(),
            1 <= input.width <= IMG_MAX,
            1 <= input.height <= IMG_MAX,
            1 <= out_w <= IMG_MAX,
            1 <= out_h <= IMG_MAX,
            x < out_w,
            y < out_h,
            c < 3,
            qx == 2 * out_w,
            qy == 2 * out_h,
            x0 as int == src_base(x as int, input.width as int, out_w as int),
            y0 as int == src_base(y as int, input.height as int, out_h as int),
            wx0 as int == wtap(fx as int, qx as int, 0),
            wx1 as int == wtap(fx as int, qx as int, 1),
            wx2 as int == wtap(fx as int, qx as int, 2),
            wx3 as int == wtap(fx as int, qx as int, 3),
            wy0 as int == wtap(fy as int, qy as int, 0),
            wy1 as int == wtap(fy as int, qy as int, 1),
            wy2 as int == wtap(fy as int, qy as int, 2),
            wy3 as int == wtap(fy as int, qy as int, 3),
            fx as int == src_frac(x as int, input.width as int, out_w as int),
            fy as int == src_frac(y as int, input.height as int, out_h as int),
            -1690000000000000 <= wx0 <= 1690000000000000,
            -1690000000000000 <= wx1 <= 1690000000000000,
            -1690000000000000 <= wx2 <= 1690000000000000,
            -1690000000000000 <= wx3 <= 1690000000000000,
            -1690000000000000 <= wy0 <= 1690000000000000,
            -1690000000000000 <= wy1 <= 1690000000000000,
            -1690000000000000 <= wy2 <= 1690000000000000,
            -1690000000000000 <= wy3 <= 1690000000000000,
            -1 <= x0 <= 2147549183,
            -1 <= y0 <= 2147549183,
            k <= 16,
            cmax == 728305500000000000000000000000000,
            acc as int == taps_prefix(
                *input,
                out_w as int,
                out_h as int,
                x as int,
                y as int,
                c as int,
                k as int,
            ),
            acc as int <= (k as int) * cmax,
            -((k as int) * cmax) <= acc as int,
        decreases 16 - k,
    {
        let m: usize = k / 4;
        let n: usize = k % 4;
        let sy: i64 = y0 + (m as i64) - 1;
        let sx: i64 = x0 + (n as i64) - 1;
        let wxv: i64 = if n == 0 {
            wx0
        } else if n == 1 {
            wx1
        } else if n == 2 {
            wx2
        } else {
            wx3
        };
        let wyv: i64 = if m == 0 {
            wy0
        } else if m == 1 {
            wy1
        } else if m == 2 {
            wy2
        } else {
            wy3
        };
        let term: i128 = if 0 <= sy && sy < input.height as i64 && 0 <= sx && sx
            < input.width as i64 {
            let p: u8 = input.get_pix(sx as usize, sy as usize, c);
            let ww: i128 = crate::fixed::mul_wide(wxv, wyv);
            proof {
                assert(-(2856100000000000000000000000000 as int) <= (wxv as int) * (wyv as int)
                    <= 2856100000000000000000000000000) by (nonlinear_arith)
                    requires
                        -1690000000000000 <= wxv as int <= 1690000000000000,
                        -1690000000000000 <= wyv as int <= 1690000000000000,
                ;
                assert(-cmax <= (p as int) * ((wxv as int) * (wyv as int)) <= cmax)
                    by (nonlinear_arith)
                    requires
                        0 <= p as int <= 255,
                        -(2856100000000000000000000000000 as int) <= (wxv as int) * (wyv as int)
                            <= 2856100000000000000000000000000,
                        cmax == 728305500000000000000000000000000,
                ;
                assert((p as int) * ((wxv as int) * (wyv as int)) == ((p as int) * (wxv as int))
                    * (wyv as int)) by (nonlinear_arith);
            }
            (p as i128) * ww
        } else {
            0
        };
        proof {
            assert((k as int) * cmax + cmax == (k as int + 1) * cmax) by (nonlinear_arith);
            assert((k as int + 1) * cmax <= 16 * cmax) by (nonlinear_arith)
                requires
                    k as int + 1 <= 16,
                    0 <= cmax,
            ;
            assert(term as int == tap_at(
                *input,
                out_w as int,
                out_h as int,
                x as int,
                y as int,
                c as int,
                m as int,
                n as int,
            ));
        }
        acc = acc + term;
        k = k + 1;
    }
    proof {
        assert(0 < (qx as int) * (qx as int) <= 1073741824 && 0 < ((qx as int) * (qx as int)) * (
        qx as int) <= 35184372088832) by (nonlinear_arith)
            requires
                2 <= (qx as int) <= 32768,
        ;
        assert(0 < (qy as int) * (qy as int) <= 1073741824 && 0 < ((qy as int) * (qy as int)) * (
        qy as int) <= 35184372088832) by (nonlinear_arith)
            requires
                2 <= (qy as int) <= 32768,
        ;
    }
    let qx3: i64 = (qx * qx) * qx;
    let qy3: i64 = (qy * qy) * qy;
    let den: i128 = crate::fixed::mul_wide(2 * qx3, 2 * qy3);
    proof {
        assert(0 < (2 * (qx3 as int)) * (2 * (qy3 as int))
            <= 4951760157141521099596496896) by (nonlinear_arith)
            requires
                0 < qx3 as int <= 35184372088832,
                0 < qy3 as int <= 35184372088832,
        ;
        assert(den as int == tap_den(out_w as int, out_h as int));
    }
    if acc <= 0 {
        0
    } else {
        let dq: i128 = ((acc as u128) / (den as u128)) as i128;
        proof {
            lemma_div_pos_is_pos(acc as int, den as int);
            lemma_div_nonincreasing(acc as int, den as int);
        }
        if dq > 255 {
            255
        } else {
            dq as u8
        }
    }
}


/// Does the whole 4x4 neighborhood of output position `o` lie inside the
/// source extent `in_d`?
pub open spec fn taps_inside(o: int, in_d: int, out_d: int) -> bool {
    &&& src_base(o, in_d, out_d) - 1 >= 0
    &&& src_base(o, in_d, out_d) + 2 < in_d
}

/// Resampling preserves constant color: when channel `c` of the source is
/// the constant `v` and the whole 4x4 neighborhood of the output pixel is
/// inside the source, the resampled value is exactly `v` — the integer
/// tap weights sum to exactly one whole denominator.
#[verifier::spinoff_prover]
pub proof fn lemma_resize_constant(
    img: RasterImage,
    out_w: int,
    out_h: int,
    x: int,
    y: int,
    c: int,
    v: int,
)
    requires
        img.wf(),
        1 <= out_w <= IMG_MAX,
        1 <= out_h <= IMG_MAX,
        0 <= x < out_w,
        0 <= y < out_h,
        0 <= c < 3,
        0 <= v <= 255,
        forall|sx: int, sy: int|
            0 <= sx < img.width && 0 <= sy < img.height ==> #[trigger] img.pix(sx, sy, c) == v,
        taps_inside(x, img.width as int, out_w),
        taps_inside(y, img.height as int, out_h),
    ensures
        resized_pix(img, out_w, out_h, x, y, c) == v,
{
    let qx = 2 * out_w;
    let qy = 2 * out_h;
    let fx = src_frac(x, img.width as int, out_w);
    let fy = src_frac(y, img.height as int, out_h);
    let sx2 = wtap(fx, qx, 0) + wtap(fx, qx, 1) + wtap(fx, qx, 2) + wtap(fx, qx, 3);
    let sy2 = wtap(fy, qy, 0) + wtap(fy, qy, 1) + wtap(fy, qy, 2) + wtap(fy, qy, 3);
    lemma_wtap_unity(fx, qx);
    lemma_wtap_unity(fy, qy);
    assert forall|m: int, n: int| 0 <= m < 4 && 0 <= n < 4 implies #[trigger] tap_at(
        img,
        out_w,
        out_h,
        x,
        y,
        c,
        m,
        n,
    ) == v * wtap(fx, qx, n) * wtap(fy, qy, m) by {
        let ty = src_base(y, img.height as int, out_h) + m - 1;
        let tx = src_base(x, img.width as int, out_w) + n - 1;
        assert(0 <= ty < img.height && 0 <= tx < img.width);
        assert(img.pix(tx, ty, c) == v);
    }
    let s = taps_prefix(img, out_w, out_h, x, y, c, 16);
    lemma_taps_rowsum(img, out_w, out_h, x, y, c, v, fx, fy, qx, qy);
    assert(s == v * sx2 * sy2) by (nonlinear_arith)
        requires
            s == (v * sx2) * wtap(fy, qy, 0) + (v * sx2) * wtap(fy, qy, 1) + (v * sx2) * wtap(
                fy,
                qy,
                2,
            ) + (v * sx2) * wtap(fy, qy, 3),
            sy2 == wtap(fy, qy, 0) + wtap(fy, qy, 1) + wtap(fy, qy, 2) + wtap(fy, qy, 3),
    ;
    let den = tap_den(out_w, out_h);
    assert(s == v * den && den > 0) by (nonlinear_arith)
        requires
            s == v * sx2 * sy2,
            sx2 == 2 * (qx * qx * qx),
            sy2 == 2 * (qy * qy * qy),
            den == (2 * (qx * qx * qx)) * (2 * (qy * qy * qy)),
            qx >= 2,
            qy >= 2,
    ;
    if v == 0 {
        assert(s == 0) by (nonlinear_arith)
            requires
                s == v * den,
                v == 0,
        ;
    } else {
        assert(s > 0 && s == den * v) by (nonlinear_arith)
            requires
                s == v * den,
                v >= 1,
                den > 0,
        ;
        lemma_div_multiples_vanish(v, den);
    }
}

/// With a constant source, the 16-tap sum factors through the four row
/// sums: each row contributes `(v * sum of column weights)` times its own
/// row weight.
#[verifier::spinoff_prover]
proof fn lemma_taps_rowsum(
    img: RasterImage,
    out_w: int,
    out_h: int,
    x: int,
    y: int,
    c: int,
    v: int,
    fx: int,
    fy: int,
    qx: int,
    qy: int,
)
    requires
        qx == 2 * out_w,
        qy == 2 * out_h,
        fx == src_frac(x, img.width as int, out_w),
        fy == src_frac(y, img.height as int, out_h),
        forall|m: int, n: int|
            0 <= m < 4 && 0 <= n < 4 ==> #[trigger] tap_at(img, out_w, out_h, x, y, c, m, n) == v
                * wtap(fx, qx, n) * wtap(fy, qy, m),
    ensures
        taps_prefix(img, out_w, out_h, x, y, c, 16) == (v * (wtap(fx, qx, 0) + wtap(fx, qx, 1)
            + wtap(fx, qx, 2) + wtap(fx, qx, 3))) * wtap(fy, qy, 0) + (v * (wtap(fx, qx, 0) + wtap(
            fx,
            qx,
            1,
        ) + wtap(fx, qx, 2) + wtap(fx, qx, 3))) * wtap(fy, qy, 1) + (v * (wtap(fx, qx, 0) + wtap(
            fx,
            qx,
            1,
        ) + wtap(fx, qx, 2) + wtap(fx, qx, 3))) * wtap(fy, qy, 2) + (v * (wtap(fx, qx, 0) + wtap(
            fx,
            qx,
            1,
        ) + wtap(fx, qx, 2) + wtap(fx, qx, 3))) * wtap(fy, qy, 3),
{
    let w0 = wtap(fx, qx, 0);
    let w1 = wtap(fx, qx, 1);
    let w2 = wtap(fx, qx, 2);
    let w3 = wtap(fx, qx, 3);
    let r0 = wtap(fy, qy, 0);
    let r1 = wtap(fy, qy, 1);
    let r2 = wtap(fy, qy, 2);
    let r3 = wtap(fy, qy, 3);
    let s4 = taps_prefix(img, out_w, out_h, x, y, c, 4);
    let s8 = taps_prefix(img, out_w, out_h, x, y, c, 8);
    let s12 = taps_prefix(img, out_w, out_h, x, y, c, 12);
    let s16 = taps_prefix(img, out_w, out_h, x, y, c, 16);
    assert(taps_prefix(img, out_w, out_h, x, y, c, 0) == 0);
    assert(taps_prefix(img, out_w, out_h, x, y, c, 1) == taps_prefix(img, out_w, out_h, x, y, c, 0) + tap_at(img, out_w, out_h, x, y, c, 0, 0));
    assert(taps_prefix(img, out_w, out_h, x, y, c, 2) == taps_prefix(img, out_w, out_h, x, y, c, 1) + tap_at(img, out_w, out_h, x, y, c, 0, 1));
    assert(taps_prefix(img, out_w, out_h, x, y, c, 3) == taps_prefix(img, out_w, out_h, x, y, c, 2) + tap_at(img, out_w, out_h, x, y, c, 0, 2));
    assert(taps_prefix(img, out_w, out_h, x, y, c, 4) == taps_prefix(img, out_w, out_h, x, y, c, 3) + tap_at(img, out_w, out_h, x, y, c, 0, 3));
    assert(taps_prefix(img, out_w, out_h, x, y, c, 5) == taps_prefix(img, out_w, out_h, x, y, c, 4) + tap_at(img, out_w, out_h, x, y, c, 1, 0));
    assert(taps_prefix(img, out_w, out_h, x, y, c, 6) == taps_prefix(img, out_w, out_h, x, y, c, 5) + tap_at(img, out_w, out_h, x, y, c, 1, 1));
    assert(taps_prefix(img, out_w, out_h, x, y, c, 7) == taps_prefix(img, out_w, out_h, x, y, c, 6) + tap_at(img, out_w, out_h, x, y, c, 1, 2));
    assert(taps_prefix(img, out_w, out_h, x, y, c, 8) == taps_prefix(img, out_w, out_h, x, y, c, 7) + tap_at(img, out_w, out_h, x, y, c, 1, 3));
    assert(taps_prefix(img, out_w, out_h, x, y, c, 9) == taps_prefix(img, out_w, out_h, x, y, c, 8) + tap_at(img, out_w, out_h, x, y, c, 2, 0));
    assert(taps_prefix(img, out_w, out_h, x, y, c, 10) == taps_prefix(img, out_w, out_h, x, y, c, 9) + tap_at(img, out_w, out_h, x, y, c, 2, 1));
    assert(taps_prefix(img, out_w, out_h, x, y, c, 11) == taps_prefix(img, out_w, out_h, x, y, c, 10) + tap_at(img, out_w, out_h, x, y, c, 2, 2));
    assert(taps_prefix(img, out_w, out_h, x, y, c, 12) == taps_prefix(img, out_w, out_h, x, y, c, 11) + tap_at(img, out_w, out_h, x, y, c, 2, 3));
    assert(taps_prefix(img, out_w, out_h, x, y, c, 13) == taps_prefix(img, out_w, out_h, x, y, c, 12) + tap_at(img, out_w, out_h, x, y, c, 3, 0));
    assert(taps_prefix(img, out_w, out_h, x, y, c, 14) == taps_prefix(img, out_w, out_h, x, y, c, 13) + tap_at(img, out_w, out_h, x, y, c, 3, 1));
    assert(taps_prefix(img, out_w, out_h, x, y, c, 15) == taps_prefix(img, out_w, out_h, x, y, c, 14) + tap_at(img, out_w, out_h, x, y, c, 3, 2));
    assert(taps_prefix(img, out_w, out_h, x, y, c, 16) == taps_prefix(img, out_w, out_h, x, y, c, 15) + tap_at(img, out_w, out_h, x, y, c, 3, 3));
    assert(s4 == v * w0 * r0 + v * w1 * r0 + v * w2 * r0 + v * w3 * r0);
    assert(s8 == s4 + (v * w0 * r1 + v * w1 * r1 + v * w2 * r1 + v * w3 * r1));
    assert(s12 == s8 + (v * w0 * r2 + v * w1 * r2 + v * w2 * r2 + v * w3 * r2));
    assert(s16 == s12 + (v * w0 * r3 + v * w1 * r3 + v * w2 * r3 + v * w3 * r3));
    assert(v * w0 * r0 + v * w1 * r0 + v * w2 * r0 + v * w3 * r0 == (v * (w0 + w1 + w2 + w3)) * r0)
        by (nonlinear_arith);
    assert(v * w0 * r1 + v * w1 * r1 + v * w2 * r1 + v * w3 * r1 == (v * (w0 + w1 + w2 + w3)) * r1)
        by (nonlinear_arith);
    assert(v * w0 * r2 + v * w1 * r2 + v * w2 * r2 + v * w3 * r2 == (v * (w0 + w1 + w2 + w3)) * r2)
        by (nonlinear_arith);
    assert(v * w0 * r3 + v * w1 * r3 + v * w2 * r3 + v * w3 * r3 == (v * (w0 + w1 + w2 + w3)) * r3)
        by (nonlinear_arith);
}


/// Default per-channel means (CLIP), in fixed point.
pub const MEAN_R: i64 = 31553;

pub const MEAN_G: i64 = 30004;

pub const MEAN_B: i64 = 26752;

/// Default per-channel standard deviations (CLIP), in fixed point.
pub const STD_R: i64 = 17605;

pub const STD_G: i64 = 17125;

pub const STD_B: i64 = 18073;

/// A normalized channel-major tensor: 3 x height x width fixed-point
/// values, `(pixel/255 - mean[c]) / std[c]`.
pub struct NormalizedTensor {
    pub height: usize,
    pub width: usize,
    pub data: Vec<i64>,
}

impl NormalizedTensor {
    /// Shape within bounds, exactly `3*height*width` elements, all in the
    /// scalar range.
    pub open spec fn wf(self) -> bool {
        &&& self.height <= IMG_MAX
        &&& self.width <= IMG_MAX
        &&& self.data.len() == 3 * (self.height * self.width)
        &&& forall|k: int|
            0 <= k < self.data.len() ==> -VAL_MAX <= #[trigger] self.data[k] <= VAL_MAX
    }

    /// The value of channel `c` at row `y`, column `x`.
    pub open spec fn at(self, c: int, y: int, x: int) -> int {
        self.data[(c * self.height + y) * self.width + x] as int
    }

    /// Read one element.
    pub fn get(&self, c: usize, y: usize, x: usize) -> (r: i64)
        requires
            self.wf(),
            c < 3,
            y < self.height,
            x < self.width,
        ensures
            r as int == self.at(c as int, y as int, x as int),
            -VAL_MAX <= r <= VAL_MAX,
    {
        proof {
            lemma_tensor_index(c as int, y as int, x as int, self.height as int, self.width as int);
        }
        let idx: usize = (c * self.height + y) * self.width + x;
        let r: i64 = self.data[idx];
        assert(-VAL_MAX <= self.data[idx as int] <= VAL_MAX);
        r
    }
}

/// Flat index arithmetic for channel-major tensors.
proof fn lemma_tensor_index(c: int, y: int, x: int, h: int, w: int)
    requires
        0 <= c < 3,
        0 <= y < h,
        0 <= x < w,
        h <= IMG_MAX,
        w <= IMG_MAX,
    ensures
        0 <= (c * h + y) * w + x < 3 * (h * w),
        (c * h + y) * w + x < 805306368,
        c * h + y < 3 * h,
{
    assert(0 <= (c * h + y) * w + x < 3 * (h * w) && (c * h + y) * w + x < 805306368 && c * h + y
        < 3 * h) by (nonlinear_arith)
        requires
            0 <= c < 3,
            0 <= y < h,
            0 <= x < w,
            h <= 16384,
            w <= 16384,
    ;
}

/// One normalized sample: `(p/255 - mean) / std` in fixed point, with
/// truncating division at both steps.
pub open spec fn norm_val(p: int, mean: int, std: int) -> int {
    tdiv((tdiv(p * SCALE, 255) - mean) * SCALE, std)
}

/// Normalize one 8-bit sample.
fn normalize_value(p: u8, mean: i64, std: i64) -> (r: i64)
    requires
        -16 * SCALE <= mean <= 16 * SCALE,
        1 <= std,
    ensures
        r as int == norm_val(p as int, mean as int, std as int),
        -VAL_MAX <= r <= VAL_MAX,
{
    let scaled: i64 = tdiv64((p as i64) * SCALE, 255);
    let d: i64 = scaled - mean;
    tdiv64(d * SCALE, std)
}

/// The image processor: resample to a fixed square size, then normalize
/// each channel with its mean and standard deviation.
pub struct ImageProcessor {
    pub image_size: usize,
    pub mean: [i64; 3],
    pub std: [i64; 3],
}

/// One element of a preprocessed image: resample, then normalize.
pub open spec fn preprocess_val(
    p: ImageProcessor,
    img: RasterImage,
    c: int,
    y: int,
    x: int,
) -> int {
    norm_val(
        resized_pix(img, p.image_size as int, p.image_size as int, x, y, c),
        p.mean[c] as int,
        p.std[c] as int,
    )
}

impl ImageProcessor {
    /// Target size positive and within bounds; means and deviations in a
    /// sane fixed-point range, deviations positive.
    pub open spec fn wf(self) -> bool {
        &&& 1 <= self.image_size <= IMG_MAX
        &&& forall|c: int|
            0 <= c < 3 ==> -16 * SCALE <= #[trigger] self.mean[c] <= 16 * SCALE && 1
                <= self.std[c] <= 16 * SCALE
    }

    /// A processor with the default (CLIP) normalization constants.
    pub fn new(image_size: usize) -> (r: ImageProcessor)
        requires
            1 <= image_size <= IMG_MAX,
        ensures
            r.wf(),
            r.image_size == image_size,
            r.mean[0] == MEAN_R && r.mean[1] == MEAN_G && r.mean[2] == MEAN_B,
            r.std[0] == STD_R && r.std[1] == STD_G && r.std[2] == STD_B,
    {
        ImageProcessor {
            image_size,
            mean: [MEAN_R, MEAN_G, MEAN_B],
            std: [STD_R, STD_G, STD_B],
        }
    }

    /// Resample to `image_size x image_size`, then normalize every
    /// channel: each output element is pinned to `preprocess_val`.
    pub fn preprocess(&self, img: &RasterImage) -> (t: NormalizedTensor)
        requires
            self.wf(),
            img.wf(),
            1 <= img.width,
            1 <= img.height,
        ensures
            t.wf(),
            t.height == self.image_size,
            t.width == self.image_size,
            forall|c: int, y: int, x: int|
                0 <= c < 3 && 0 <= y < self.image_size && 0 <= x < self.image_size
                    ==> #[trigger] t.at(c, y, x) == preprocess_val(*self, *img, c, y, x),
    {
        let size: usize = self.image_size;
        let resized: RasterImage = resize_bicubic(img, size, size);
        let mut data: Vec<i64> = Vec::new();
        let mut c: usize = 0;
        while c < 3
            invariant
                self.wf(),
                img.wf(),
                size == self.image_size,
                1 <= size <= IMG_MAX,
                resized.wf(),
                resized.width == size,
                resized.height == size,
                forall|x2: int, y2: int, c2: int|
                    0 <= x2 < size && 0 <= y2 < size && 0 <= c2 < 3 ==> resized.pix(x2, y2, c2)
                        == resized_pix(*img, size as int, size as int, x2, y2, c2),
                c <= 3,
                data.len() == c * (size * size),
                forall|t: int|
                    0 <= t < data.len() ==> #[trigger] data[t] as int == preprocess_val(
                        *self,
                        *img,
                        (t / (size as int)) / (size as int),
                        (t / (size as int)) % (size as int),
                        t % (size as int),
                    ),
                forall|t: int| 0 <= t < data.len() ==> -VAL_MAX <= #[trigger] data[t] <= VAL_MAX,
            decreases 3 - c,
        {
            let mut y: usize = 0;
            while y < size
                invariant
                    self.wf(),
                    img.wf(),
                    size == self.image_size,
                    1 <= size <= IMG_MAX,
                    resized.wf(),
                    resized.width == size,
                    resized.height == size,
                    forall|x2: int, y2: int, c2: int|
                        0 <= x2 < size && 0 <= y2 < size && 0 <= c2 < 3 ==> resized.pix(x2, y2, c2)
                            == resized_pix(*img, size as int, size as int, x2, y2, c2),
                    c < 3,
                    y <= size,
                    data.len() == c * (size * size) + y * size,
                    forall|t: int|
                        0 <= t < data.len() ==> #[trigger] data[t] as int == preprocess_val(
                            *self,
                            *img,
                            (t / (size as int)) / (size as int),
                            (t / (size as int)) % (size as int),
                            t % (size as int),
                        ),
                    forall|t: int| 0 <= t < data.len() ==> -VAL_MAX <= #[trigger] data[t] <= VAL_MAX,
                decreases size - y,
            {
                let mut x: usize = 0;
                while x < size
                    invariant
                        self.wf(),
                        img.wf(),
                        size == self.image_size,
                        1 <= size <= IMG_MAX,
                        resized.wf(),
                        resized.width == size,
                        resized.height == size,
                        forall|x2: int, y2: int, c2: int|
                            0 <= x2 < size && 0 <= y2 < size && 0 <= c2 < 3 ==> resized.pix(
                                x2,
                                y2,
                                c2,
                            ) == resized_pix(*img, size as int, size as int, x2, y2, c2),
                        c < 3,
                        y < size,
                        x <= size,
                        data.len() == c * (size * size) + y * size + x,
                        forall|t: int|
                            0 <= t < data.len() ==> #[trigger] data[t] as int == preprocess_val(
                                *self,
                                *img,
                                (t / (size as int)) / (size as int),
                                (t / (size as int)) % (size as int),
                                t % (size as int),
                            ),
                        forall|t: int|
                            0 <= t < data.len() ==> -VAL_MAX <= #[trigger] data[t] <= VAL_MAX,
                    decreases size - x,
                {
                    let pv: u8 = resized.get_pix(x, y, c);
                    let mean_c: i64 = self.mean[c];
                    let std_c: i64 = self.std[c];
                    let v: i64 = normalize_value(pv, mean_c, std_c);
                    proof {
                        let t = data.len() as int;
                        let sz = size as int;
                        assert(t == ((c as int) * sz + y) * sz + x) by (nonlinear_arith)
                            requires
                                t == (c as int) * (sz * sz) + (y as int) * sz + x,
                        ;
                        lemma_fundamental_div_mod_converse_div(t, sz, (c as int) * sz + y, x as int);
                        lemma_fundamental_div_mod_converse_mod(t, sz, (c as int) * sz + y, x as int);
                        lemma_fundamental_div_mod_converse_div(
                            (c as int) * sz + y,
                            sz,
                            c as int,
                            y as int,
                        );
                        lemma_fundamental_div_mod_converse_mod(
                            (c as int) * sz + y,
                            sz,
                            c as int,
                            y as int,
                        );
                    }
                    data.push(v);
                    x = x + 1;
                }
                proof {
                    assert((c as int) * ((size as int) * size) + (y as int) * size + size == (
                    c as int) * ((size as int) * size) + (y as int + 1) * size)
                        by (nonlinear_arith);
                }
                y = y + 1;
            }
            proof {
                assert((c as int) * ((size as int) * size) + (size as int) * size == (c as int + 1)
                    * ((size as int) * size)) by (nonlinear_arith);
            }
            c = c + 1;
        }
        let t = NormalizedTensor { height: size, width: size, data };
        proof {
            assert(3 * ((size as int) * size) == (3 as int) * ((size as int) * size));
            assert forall|c2: int, y2: int, x2: int|
                0 <= c2 < 3 && 0 <= y2 < size && 0 <= x2 < size implies #[trigger] t.at(c2, y2, x2)
                == preprocess_val(*self, *img, c2, y2, x2) by {
                let sz = size as int;
                let ti = (c2 * sz + y2) * sz + x2;
                lemma_tensor_index(c2, y2, x2, sz, sz);
                lemma_fundamental_div_mod_converse_div(ti, sz, c2 * sz + y2, x2);
                lemma_fundamental_div_mod_converse_mod(ti, sz, c2 * sz + y2, x2);
                lemma_fundamental_div_mod_converse_div(c2 * sz + y2, sz, c2, y2);
                lemma_fundamental_div_mod_converse_mod(c2 * sz + y2, sz, c2, y2);
            }
        }
        t
    }
}

/// The result of preprocessing a batch: one tensor per image, plus
/// fixed-value placeholder token ids and attention masks for a
/// downstream text-model interface.
pub struct ImageBatchOutput {
    pub image: Vec<NormalizedTensor>,
    pub input_ids: Vec<i64>,
    pub attention_mask: Vec<i64>,
}

/// Relies on rayon: `par_iter().map(..).collect()` over the batch calls
/// the verified `preprocess` on every image and collects the results in
/// input order.
#[verifier::external_body]
fn preprocess_batch_parallel(p: &ImageProcessor, images: &Vec<RasterImage>) -> (r: Vec<
    NormalizedTensor,
>)
    requires
        p.wf(),
        forall|i: int|
            0 <= i < images.len() ==> (#[trigger] images[i]).wf() && images[i].width >= 1
                && images[i].height >= 1,
    ensures
        r.len() == images.len(),
        forall|i: int|
            0 <= i < r.len() ==> (#[trigger] r[i]).wf() && r[i].height == p.image_size
                && r[i].width == p.image_size,
        forall|i: int, c: int, y: int, x: int|
            0 <= i < r.len() && 0 <= c < 3 && 0 <= y < p.image_size && 0 <= x < p.image_size
                ==> #[trigger] r[i].at(c, y, x) == preprocess_val(*p, images[i], c, y, x),
{
    rayon::iter::ParallelIterator::collect(rayon::iter::ParallelIterator::map(
        rayon::iter::IntoParallelRefIterator::par_iter(images),
        |img| p.preprocess(img),
    ))
}

/// Preprocess a batch of images in parallel and attach the placeholder
/// id and mask arrays (all zeros and all ones).
pub fn process_images_in_batch(images: Vec<RasterImage>, processor: &ImageProcessor) -> (r:
    ImageBatchOutput)
    requires
        processor.wf(),
        forall|i: int|
            0 <= i < images.len() ==> (#[trigger] images[i]).wf() && images[i].width >= 1
                && images[i].height >= 1,
    ensures
        r.image.len() == images.len(),
        forall|i: int|
            0 <= i < r.image.len() ==> (#[trigger] r.image[i]).wf() && r.image[i].height
                == processor.image_size && r.image[i].width == processor.image_size,
        forall|i: int, c: int, y: int, x: int|
            0 <= i < r.image.len() && 0 <= c < 3 && 0 <= y < processor.image_size && 0 <= x
                < processor.image_size ==> #[trigger] r.image[i].at(c, y, x) == preprocess_val(
                *processor,
                images[i],
                c,
                y,
                x,
            ),
        r.input_ids.len() == images.len(),
        forall|i: int| 0 <= i < r.input_ids.len() ==> #[trigger] r.input_ids[i] == 0,
        r.attention_mask.len() == images.len(),
        forall|i: int| 0 <= i < r.attention_mask.len() ==> #[trigger] r.attention_mask[i] == 1,
{
    let tensors: Vec<NormalizedTensor> = preprocess_batch_parallel(processor, &images);
    let n: usize = images.len();
    let input_ids: Vec<i64> = crate::matrix::filled(n, 0);
    let attention_mask: Vec<i64> = crate::matrix::filled(n, 1);
    ImageBatchOutput { image: tensors, input_ids, attention_mask }
}

} // verus!
