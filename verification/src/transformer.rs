//! One pre-norm transformer encoder layer: row-wise layer
//! normalization, multi-head self-attention with
//! exponentiate-then-normalize softmax, and a GELU feed-forward block,
//! each wrapped in a residual sum.
//!
//! The specifications work over a matrix viewed as a sequence of rows
//! (`Seq<Seq<i64>>`), so the whole layer's output elements compose from
//! the elements of its parts.

use vstd::prelude::*;
use crate::fixed::{
    tdiv, sat_val, fadd, fmul, exp_spec, gelu_spec, sqrt_floor, exp_fx, gelu_fx, mul_fx, add_fx,
    tdiv64, tdiv128, sat_narrow, mul_wide, isqrt_exact, lemma_tdiv_abs, lemma_tdiv_upper,
    lemma_sqrt_floor_bounds, SCALE, VAL_MAX, DIM_MAX, EXP_CAP,
};
use crate::matrix::{
    TokenMatrix, sdot, mm_at, matmul, matmul_nt, mat_add, add_row_bias, rows_to_matrix, filled,
};
use crate::glu_projection::random_uniform_matrix;

verus! {

/// Why a construction was rejected.
#[derive(Clone, Copy, Debug, PartialEq, Eq, Structural)]
pub enum ShapeError {
    /// The embedding dimension is not a positive multiple of the head
    /// count.
    IndivisibleHeads,
    /// A requested dimension is zero or beyond the supported range.
    DimensionOutOfRange,
}

/// A matrix as the sequence of its rows.
pub open spec fn mat_rows(m: TokenMatrix) -> Seq<Seq<i64>> {
    Seq::new(m.rows as nat, |i: int| m.row_seq(i))
}

/// One matrix-product element over a rows view: dot of row `i` with
/// column `j` of the weight, rescaled and saturated.
pub open spec fn wmm_at(xr: Seq<Seq<i64>>, w: TokenMatrix, i: int, j: int) -> int {
    sat_val(tdiv(sdot(xr[i], w.col_seq(j), w.rows as int), SCALE as int))
}

/// Sum of the first `k` elements of a row.
pub open spec fn seq_sum(s: Seq<i64>, k: int) -> int
    decreases k,
{
    if k <= 0 {
        0
    } else {
        seq_sum(s, k - 1) + s[k - 1]
    }
}

/// Sum of the first `k` squared deviations from `mu`.
pub open spec fn sqdev_sum(s: Seq<i64>, mu: int, k: int) -> int
    decreases k,
{
    if k <= 0 {
        0
    } else {
        sqdev_sum(s, mu, k - 1) + (s[k - 1] - mu) * (s[k - 1] - mu)
    }
}

/// The row mean, truncated.
pub open spec fn ln_mean(row: Seq<i64>) -> int {
    tdiv(seq_sum(row, row.len() as int), row.len() as int)
}

/// The row variance (population, `ddof = 0`), truncated.
pub open spec fn ln_var(row: Seq<i64>) -> int {
    tdiv(sqdev_sum(row, ln_mean(row), row.len() as int), row.len() as int)
}

/// Row-wise layer normalization with learned gain and bias.
pub struct LayerNorm {
    pub epsilon: i64,
    pub gamma: Vec<i64>,
    pub beta: Vec<i64>,
}

/// One normalized element: subtract the row mean, divide by
/// `sqrt(var + epsilon)` (the raw squared deviations carry two scale
/// factors, so adding `epsilon * SCALE` and taking the integer root
/// lands back on one), then scale by the gain and shift by the bias.
pub open spec fn ln_val(ln: LayerNorm, row: Seq<i64>, j: int) -> int {
    let mu = ln_mean(row);
    let denom = sqrt_floor(ln_var(row) + ln.epsilon * (SCALE as int));
    fadd(fmul(sat_val(tdiv((row[j] - mu) * (SCALE as int), denom)), ln.gamma[j] as int), ln.beta[j] as int)
}

impl LayerNorm {
    pub open spec fn dim(self) -> int {
        self.gamma.len() as int
    }

    pub open spec fn wf(self) -> bool {
        &&& 1 <= self.epsilon <= SCALE
        &&& 1 <= self.gamma.len() <= DIM_MAX
        &&& self.beta.len() == self.gamma.len()
        &&& forall|k: int| 0 <= k < self.gamma.len() ==> -VAL_MAX <= #[trigger] self.gamma[k] <= VAL_MAX
        &&& forall|k: int| 0 <= k < self.beta.len() ==> -VAL_MAX <= #[trigger] self.beta[k] <= VAL_MAX
    }

    /// Unit gain, zero bias, and the smallest positive epsilon the
    /// fixed-point scale can hold (about 1.5e-5).
    pub fn new(dim: usize) -> (r: LayerNorm)
        requires
            1 <= dim <= DIM_MAX,
        ensures
            r.wf(),
            r.gamma.len() == dim,
            r.epsilon == 1,
            forall|k: int| 0 <= k < dim ==> #[trigger] r.gamma[k] == SCALE,
            forall|k: int| 0 <= k < dim ==> #[trigger] r.beta[k] == 0,
    {
        LayerNorm { epsilon: 1, gamma: filled(dim, SCALE), beta: filled(dim, 0) }
    }

    /// Normalize every row; element `(i, j)` is pinned to `ln_val` of
    /// row `i`.
    pub fn forward(&self, x: &TokenMatrix) -> (r: TokenMatrix)
        requires
            self.wf(),
            x.wf(),
            x.cols == self.gamma.len(),
        ensures
            r.wf(),
            r.rows == x.rows,
            r.cols == x.cols,
            forall|i: int, j: int|
                0 <= i < x.rows && 0 <= j < x.cols ==> #[trigger] r.at(i, j) == ln_val(
                    *self,
                    x.row_seq(i),
                    j,
                ),
    {
        let mut rows: Vec<Vec<i64>> = Vec::new();
        let mut i: usize = 0;
        while i < x.rows
            invariant
                self.wf(),
                x.wf(),
                x.cols == self.gamma.len(),
                i <= x.rows,
                rows.len() == i,
                forall|p: int| 0 <= p < i ==> (#[trigger] rows[p]).len() == x.cols,
                forall|p: int, j: int|
                    0 <= p < i && 0 <= j < x.cols ==> #[trigger] rows[p][j] as int == ln_val(
                        *self,
                        x.row_seq(p),
                        j,
                    ),
                forall|p: int, j: int|
                    0 <= p < i && 0 <= j < x.cols ==> -VAL_MAX <= #[trigger] rows[p][j] <= VAL_MAX,
            decreases x.rows - i,
        {
            let row: Vec<i64> = x.row(i);
            let out_row: Vec<i64> = ln_row(self, &row);
            rows.push(out_row);
            i = i + 1;
        }
        let r: TokenMatrix = rows_to_matrix(rows, x.cols);
        r
    }
}

/// Normalize one row.
fn ln_row(ln: &LayerNorm, row: &Vec<i64>) -> (r: Vec<i64>)
    requires
        ln.wf(),
        row.len() == ln.gamma.len(),
        forall|k: int| 0 <= k < row.len() ==> -VAL_MAX <= #[trigger] row[k] <= VAL_MAX,
    ensures
        r.len() == row.len(),
        forall|j: int| 0 <= j < row.len() ==> #[trigger] r[j] as int == ln_val(*ln, row@, j),
        forall|j: int| 0 <= j < row.len() ==> -VAL_MAX <= #[trigger] r[j] <= VAL_MAX,
{
    let d: usize = row.len();
    let ghost vmax: int = VAL_MAX as int;
    let mut acc: i128 = 0;
    let mut k: usize = 0;
    while k < d
        invariant
            d == row.len(),
            forall|t: int| 0 <= t < row.len() ==> -VAL_MAX <= #[trigger] row[t] <= VAL_MAX,
            k <= d,
            d <= DIM_MAX,
            acc as int == seq_sum(row@, k as int),
            -((k as int) * vmax) <= acc as int <= (k as int) * vmax,
            vmax == VAL_MAX as int,
        decreases d - k,
    {
        proof {
            assert((k as int) * vmax + vmax == (k as int + 1) * vmax) by (nonlinear_arith);
            assert((k as int + 1) * vmax <= (DIM_MAX as int) * vmax) by (nonlinear_arith)
                requires
                    k as int + 1 <= DIM_MAX as int,
                    0 <= vmax,
            ;
        }
        acc = acc + (row[k] as i128);
        k = k + 1;
    }
    proof {
        lemma_tdiv_abs(acc as int, d as int, (d as int) * vmax);
        vstd::arithmetic::div_mod::lemma_div_multiples_vanish(vmax, d as int);
        assert(tdiv((d as int) * vmax, d as int) == vmax);
    }
    let mean128: i128 = tdiv128(acc, d as i128);
    let mean: i64 = mean128 as i64;
    assert(-VAL_MAX <= mean <= VAL_MAX);
    assert(mean as int == ln_mean(row@));
    let ghost vm4: int = 4 * ((VAL_MAX as int) * (VAL_MAX as int));
    let mut acc2: i128 = 0;
    let mut k2: usize = 0;
    while k2 < d
        invariant
            d == row.len(),
            forall|t: int| 0 <= t < row.len() ==> -VAL_MAX <= #[trigger] row[t] <= VAL_MAX,
            k2 <= d,
            d <= DIM_MAX,
            -VAL_MAX <= mean <= VAL_MAX,
            acc2 as int == sqdev_sum(row@, mean as int, k2 as int),
            0 <= acc2 as int <= (k2 as int) * vm4,
            vm4 == 4 * ((VAL_MAX as int) * (VAL_MAX as int)),
        decreases d - k2,
    {
        let dv: i64 = row[k2] - mean;
        let sq: i128 = mul_wide(dv, dv);
        proof {
            assert(0 <= (dv as int) * (dv as int) <= vm4) by (nonlinear_arith)
                requires
                    -2 * (VAL_MAX as int) <= dv as int <= 2 * (VAL_MAX as int),
                    vm4 == 4 * ((VAL_MAX as int) * (VAL_MAX as int)),
            ;
            assert((k2 as int) * vm4 + vm4 == (k2 as int + 1) * vm4) by (nonlinear_arith);
            assert((k2 as int + 1) * vm4 <= (DIM_MAX as int) * vm4) by (nonlinear_arith)
                requires
                    k2 as int + 1 <= DIM_MAX as int,
                    0 <= vm4,
            ;
            assert((DIM_MAX as int) * (4 * ((VAL_MAX as int) * (VAL_MAX as int)))
                < 85070591730234615865843651857942052864) by (nonlinear_arith);
        }
        acc2 = acc2 + sq;
        k2 = k2 + 1;
    }
    proof {
        assert((d as int) * vm4 <= (DIM_MAX as int) * vm4) by (nonlinear_arith)
            requires
                d as int <= DIM_MAX as int,
                0 <= vm4,
        ;
        assert((DIM_MAX as int) * (4 * ((VAL_MAX as int) * (VAL_MAX as int)))
            < 85070591730234615865843651857942052864) by (nonlinear_arith);
        lemma_tdiv_upper(acc2 as int, d as int, vm4);
    }
    let var128: i128 = tdiv128(acc2, d as i128);
    assert(var128 as int == ln_var(row@));
    assert(0 <= var128 as int <= vm4);
    let xq: i128 = var128 + (ln.epsilon as i128) * (SCALE as i128);
    let xu: u128 = xq as u128;
    let denom128: u128 = isqrt_exact(xu);
    proof {
        lemma_sqrt_floor_bounds(xu as int);
        let dn = denom128 as int;
        assert(dn >= 1 && dn <= 36028797018963968) by (nonlinear_arith)
            requires
                dn >= 0,
                dn * dn <= xu as int,
                (xu as int) < (dn + 1) * (dn + 1),
                65536 <= xu as int,
                xu as int <= 19807040628566084402680987648i128 as int,
        ;
    }
    let denom: i64 = denom128 as i64;
    let mut out: Vec<i64> = Vec::new();
    let mut j: usize = 0;
    while j < d
        invariant
            d == row.len(),
            ln.wf(),
            row.len() == ln.gamma.len(),
            forall|t: int| 0 <= t < row.len() ==> -VAL_MAX <= #[trigger] row[t] <= VAL_MAX,
            j <= d,
            -VAL_MAX <= mean <= VAL_MAX,
            mean as int == ln_mean(row@),
            1 <= denom,
            denom as int == sqrt_floor(ln_var(row@) + ln.epsilon * (SCALE as int)),
            out.len() == j,
            forall|t: int| 0 <= t < j ==> #[trigger] out[t] as int == ln_val(*ln, row@, t),
            forall|t: int| 0 <= t < j ==> -VAL_MAX <= #[trigger] out[t] <= VAL_MAX,
        decreases d - j,
    {
        let dv: i64 = row[j] - mean;
        let nv: i64 = sat_narrow(tdiv128(mul_wide(dv, SCALE), denom as i128));
        let v: i64 = add_fx(mul_fx(nv, ln.gamma[j]), ln.beta[j]);
        out.push(v);
        j = j + 1;
    }
    out
}

/// The scaled attention score for query row `i` against key row `t`:
/// the rescaled dot product divided by `sqrt(head_dim)` in fixed point.
pub open spec fn attn_score(qr: Seq<Seq<i64>>, kr: Seq<Seq<i64>>, hd: int, i: int, t: int) -> int {
    let raw = sat_val(tdiv(sdot(qr[i], kr[t], hd), SCALE as int));
    sat_val(tdiv(raw * (SCALE as int), sqrt_floor(hd * ((SCALE as int) * (SCALE as int)))))
}

/// The unnormalized attention weight: the fixed-point exponential of the
/// scaled score.
pub open spec fn attn_w(qr: Seq<Seq<i64>>, kr: Seq<Seq<i64>>, hd: int, i: int, t: int) -> int {
    exp_spec(attn_score(qr, kr, hd, i, t))
}

/// Sum of the first `t` attention weights of row `i`.
pub open spec fn attn_wsum(qr: Seq<Seq<i64>>, kr: Seq<Seq<i64>>, hd: int, i: int, t: int) -> int
    decreases t,
{
    if t <= 0 {
        0
    } else {
        attn_wsum(qr, kr, hd, i, t - 1) + attn_w(qr, kr, hd, i, t - 1)
    }
}

/// The softmax weight: the exponential normalized by the row sum, or
/// left unnormalized when the whole row rounded to zero.
pub open spec fn attn_prob(
    qr: Seq<Seq<i64>>,
    kr: Seq<Seq<i64>>,
    hd: int,
    n: int,
    i: int,
    t: int,
) -> int {
    let s = attn_wsum(qr, kr, hd, i, n);
    if s > 0 {
        tdiv(attn_w(qr, kr, hd, i, t) * (SCALE as int), s)
    } else {
        attn_w(qr, kr, hd, i, t)
    }
}

/// One attention output element: the softmax-weighted combination of
/// column `j` of the value rows.
pub open spec fn attn_val(
    qr: Seq<Seq<i64>>,
    kr: Seq<Seq<i64>>,
    vr: Seq<Seq<i64>>,
    hd: int,
    n: int,
    i: int,
    j: int,
) -> int {
    let probs = Seq::new(n as nat, |t: int| attn_prob(qr, kr, hd, n, i, t) as i64);
    let vals = Seq::new(n as nat, |t: int| vr[t][j]);
    sat_val(tdiv(sdot(probs, vals, n), SCALE as int))
}

/// Scaled dot-product attention with exponentiate-then-normalize
/// softmax; every output element is pinned to `attn_val` over the row
/// views of the arguments.
pub fn scaled_dot_product_attention(q: &TokenMatrix, k: &TokenMatrix, v: &TokenMatrix) -> (r:
    TokenMatrix)
    requires
        q.wf(),
        k.wf(),
        v.wf(),
        q.cols == k.cols,
        1 <= q.cols,
        k.rows == v.rows,
    ensures
        r.wf(),
        r.rows == q.rows,
        r.cols == v.cols,
        forall|i: int, j: int|
            0 <= i < q.rows && 0 <= j < v.cols ==> #[trigger] r.at(i, j) == attn_val(
                mat_rows(*q),
                mat_rows(*k),
                mat_rows(*v),
                q.cols as int,
                k.rows as int,
                i,
                j,
            ),
{
    let n: usize = k.rows;
    let hd: usize = q.cols;
    let scores: TokenMatrix = matmul_nt(q, k);
    proof {
        assert((hd as int) * ((SCALE as int) * (SCALE as int)) <= 32768 * ((SCALE as int) * (
        SCALE as int)) && (hd as int) * ((SCALE as int) * (SCALE as int)) >= (SCALE as int) * (
        SCALE as int)) by (nonlinear_arith)
            requires
                1 <= hd as int <= 32768,
        ;
    }
    let sq_arg: u128 = (hd as u128) * ((SCALE as u128) * (SCALE as u128));
    let denom128: u128 = isqrt_exact(sq_arg);
    proof {
        lemma_sqrt_floor_bounds(sq_arg as int);
        let dn = denom128 as int;
        assert(dn >= SCALE && dn <= 16777216) by (nonlinear_arith)
            requires
                dn >= 0,
                dn * dn <= sq_arg as int,
                (sq_arg as int) < (dn + 1) * (dn + 1),
                (SCALE as int) * (SCALE as int) <= sq_arg as int,
                sq_arg as int <= 32768 * ((SCALE as int) * (SCALE as int)),
        ;
    }
    let denom: i64 = denom128 as i64;
    let mut w: TokenMatrix = TokenMatrix::zeros(q.rows, n);
    let mut i: usize = 0;
    while i < q.rows
        invariant
            q.wf(),
            k.wf(),
            v.wf(),
            q.cols == k.cols,
            1 <= q.cols,
            k.rows == v.rows,
            n == k.rows,
            hd == q.cols,
            scores.wf(),
            scores.rows == q.rows,
            scores.cols == n,
            forall|i2: int, t2: int|
                0 <= i2 < q.rows && 0 <= t2 < n ==> #[trigger] scores.at(i2, t2) == crate::matrix::mm_nt_at(
                    *q,
                    *k,
                    i2,
                    t2,
                ),
            1 <= denom,
            denom as int == sqrt_floor((hd as int) * ((SCALE as int) * (SCALE as int))),
            w.wf(),
            w.rows == q.rows,
            w.cols == n,
            i <= q.rows,
            forall|i2: int, t2: int|
                0 <= i2 < i && 0 <= t2 < n ==> #[trigger] w.at(i2, t2) == attn_w(
                    mat_rows(*q),
                    mat_rows(*k),
                    hd as int,
                    i2,
                    t2,
                ),
            forall|i2: int, t2: int|
                0 <= i2 < i && 0 <= t2 < n ==> 0 <= #[trigger] w.at(i2, t2) <= EXP_CAP,
        decreases q.rows - i,
    {
        let mut t: usize = 0;
        while t < n
            invariant
                q.wf(),
                k.wf(),
                v.wf(),
                q.cols == k.cols,
                1 <= q.cols,
                k.rows == v.rows,
                n == k.rows,
                hd == q.cols,
                scores.wf(),
                scores.rows == q.rows,
                scores.cols == n,
                forall|i2: int, t2: int|
                    0 <= i2 < q.rows && 0 <= t2 < n ==> #[trigger] scores.at(i2, t2) == crate::matrix::mm_nt_at(
                        *q,
                        *k,
                        i2,
                        t2,
                    ),
                1 <= denom,
                denom as int == sqrt_floor((hd as int) * ((SCALE as int) * (SCALE as int))),
                w.wf(),
                w.rows == q.rows,
                w.cols == n,
                i < q.rows,
                t <= n,
                forall|i2: int, t2: int|
                    0 <= i2 < i && 0 <= t2 < n ==> #[trigger] w.at(i2, t2) == attn_w(
                        mat_rows(*q),
                        mat_rows(*k),
                        hd as int,
                        i2,
                        t2,
                    ),
                forall|i2: int, t2: int|
                    0 <= i2 < i && 0 <= t2 < n ==> 0 <= #[trigger] w.at(i2, t2) <= EXP_CAP,
                forall|t2: int|
                    0 <= t2 < t ==> #[trigger] w.at(i as int, t2) == attn_w(
                        mat_rows(*q),
                        mat_rows(*k),
                        hd as int,
                        i as int,
                        t2,
                    ),
                forall|t2: int| 0 <= t2 < t ==> 0 <= #[trigger] w.at(i as int, t2) <= EXP_CAP,
            decreases n - t,
        {
            let sc: i64 = sat_narrow(tdiv128(mul_wide(scores.get(i, t), SCALE), denom as i128));
            let wv: i64 = exp_fx(sc);
            proof {
                assert(mat_rows(*q)[i as int] == q.row_seq(i as int));
                assert(mat_rows(*k)[t as int] == k.row_seq(t as int));
            }
            w.set(i, t, wv);
            t = t + 1;
        }
        i = i + 1;
    }
    let p: TokenMatrix = attn_normalize(&w, Ghost(*q), Ghost(*k), Ghost(hd as int));
    let r: TokenMatrix = matmul(&p, v);
    proof {
        assert forall|i2: int, j2: int|
            0 <= i2 < q.rows && 0 <= j2 < v.cols implies #[trigger] r.at(i2, j2) == attn_val(
            mat_rows(*q),
            mat_rows(*k),
            mat_rows(*v),
            hd as int,
            n as int,
            i2,
            j2,
        ) by {
            let qr = mat_rows(*q);
            let kr = mat_rows(*k);
            let vr = mat_rows(*v);
            let probs = Seq::new(n as nat, |t: int| attn_prob(qr, kr, hd as int, n as int, i2, t) as i64);
            let vals = Seq::new(n as nat, |t: int| vr[t][j2]);
            assert(p.row_seq(i2) =~= probs) by {
                assert forall|t: int| 0 <= t < n implies p.row_seq(i2)[t] == probs[t] by {
                    assert(p.row_seq(i2)[t] as int == p.at(i2, t));
                }
            }
            assert(v.col_seq(j2) =~= vals) by {
                assert forall|t: int| 0 <= t < n implies v.col_seq(j2)[t] == vals[t] by {
                    assert(v.col_seq(j2)[t] == v.row_seq(t)[j2]);
                    assert(vr[t] == v.row_seq(t));
                }
            }
        }
    }
    r
}

/// Normalize each weight row by its sum (exponentiate-then-normalize
/// softmax), leaving an all-zero row unnormalized.
fn attn_normalize(w: &TokenMatrix, q: Ghost<TokenMatrix>, k: Ghost<TokenMatrix>, hd: Ghost<int>) -> (p: TokenMatrix)
    requires
        w.wf(),
        forall|i: int, t: int|
            0 <= i < w.rows && 0 <= t < w.cols ==> #[trigger] w.at(i, t) == attn_w(
                mat_rows(q@),
                mat_rows(k@),
                hd@,
                i,
                t,
            ),
        forall|i: int, t: int| 0 <= i < w.rows && 0 <= t < w.cols ==> 0 <= #[trigger] w.at(i, t) <= EXP_CAP,
    ensures
        p.wf(),
        p.rows == w.rows,
        p.cols == w.cols,
        forall|i: int, t: int|
            0 <= i < w.rows && 0 <= t < w.cols ==> #[trigger] p.at(i, t) == attn_prob(
                mat_rows(q@),
                mat_rows(k@),
                hd@,
                w.cols as int,
                i,
                t,
            ),
        forall|i: int, t: int| 0 <= i < w.rows && 0 <= t < w.cols ==> 0 <= #[trigger] p.at(i, t),
{
    let n: usize = w.cols;
    let mut p: TokenMatrix = TokenMatrix::zeros(w.rows, n);
    let mut i: usize = 0;
    while i < w.rows
        invariant
            w.wf(),
            forall|i2: int, t2: int|
                0 <= i2 < w.rows && 0 <= t2 < w.cols ==> #[trigger] w.at(i2, t2) == attn_w(
                    mat_rows(q@),
                    mat_rows(k@),
                    hd@,
                    i2,
                    t2,
                ),
            forall|i2: int, t2: int|
                0 <= i2 < w.rows && 0 <= t2 < w.cols ==> 0 <= #[trigger] w.at(i2, t2) <= EXP_CAP,
            n == w.cols,
            p.wf(),
            p.rows == w.rows,
            p.cols == n,
            i <= w.rows,
            forall|i2: int, t2: int|
                0 <= i2 < i && 0 <= t2 < n ==> #[trigger] p.at(i2, t2) == attn_prob(
                    mat_rows(q@),
                    mat_rows(k@),
                    hd@,
                    n as int,
                    i2,
                    t2,
                ),
            forall|i2: int, t2: int| 0 <= i2 < i && 0 <= t2 < n ==> 0 <= #[trigger] p.at(i2, t2),
        decreases w.rows - i,
    {
        let ghost ecap: int = EXP_CAP as int;
        let mut sum: i64 = 0;
        let mut t: usize = 0;
        while t < n
            invariant
                w.wf(),
                forall|i2: int, t2: int|
                    0 <= i2 < w.rows && 0 <= t2 < w.cols ==> #[trigger] w.at(i2, t2) == attn_w(
                        mat_rows(q@),
                        mat_rows(k@),
                        hd@,
                        i2,
                        t2,
                    ),
                forall|i2: int, t2: int|
                    0 <= i2 < w.rows && 0 <= t2 < w.cols ==> 0 <= #[trigger] w.at(i2, t2)
                        <= EXP_CAP,
                n == w.cols,
                i < w.rows,
                t <= n,
                sum as int == attn_wsum(mat_rows(q@), mat_rows(k@), hd@, i as int, t as int),
                0 <= sum as int <= (t as int) * ecap,
                ecap == EXP_CAP as int,
            decreases n - t,
        {
            proof {
                assert((t as int) * ecap + ecap == (t as int + 1) * ecap) by (nonlinear_arith);
                assert((t as int + 1) * ecap <= (DIM_MAX as int) * ecap) by (nonlinear_arith)
                    requires
                        t as int + 1 <= DIM_MAX as int,
                        0 <= ecap,
                ;
            }
            sum = sum + w.get(i, t);
            t = t + 1;
        }
        let mut t2e: usize = 0;
        while t2e < n
            invariant
                w.wf(),
                forall|i2: int, t2: int|
                    0 <= i2 < w.rows && 0 <= t2 < w.cols ==> #[trigger] w.at(i2, t2) == attn_w(
                        mat_rows(q@),
                        mat_rows(k@),
                        hd@,
                        i2,
                        t2,
                    ),
                forall|i2: int, t2: int|
                    0 <= i2 < w.rows && 0 <= t2 < w.cols ==> 0 <= #[trigger] w.at(i2, t2)
                        <= EXP_CAP,
                n == w.cols,
                p.wf(),
                p.rows == w.rows,
                p.cols == n,
                i < w.rows,
                t2e <= n,
                sum as int == attn_wsum(mat_rows(q@), mat_rows(k@), hd@, i as int, n as int),
                0 <= sum,
                forall|i2: int, t2: int|
                    0 <= i2 < i && 0 <= t2 < n ==> #[trigger] p.at(i2, t2) == attn_prob(
                        mat_rows(q@),
                        mat_rows(k@),
                        hd@,
                        n as int,
                        i2,
                        t2,
                    ),
                forall|i2: int, t2: int|
                    0 <= i2 < i && 0 <= t2 < n ==> 0 <= #[trigger] p.at(i2, t2),
                forall|t3: int|
                    0 <= t3 < t2e ==> #[trigger] p.at(i as int, t3) == attn_prob(
                        mat_rows(q@),
                        mat_rows(k@),
                        hd@,
                        n as int,
                        i as int,
                        t3,
                    ),
                forall|t3: int| 0 <= t3 < t2e ==> 0 <= #[trigger] p.at(i as int, t3),
            decreases n - t2e,
        {
            let wv: i64 = w.get(i, t2e);
            let pv: i64 = if sum > 0 {
                proof {
                    crate::fixed::lemma_tdiv_bounds((wv as int) * (SCALE as int), sum as int);
                }
                tdiv64(wv * SCALE, sum)
            } else {
                wv
            };
            p.set(i, t2e, pv);
            t2e = t2e + 1;
        }
        i = i + 1;
    }
    p
}

/// Multi-head self-attention: three independent projections, per-head
/// scaled dot-product attention over equal column slices, concatenation,
/// and an output projection.
pub struct MultiHeadAttention {
    pub num_heads: usize,
    pub head_dim: usize,
    pub wq: TokenMatrix,
    pub wk: TokenMatrix,
    pub wv: TokenMatrix,
    pub wo: TokenMatrix,
}

/// The rows view of one head's slice of a projected matrix: row `i`
/// holds columns `h*hd .. (h+1)*hd` of `x * w`.
pub open spec fn head_rows(xr: Seq<Seq<i64>>, w: TokenMatrix, h: int, hd: int) -> Seq<Seq<i64>> {
    Seq::new(xr.len(), |i: int| Seq::new(hd as nat, |jj: int| wmm_at(xr, w, i, h * hd + jj) as i64))
}

/// One element of the concatenated head outputs: head `d / hd`, its
/// column `d % hd`.
pub open spec fn mha_concat_at(m: MultiHeadAttention, xr: Seq<Seq<i64>>, i: int, d: int) -> int {
    let hd = m.head_dim as int;
    let h = d / hd;
    let jj = d % hd;
    attn_val(
        head_rows(xr, m.wq, h, hd),
        head_rows(xr, m.wk, h, hd),
        head_rows(xr, m.wv, h, hd),
        hd,
        xr.len() as int,
        i,
        jj,
    )
}

/// One element of the attention block's output: the concatenated head
/// outputs projected through the output weight.
pub open spec fn mha_val(m: MultiHeadAttention, xr: Seq<Seq<i64>>, i: int, j: int) -> int {
    let dim = m.wo.rows as int;
    let concat = Seq::new(dim as nat, |d: int| mha_concat_at(m, xr, i, d) as i64);
    sat_val(tdiv(sdot(concat, m.wo.col_seq(j), dim), SCALE as int))
}

impl MultiHeadAttention {
    pub open spec fn embed_dim(self) -> int {
        self.wq.rows as int
    }

    pub open spec fn wf(self) -> bool {
        &&& 1 <= self.num_heads
        &&& 1 <= self.head_dim
        &&& self.num_heads * self.head_dim == self.wq.rows
        &&& self.wq.rows <= DIM_MAX
        &&& self.wq.wf() && self.wq.cols == self.wq.rows
        &&& self.wk.wf() && self.wk.rows == self.wq.rows && self.wk.cols == self.wq.rows
        &&& self.wv.wf() && self.wv.rows == self.wq.rows && self.wv.cols == self.wq.rows
        &&& self.wo.wf() && self.wo.rows == self.wq.rows && self.wo.cols == self.wq.rows
    }

    /// Four uniform random projections.  `Err(IndivisibleHeads)` exactly
    /// when the embedding dimension is not a positive multiple of the
    /// head count; `Err(DimensionOutOfRange)` exactly when it is zero or
    /// too large.
    pub fn new(embed_dim: usize, num_heads: usize) -> (r: Result<MultiHeadAttention, ShapeError>)
        ensures
            r is Ok <==> 1 <= embed_dim <= DIM_MAX && 1 <= num_heads && embed_dim % num_heads
                == 0,
            r is Ok ==> {
                let m = r->Ok_0;
                m.wf() && m.num_heads == num_heads && m.wq.rows == embed_dim && m.head_dim
                    == embed_dim / num_heads
            },
            r == Err::<MultiHeadAttention, ShapeError>(ShapeError::DimensionOutOfRange) <==> !(1
                <= embed_dim <= DIM_MAX),
            r == Err::<MultiHeadAttention, ShapeError>(ShapeError::IndivisibleHeads) <==> (1
                <= embed_dim <= DIM_MAX) && !(1 <= num_heads && embed_dim % num_heads == 0),
    {
        if embed_dim < 1 || embed_dim > DIM_MAX {
            return Err(ShapeError::DimensionOutOfRange);
        }
        if num_heads < 1 || embed_dim % num_heads != 0 {
            return Err(ShapeError::IndivisibleHeads);
        }
        let head_dim: usize = embed_dim / num_heads;
        proof {
            vstd::arithmetic::div_mod::lemma_fundamental_div_mod(embed_dim as int, num_heads as int);
            assert(head_dim as int >= 1) by (nonlinear_arith)
                requires
                    embed_dim as int == (num_heads as int) * (head_dim as int) + 0,
                    embed_dim as int >= 1,
                    head_dim as int >= 0,
                    num_heads as int >= 1,
            ;
        }
        Ok(
            MultiHeadAttention {
                num_heads,
                head_dim,
                wq: random_uniform_matrix(embed_dim, embed_dim, 6554),
                wk: random_uniform_matrix(embed_dim, embed_dim, 6554),
                wv: random_uniform_matrix(embed_dim, embed_dim, 6554),
                wo: random_uniform_matrix(embed_dim, embed_dim, 6554),
            },
        )
    }

    /// The attention block; element `(i, j)` is pinned to `mha_val`
    /// over the rows view of the input.
    pub fn forward(&self, x: &TokenMatrix) -> (r: TokenMatrix)
        requires
            self.wf(),
            x.wf(),
            x.cols == self.wq.rows,
        ensures
            r.wf(),
            r.rows == x.rows,
            r.cols == self.wq.rows,
            forall|i: int, j: int|
                0 <= i < x.rows && 0 <= j < self.wq.rows ==> #[trigger] r.at(i, j) == mha_val(
                    *self,
                    mat_rows(*x),
                    i,
                    j,
                ),
    {
        let dim: usize = self.wq.rows;
        let hd: usize = self.head_dim;
        let q: TokenMatrix = matmul(x, &self.wq);
        let k: TokenMatrix = matmul(x, &self.wk);
        let v: TokenMatrix = matmul(x, &self.wv);
        let mut concat: TokenMatrix = TokenMatrix::zeros(x.rows, dim);
        let mut h: usize = 0;
        while h < self.num_heads
            invariant
                self.wf(),
                x.wf(),
                x.cols == self.wq.rows,
                dim == self.wq.rows,
                hd == self.head_dim,
                q.wf() && q.rows == x.rows && q.cols == dim,
                k.wf() && k.rows == x.rows && k.cols == dim,
                v.wf() && v.rows == x.rows && v.cols == dim,
                forall|i2: int, j2: int|
                    0 <= i2 < x.rows && 0 <= j2 < dim ==> #[trigger] q.at(i2, j2) == mm_at(
                        *x,
                        self.wq,
                        i2,
                        j2,
                    ),
                forall|i2: int, j2: int|
                    0 <= i2 < x.rows && 0 <= j2 < dim ==> #[trigger] k.at(i2, j2) == mm_at(
                        *x,
                        self.wk,
                        i2,
                        j2,
                    ),
                forall|i2: int, j2: int|
                    0 <= i2 < x.rows && 0 <= j2 < dim ==> #[trigger] v.at(i2, j2) == mm_at(
                        *x,
                        self.wv,
                        i2,
                        j2,
                    ),
                concat.wf(),
                concat.rows == x.rows,
                concat.cols == dim,
                h <= self.num_heads,
                forall|i2: int, d2: int|
                    0 <= i2 < x.rows && 0 <= d2 < h * hd ==> #[trigger] concat.at(i2, d2)
                        == mha_concat_at(*self, mat_rows(*x), i2, d2),
            decreases self.num_heads - h,
        {
            proof {
                assert((h as int + 1) * (hd as int) <= (self.num_heads as int) * (hd as int))
                    by (nonlinear_arith)
                    requires
                        h as int + 1 <= self.num_heads as int,
                        0 <= hd as int,
                ;
                assert((h as int) * (hd as int) + hd as int == (h as int + 1) * (hd as int))
                    by (nonlinear_arith);
                assert(0 <= (h as int) * (hd as int)) by (nonlinear_arith)
                    requires
                        0 <= h as int,
                        0 <= hd as int,
                ;
            }
            let lo: usize = h * hd;
            let qh: TokenMatrix = col_slice(&q, lo, hd);
            let kh: TokenMatrix = col_slice(&k, lo, hd);
            let vh: TokenMatrix = col_slice(&v, lo, hd);
            let ah: TokenMatrix = scaled_dot_product_attention(&qh, &kh, &vh);
            proof {
                let xr = mat_rows(*x);
                assert(mat_rows(qh) =~~= head_rows(xr, self.wq, h as int, hd as int)) by {
                    assert forall|i2: int| 0 <= i2 < x.rows implies mat_rows(qh)[i2] =~= head_rows(
                        xr,
                        self.wq,
                        h as int,
                        hd as int,
                    )[i2] by {
                        assert forall|jj: int| 0 <= jj < hd implies mat_rows(qh)[i2][jj]
                            == head_rows(xr, self.wq, h as int, hd as int)[i2][jj] by {
                            assert(qh.row_seq(i2)[jj] as int == qh.at(i2, jj));
                            assert(xr[i2] == x.row_seq(i2));
                        }
                    }
                }
                assert(mat_rows(kh) =~~= head_rows(xr, self.wk, h as int, hd as int)) by {
                    assert forall|i2: int| 0 <= i2 < x.rows implies mat_rows(kh)[i2] =~= head_rows(
                        xr,
                        self.wk,
                        h as int,
                        hd as int,
                    )[i2] by {
                        assert forall|jj: int| 0 <= jj < hd implies mat_rows(kh)[i2][jj]
                            == head_rows(xr, self.wk, h as int, hd as int)[i2][jj] by {
                            assert(kh.row_seq(i2)[jj] as int == kh.at(i2, jj));
                            assert(xr[i2] == x.row_seq(i2));
                        }
                    }
                }
                assert(mat_rows(vh) =~~= head_rows(xr, self.wv, h as int, hd as int)) by {
                    assert forall|i2: int| 0 <= i2 < x.rows implies mat_rows(vh)[i2] =~= head_rows(
                        xr,
                        self.wv,
                        h as int,
                        hd as int,
                    )[i2] by {
                        assert forall|jj: int| 0 <= jj < hd implies mat_rows(vh)[i2][jj]
                            == head_rows(xr, self.wv, h as int, hd as int)[i2][jj] by {
                            assert(vh.row_seq(i2)[jj] as int == vh.at(i2, jj));
                            assert(xr[i2] == x.row_seq(i2));
                        }
                    }
                }
            }
            let mut i: usize = 0;
            while i < x.rows
                invariant
                    self.wf(),
                    x.wf(),
                    x.cols == self.wq.rows,
                    dim == self.wq.rows,
                    hd == self.head_dim,
                    h < self.num_heads,
                    lo == h * hd,
                    lo + hd <= dim,
                    ah.wf(),
                    ah.rows == x.rows,
                    ah.cols == hd,
                    forall|i2: int, jj: int|
                        0 <= i2 < x.rows && 0 <= jj < hd ==> #[trigger] ah.at(i2, jj) == attn_val(
                            head_rows(mat_rows(*x), self.wq, h as int, hd as int),
                            head_rows(mat_rows(*x), self.wk, h as int, hd as int),
                            head_rows(mat_rows(*x), self.wv, h as int, hd as int),
                            hd as int,
                            x.rows as int,
                            i2,
                            jj,
                        ),
                    concat.wf(),
                    concat.rows == x.rows,
                    concat.cols == dim,
                    i <= x.rows,
                    forall|i2: int, d2: int|
                        0 <= i2 < x.rows && 0 <= d2 < h * hd ==> #[trigger] concat.at(i2, d2)
                            == mha_concat_at(*self, mat_rows(*x), i2, d2),
                    forall|i2: int, jj: int|
                        0 <= i2 < i && 0 <= jj < hd ==> #[trigger] concat.at(i2, lo + jj)
                            == mha_concat_at(*self, mat_rows(*x), i2, lo + jj),
                decreases x.rows - i,
            {
                let mut jj: usize = 0;
                while jj < hd
                    invariant
                        self.wf(),
                        x.wf(),
                        x.cols == self.wq.rows,
                        dim == self.wq.rows,
                        hd == self.head_dim,
                        h < self.num_heads,
                        lo == h * hd,
                        lo + hd <= dim,
                        ah.wf(),
                        ah.rows == x.rows,
                        ah.cols == hd,
                        forall|i2: int, j3: int|
                            0 <= i2 < x.rows && 0 <= j3 < hd ==> #[trigger] ah.at(i2, j3)
                                == attn_val(
                                head_rows(mat_rows(*x), self.wq, h as int, hd as int),
                                head_rows(mat_rows(*x), self.wk, h as int, hd as int),
                                head_rows(mat_rows(*x), self.wv, h as int, hd as int),
                                hd as int,
                                x.rows as int,
                                i2,
                                j3,
                            ),
                        concat.wf(),
                        concat.rows == x.rows,
                        concat.cols == dim,
                        i < x.rows,
                        jj <= hd,
                        forall|i2: int, d2: int|
                            0 <= i2 < x.rows && 0 <= d2 < h * hd ==> #[trigger] concat.at(i2, d2)
                                == mha_concat_at(*self, mat_rows(*x), i2, d2),
                        forall|i2: int, j3: int|
                            0 <= i2 < i && 0 <= j3 < hd ==> #[trigger] concat.at(i2, lo + j3)
                                == mha_concat_at(*self, mat_rows(*x), i2, lo + j3),
                        forall|j3: int|
                            0 <= j3 < jj ==> #[trigger] concat.at(i as int, lo + j3)
                                == mha_concat_at(*self, mat_rows(*x), i as int, lo + j3),
                    decreases hd - jj,
                {
                    let av: i64 = ah.get(i, jj);
                    proof {
                        vstd::arithmetic::div_mod::lemma_fundamental_div_mod_converse_div(
                            (h as int) * (hd as int) + jj,
                            hd as int,
                            h as int,
                            jj as int,
                        );
                        vstd::arithmetic::div_mod::lemma_fundamental_div_mod_converse_mod(
                            (h as int) * (hd as int) + jj,
                            hd as int,
                            h as int,
                            jj as int,
                        );
                    }
                    concat.set(i, lo + jj, av);
                    jj = jj + 1;
                }
                i = i + 1;
            }
            proof {
                assert forall|i2: int, d2: int|
                    0 <= i2 < x.rows && 0 <= d2 < (h as int + 1) * (hd as int) implies #[trigger] concat.at(
                    i2,
                    d2,
                ) == mha_concat_at(*self, mat_rows(*x), i2, d2) by {
                    assert((h as int) * (hd as int) + hd as int == (h as int + 1) * (hd as int))
                        by (nonlinear_arith);
                    if d2 >= h * hd {
                        assert(concat.at(i2, (h as int) * (hd as int) + (d2 - (h as int) * (
                        hd as int))) == mha_concat_at(
                            *self,
                            mat_rows(*x),
                            i2,
                            (h as int) * (hd as int) + (d2 - (h as int) * (hd as int)),
                        ));
                    }
                }
            }
            h = h + 1;
        }
        proof {
            assert((self.num_heads as int) * (self.head_dim as int) == self.wq.rows as int);
        }
        let r: TokenMatrix = matmul(&concat, &self.wo);
        proof {
            assert forall|i2: int, j2: int|
                0 <= i2 < x.rows && 0 <= j2 < dim implies #[trigger] r.at(i2, j2) == mha_val(
                *self,
                mat_rows(*x),
                i2,
                j2,
            ) by {
                let cseq = Seq::new(dim as nat, |d: int| mha_concat_at(*self, mat_rows(*x), i2, d) as i64);
                assert(concat.row_seq(i2) =~= cseq) by {
                    assert forall|d: int| 0 <= d < dim implies concat.row_seq(i2)[d] == cseq[d] by {
                        assert(concat.row_seq(i2)[d] as int == concat.at(i2, d));
                    }
                }
            }
        }
        r
    }
}

/// Copy a block of `width` columns starting at `lo`.
pub fn col_slice(m: &TokenMatrix, lo: usize, width: usize) -> (r: TokenMatrix)
    requires
        m.wf(),
        lo + width <= m.cols,
    ensures
        r.wf(),
        r.rows == m.rows,
        r.cols == width,
        forall|i: int, j: int|
            0 <= i < m.rows && 0 <= j < width ==> #[trigger] r.at(i, j) == m.at(i, lo + j),
{
    let mut out: TokenMatrix = TokenMatrix::zeros(m.rows, width);
    let mut i: usize = 0;
    while i < m.rows
        invariant
            m.wf(),
            lo + width <= m.cols,
            out.wf(),
            out.rows == m.rows,
            out.cols == width,
            i <= m.rows,
            forall|i2: int, j2: int|
                0 <= i2 < i && 0 <= j2 < width ==> #[trigger] out.at(i2, j2) == m.at(i2, lo + j2),
        decreases m.rows - i,
    {
        let mut j: usize = 0;
        while j < width
            invariant
                m.wf(),
                lo + width <= m.cols,
                out.wf(),
                out.rows == m.rows,
                out.cols == width,
                i < m.rows,
                j <= width,
                forall|i2: int, j2: int|
                    0 <= i2 < i && 0 <= j2 < width ==> #[trigger] out.at(i2, j2) == m.at(
                        i2,
                        lo + j2,
                    ),
                forall|j2: int|
                    0 <= j2 < j ==> #[trigger] out.at(i as int, j2) == m.at(i as int, lo + j2),
            decreases width - j,
        {
            let v: i64 = m.get(i, lo + j);
            out.set(i, j, v);
            j = j + 1;
        }
        i = i + 1;
    }
    out
}

/// The feed-forward block: two affine maps with a GELU between them.
pub struct FeedForward {
    pub w1: TokenMatrix,
    pub w2: TokenMatrix,
    pub b1: TokenMatrix,
    pub b2: TokenMatrix,
}

/// One element of the hidden activation: the first affine map followed
/// by GELU.
pub open spec fn ff_hidden_at(f: FeedForward, xr: Seq<Seq<i64>>, i: int, t: int) -> int {
    gelu_spec(fadd(wmm_at(xr, f.w1, i, t), f.b1.at(0, t)))
}

/// One element of the feed-forward output: the second affine map over
/// the hidden activations.
pub open spec fn ff_val(f: FeedForward, xr: Seq<Seq<i64>>, i: int, j: int) -> int {
    let fdim = f.w2.rows as int;
    let hidden = Seq::new(fdim as nat, |t: int| ff_hidden_at(f, xr, i, t) as i64);
    fadd(sat_val(tdiv(sdot(hidden, f.w2.col_seq(j), fdim), SCALE as int)), f.b2.at(0, j))
}

impl FeedForward {
    pub open spec fn wf(self) -> bool {
        &&& 1 <= self.w1.rows <= DIM_MAX
        &&& 1 <= self.w1.cols <= DIM_MAX
        &&& self.w1.wf()
        &&& self.w2.wf() && self.w2.rows == self.w1.cols && self.w2.cols == self.w1.rows
        &&& self.b1.wf() && self.b1.rows == 1 && self.b1.cols == self.w1.cols
        &&& self.b2.wf() && self.b2.rows == 1 && self.b2.cols == self.w1.rows
    }

    /// Uniform random weights and zero biases.  `Err` exactly when a
    /// dimension is zero or too large.
    pub fn new(embed_dim: usize, ff_dim: usize) -> (r: Result<FeedForward, ShapeError>)
        ensures
            r is Ok <==> 1 <= embed_dim <= DIM_MAX && 1 <= ff_dim <= DIM_MAX,
            r is Ok ==> {
                let f = r->Ok_0;
                f.wf() && f.w1.rows == embed_dim && f.w1.cols == ff_dim
            },
            r is Err ==> r == Err::<FeedForward, ShapeError>(ShapeError::DimensionOutOfRange),
    {
        if embed_dim < 1 || embed_dim > DIM_MAX || ff_dim < 1 || ff_dim > DIM_MAX {
            return Err(ShapeError::DimensionOutOfRange);
        }
        Ok(
            FeedForward {
                w1: random_uniform_matrix(embed_dim, ff_dim, 6554),
                w2: random_uniform_matrix(ff_dim, embed_dim, 6554),
                b1: TokenMatrix::zeros(1, ff_dim),
                b2: TokenMatrix::zeros(1, embed_dim),
            },
        )
    }

    /// The feed-forward block; element `(i, j)` is pinned to `ff_val`
    /// over the rows view of the input.
    pub fn forward(&self, x: &TokenMatrix) -> (r: TokenMatrix)
        requires
            self.wf(),
            x.wf(),
            x.cols == self.w1.rows,
        ensures
            r.wf(),
            r.rows == x.rows,
            r.cols == self.w1.rows,
            forall|i: int, j: int|
                0 <= i < x.rows && 0 <= j < self.w1.rows ==> #[trigger] r.at(i, j) == ff_val(
                    *self,
                    mat_rows(*x),
                    i,
                    j,
                ),
    {
        let pre: TokenMatrix = add_row_bias(&matmul(x, &self.w1), &self.b1);
        let hidden: TokenMatrix = gelu_array(&pre);
        let r: TokenMatrix = add_row_bias(&matmul(&hidden, &self.w2), &self.b2);
        proof {
            assert forall|i: int, j: int|
                0 <= i < x.rows && 0 <= j < self.w1.rows implies #[trigger] r.at(i, j) == ff_val(
                *self,
                mat_rows(*x),
                i,
                j,
            ) by {
                let fdim = self.w2.rows as int;
                let hseq = Seq::new(fdim as nat, |t: int| ff_hidden_at(*self, mat_rows(*x), i, t) as i64);
                assert(hidden.row_seq(i) =~= hseq) by {
                    assert forall|t: int| 0 <= t < fdim implies hidden.row_seq(i)[t] == hseq[t] by {
                        assert(hidden.row_seq(i)[t] as int == hidden.at(i, t));
                        assert(x.row_seq(i) == mat_rows(*x)[i]);
                    }
                }
            }
        }
        r
    }
}

/// Elementwise GELU over a matrix.
pub fn gelu_array(x: &TokenMatrix) -> (r: TokenMatrix)
    requires
        x.wf(),
    ensures
        r.wf(),
        r.rows == x.rows,
        r.cols == x.cols,
        forall|i: int, j: int|
            0 <= i < x.rows && 0 <= j < x.cols ==> #[trigger] r.at(i, j) == gelu_spec(x.at(i, j)),
{
    let mut out: TokenMatrix = TokenMatrix::zeros(x.rows, x.cols);
    let mut i: usize = 0;
    while i < x.rows
        invariant
            x.wf(),
            out.wf(),
            out.rows == x.rows,
            out.cols == x.cols,
            i <= x.rows,
            forall|i2: int, j2: int|
                0 <= i2 < i && 0 <= j2 < x.cols ==> #[trigger] out.at(i2, j2) == gelu_spec(
                    x.at(i2, j2),
                ),
        decreases x.rows - i,
    {
        let mut j: usize = 0;
        while j < x.cols
            invariant
                x.wf(),
                out.wf(),
                out.rows == x.rows,
                out.cols == x.cols,
                i < x.rows,
                j <= x.cols,
                forall|i2: int, j2: int|
                    0 <= i2 < i && 0 <= j2 < x.cols ==> #[trigger] out.at(i2, j2) == gelu_spec(
                        x.at(i2, j2),
                    ),
                forall|j2: int|
                    0 <= j2 < j ==> #[trigger] out.at(i as int, j2) == gelu_spec(
                        x.at(i as int, j2),
                    ),
            decreases x.cols - j,
        {
            let v: i64 = gelu_fx(x.get(i, j));
            out.set(i, j, v);
            j = j + 1;
        }
        i = i + 1;
    }
    out
}

/// One pre-norm transformer encoder layer.
pub struct TransformerLayer {
    pub embed_dim: usize,
    pub ff_dim: usize,
    pub num_heads: usize,
    pub ln1: LayerNorm,
    pub ln2: LayerNorm,
    pub mha: MultiHeadAttention,
    pub ffn: FeedForward,
}

/// The rows view of a layer-normalized rows view.
pub open spec fn ln_rows(ln: LayerNorm, xr: Seq<Seq<i64>>) -> Seq<Seq<i64>> {
    Seq::new(xr.len(), |i: int| Seq::new(ln.gamma.len() as nat, |j: int| ln_val(ln, xr[i], j) as i64))
}

/// The rows view after the attention residual:
/// `x + MHA(LayerNorm(x))`.
pub open spec fn attn_residual_rows(l: TransformerLayer, xr: Seq<Seq<i64>>) -> Seq<Seq<i64>> {
    Seq::new(
        xr.len(),
        |i: int|
            Seq::new(
                l.embed_dim as nat,
                |j: int| fadd(xr[i][j] as int, mha_val(l.mha, ln_rows(l.ln1, xr), i, j)) as i64,
            ),
    )
}

/// One element of the layer output:
/// `x1 + FFN(LayerNorm(x1))` with `x1 = x + MHA(LayerNorm(x))`.
pub open spec fn layer_val(l: TransformerLayer, xr: Seq<Seq<i64>>, i: int, j: int) -> int {
    let x1 = attn_residual_rows(l, xr);
    fadd(x1[i][j] as int, ff_val(l.ffn, ln_rows(l.ln2, x1), i, j))
}

impl TransformerLayer {
    pub open spec fn wf(self) -> bool {
        &&& 1 <= self.embed_dim <= DIM_MAX
        &&& self.ln1.wf() && self.ln1.gamma.len() == self.embed_dim
        &&& self.ln2.wf() && self.ln2.gamma.len() == self.embed_dim
        &&& self.mha.wf() && self.mha.wq.rows == self.embed_dim
        &&& self.ffn.wf() && self.ffn.w1.rows == self.embed_dim && self.ffn.w1.cols == self.ff_dim
        &&& self.num_heads == self.mha.num_heads
    }

    /// Compose the sub-blocks.  `Err(IndivisibleHeads)` exactly when the
    /// embedding dimension is not a positive multiple of the head count;
    /// `Err(DimensionOutOfRange)` exactly when a dimension is zero or
    /// too large.
    pub fn new(embed_dim: usize, ff_dim: usize, num_heads: usize) -> (r: Result<
        TransformerLayer,
        ShapeError,
    >)
        ensures
            r is Ok <==> 1 <= embed_dim <= DIM_MAX && 1 <= ff_dim <= DIM_MAX && 1 <= num_heads
                && embed_dim % num_heads == 0,
            r is Ok ==> {
                let l = r->Ok_0;
                l.wf() && l.embed_dim == embed_dim && l.ff_dim == ff_dim && l.num_heads
                    == num_heads
            },
    {
        if embed_dim < 1 || embed_dim > DIM_MAX || ff_dim < 1 || ff_dim > DIM_MAX {
            return Err(ShapeError::DimensionOutOfRange);
        }
        let mha: MultiHeadAttention = match MultiHeadAttention::new(embed_dim, num_heads) {
            Ok(m) => m,
            Err(e) => {
                return Err(e);
            },
        };
        let ffn: FeedForward = match FeedForward::new(embed_dim, ff_dim) {
            Ok(f) => f,
            Err(e) => {
                return Err(e);
            },
        };
        Ok(
            TransformerLayer {
                embed_dim,
                ff_dim,
                num_heads,
                ln1: LayerNorm::new(embed_dim),
                ln2: LayerNorm::new(embed_dim),
                mha,
                ffn,
            },
        )
    }

    /// The full pre-norm block; element `(i, j)` is pinned to
    /// `layer_val` over the rows view of the input.
    pub fn forward(&self, x: &TokenMatrix) -> (r: TokenMatrix)
        requires
            self.wf(),
            x.wf(),
            x.cols == self.embed_dim,
        ensures
            r.wf(),
            r.rows == x.rows,
            r.cols == self.embed_dim,
            forall|i: int, j: int|
                0 <= i < x.rows && 0 <= j < self.embed_dim ==> #[trigger] r.at(i, j) == layer_val(
                    *self,
                    mat_rows(*x),
                    i,
                    j,
                ),
    {
        let ghost xr = mat_rows(*x);
        let n1: TokenMatrix = self.ln1.forward(x);
        proof {
            lemma_rows_view_ln(n1, *x, self.ln1);
        }
        let a: TokenMatrix = self.mha.forward(&n1);
        let x1: TokenMatrix = mat_add(x, &a);
        proof {
            assert(mat_rows(x1) =~~= attn_residual_rows(*self, xr)) by {
                assert forall|i: int| 0 <= i < x.rows implies mat_rows(x1)[i]
                    =~= attn_residual_rows(*self, xr)[i] by {
                    assert forall|j: int| 0 <= j < self.embed_dim implies mat_rows(x1)[i][j]
                        == attn_residual_rows(*self, xr)[i][j] by {
                        assert(x1.row_seq(i)[j] as int == x1.at(i, j));
                        assert(x.row_seq(i)[j] == xr[i][j]);
                    }
                }
            }
        }
        let n2: TokenMatrix = self.ln2.forward(&x1);
        proof {
            lemma_rows_view_ln(n2, x1, self.ln2);
        }
        let f: TokenMatrix = self.ffn.forward(&n2);
        let r: TokenMatrix = mat_add(&x1, &f);
        proof {
            assert forall|i: int, j: int|
                0 <= i < x.rows && 0 <= j < self.embed_dim implies #[trigger] r.at(i, j)
                == layer_val(*self, xr, i, j) by {
                assert(x1.at(i, j) == attn_residual_rows(*self, xr)[i][j] as int);
            }
        }
        r
    }
}

/// The rows view of a layer-norm output is `ln_rows` of the input's
/// rows view.
proof fn lemma_rows_view_ln(out: TokenMatrix, x: TokenMatrix, ln: LayerNorm)
    requires
        x.wf(),
        out.wf(),
        out.rows == x.rows,
        out.cols == x.cols,
        x.cols == ln.gamma.len(),
        forall|i: int, j: int|
            0 <= i < x.rows && 0 <= j < x.cols ==> #[trigger] out.at(i, j) == ln_val(
                ln,
                x.row_seq(i),
                j,
            ),
    ensures
        mat_rows(out) == ln_rows(ln, mat_rows(x)),
{
    assert(mat_rows(out) =~~= ln_rows(ln, mat_rows(x))) by {
        assert forall|i: int| 0 <= i < x.rows implies mat_rows(out)[i] =~= ln_rows(
            ln,
            mat_rows(x),
        )[i] by {
            assert forall|j: int| 0 <= j < x.cols implies mat_rows(out)[i][j] == ln_rows(
                ln,
                mat_rows(x),
            )[i][j] by {
                assert(out.row_seq(i)[j] as int == out.at(i, j));
                assert(mat_rows(x)[i] == x.row_seq(i));
            }
        }
    }
}

} // verus!
