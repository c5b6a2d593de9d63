//! Gated-linear-unit output projection: project tokens to `2 * out_dim`
//! columns, split them into a value half and a gating half, rectify the
//! gating half, and return the elementwise product.  A rectifier stands
//! in place of a sigmoid; that is the defined behavior of this
//! component.

use vstd::prelude::*;
use crate::fixed::{fadd, fmul, relu_spec, mul_fx, relu_fx, isqrt_u128, SCALE, VAL_MAX, DIM_MAX};
use crate::matrix::{TokenMatrix, mm_at, matmul, add_row_bias, rows_to_matrix};
use crate::sampling::sample_uniform_fx;

verus! {

/// The projected (pre-gate) value at row `i`, column `j` of the
/// `2 * out_dim`-wide intermediate: the matrix product plus the bias.
pub open spec fn proj_at(g: GLUProjection, x: TokenMatrix, i: int, j: int) -> int {
    match g.bias {
        Some(b) => fadd(mm_at(x, g.weight, i, j), b.at(0, j)),
        None => mm_at(x, g.weight, i, j),
    }
}

/// The gated output at row `i`, column `j`: the value half times the
/// rectified gate half.
pub open spec fn glu_val(g: GLUProjection, x: TokenMatrix, i: int, j: int) -> int {
    fmul(proj_at(g, x, i, j), relu_spec(proj_at(g, x, i, g.out_dim + j)))
}

/// The GLU output projection: a learned `in_dim x 2*out_dim` weight and
/// a `1 x 2*out_dim` bias.
pub struct GLUProjection {
    pub in_dim: usize,
    pub out_dim: usize,
    pub weight: TokenMatrix,
    pub bias: Option<TokenMatrix>,
}

impl GLUProjection {
    /// Shapes hang together.
    pub open spec fn wf(self) -> bool {
        &&& 1 <= self.in_dim <= DIM_MAX
        &&& 1 <= self.out_dim
        &&& 2 * self.out_dim <= DIM_MAX
        &&& self.weight.wf()
        &&& self.weight.rows == self.in_dim
        &&& self.weight.cols == 2 * self.out_dim
        &&& match self.bias {
            Some(b) => b.wf() && b.rows == 1 && b.cols == 2 * self.out_dim,
            None => true,
        }
    }

    /// A projection with uniform initial weights in
    /// `[-sqrt(6/(fan_in+fan_out)), sqrt(6/(fan_in+fan_out))]` and a zero
    /// bias.  `None` exactly when the requested shape is out of bounds.
    pub fn new(in_dim: usize, out_dim: usize) -> (r: Option<GLUProjection>)
        ensures
            r is Some <==> 1 <= in_dim <= DIM_MAX && 1 <= out_dim && 2 * out_dim <= DIM_MAX,
            r is Some ==> {
                let g = r->Some_0;
                g.wf() && g.in_dim == in_dim && g.out_dim == out_dim && g.bias is Some
            },
    {
        if in_dim < 1 || in_dim > DIM_MAX || out_dim < 1 || out_dim > DIM_MAX / 2 {
            return None;
        }
        let fan: usize = in_dim + 2 * out_dim;
        let limit128: u128 = isqrt_u128((25769803776u128) / (fan as u128));
        proof {
            let l = limit128 as int;
            assert(l <= 160531) by (nonlinear_arith)
                requires
                    l * l <= 25769803776,
                    0 <= l,
            ;
        }
        let limit: i64 = limit128 as i64;
        let weight: TokenMatrix = random_uniform_matrix(in_dim, 2 * out_dim, limit);
        let bias: TokenMatrix = TokenMatrix::zeros(1, 2 * out_dim);
        Some(GLUProjection { in_dim, out_dim, weight, bias: Some(bias) })
    }

    /// Sequential strategy: every output element is pinned to `glu_val`.
    pub fn forward(&self, x: &TokenMatrix) -> (r: TokenMatrix)
        requires
            self.wf(),
            x.wf(),
            x.cols == self.in_dim,
        ensures
            r.wf(),
            r.rows == x.rows,
            r.cols == self.out_dim,
            forall|i: int, j: int|
                0 <= i < x.rows && 0 <= j < self.out_dim ==> #[trigger] r.at(i, j) == glu_val(
                    *self,
                    *x,
                    i,
                    j,
                ),
    {
        let projected: TokenMatrix = self.project(x);
        let mut out: TokenMatrix = TokenMatrix::zeros(x.rows, self.out_dim);
        let mut i: usize = 0;
        while i < x.rows
            invariant
                self.wf(),
                x.wf(),
                x.cols == self.in_dim,
                projected.wf(),
                projected.rows == x.rows,
                projected.cols == 2 * self.out_dim,
                forall|i2: int, j2: int|
                    0 <= i2 < x.rows && 0 <= j2 < 2 * self.out_dim ==> #[trigger] projected.at(
                        i2,
                        j2,
                    ) == proj_at(*self, *x, i2, j2),
                out.wf(),
                out.rows == x.rows,
                out.cols == self.out_dim,
                i <= x.rows,
                forall|i2: int, j2: int|
                    0 <= i2 < i && 0 <= j2 < self.out_dim ==> #[trigger] out.at(i2, j2) == glu_val(
                        *self,
                        *x,
                        i2,
                        j2,
                    ),
            decreases x.rows - i,
        {
            let mut j: usize = 0;
            while j < self.out_dim
                invariant
                    self.wf(),
                    x.wf(),
                    x.cols == self.in_dim,
                    projected.wf(),
                    projected.rows == x.rows,
                    projected.cols == 2 * self.out_dim,
                    forall|i2: int, j2: int|
                        0 <= i2 < x.rows && 0 <= j2 < 2 * self.out_dim ==> #[trigger] projected.at(
                            i2,
                            j2,
                        ) == proj_at(*self, *x, i2, j2),
                    out.wf(),
                    out.rows == x.rows,
                    out.cols == self.out_dim,
                    i < x.rows,
                    j <= self.out_dim,
                    forall|i2: int, j2: int|
                        0 <= i2 < i && 0 <= j2 < self.out_dim ==> #[trigger] out.at(i2, j2)
                            == glu_val(*self, *x, i2, j2),
                    forall|j2: int|
                        0 <= j2 < j ==> #[trigger] out.at(i as int, j2) == glu_val(
                            *self,
                            *x,
                            i as int,
                            j2,
                        ),
                decreases self.out_dim - j,
            {
                let v: i64 = mul_fx(
                    projected.get(i, j),
                    relu_fx(projected.get(i, self.out_dim + j)),
                );
                out.set(i, j, v);
                j = j + 1;
            }
            i = i + 1;
        }
        out
    }

    /// The shared projection step: `x * W + b`, elementwise `proj_at`.
    fn project(&self, x: &TokenMatrix) -> (r: TokenMatrix)
        requires
            self.wf(),
            x.wf(),
            x.cols == self.in_dim,
        ensures
            r.wf(),
            r.rows == x.rows,
            r.cols == 2 * self.out_dim,
            forall|i: int, j: int|
                0 <= i < x.rows && 0 <= j < 2 * self.out_dim ==> #[trigger] r.at(i, j) == proj_at(
                    *self,
                    *x,
                    i,
                    j,
                ),
    {
        let p: TokenMatrix = matmul(x, &self.weight);
        match &self.bias {
            Some(b) => add_row_bias(&p, b),
            None => p,
        }
    }

    /// Row-parallel strategy: the same projection, the gated activation
    /// of the rows partitioned across the worker pool.  Elementwise
    /// identical to the sequential strategy.
    pub fn forward_rayon(&self, x: &TokenMatrix) -> (r: TokenMatrix)
        requires
            self.wf(),
            x.wf(),
            x.cols == self.in_dim,
        ensures
            r.wf(),
            r.rows == x.rows,
            r.cols == self.out_dim,
            forall|i: int, j: int|
                0 <= i < x.rows && 0 <= j < self.out_dim ==> #[trigger] r.at(i, j) == glu_val(
                    *self,
                    *x,
                    i,
                    j,
                ),
    {
        let projected: TokenMatrix = self.project(x);
        let rows: Vec<Vec<i64>> = activate_rows_parallel(&projected, self.out_dim);
        let out: TokenMatrix = rows_to_matrix(rows, self.out_dim);
        out
    }

    /// Vectorized strategy: the gating activation runs in lanes of eight
    /// with a scalar tail; elementwise identical to the sequential
    /// strategy.
    pub fn forward_rayon_simd(&self, x: &TokenMatrix) -> (r: TokenMatrix)
        requires
            self.wf(),
            x.wf(),
            x.cols == self.in_dim,
        ensures
            r.wf(),
            r.rows == x.rows,
            r.cols == self.out_dim,
            forall|i: int, j: int|
                0 <= i < x.rows && 0 <= j < self.out_dim ==> #[trigger] r.at(i, j) == glu_val(
                    *self,
                    *x,
                    i,
                    j,
                ),
    {
        let projected: TokenMatrix = self.project(x);
        let rows: Vec<Vec<i64>> = activate_rows_parallel_simd(&projected, self.out_dim);
        let out: TokenMatrix = rows_to_matrix(rows, self.out_dim);
        out
    }
}

/// The activated row: value half times rectified gate half.
pub fn activate_glu(row: &Vec<i64>, out_dim: usize) -> (r: Vec<i64>)
    requires
        row.len() == 2 * out_dim,
        forall|k: int| 0 <= k < row.len() ==> -VAL_MAX <= #[trigger] row[k] <= VAL_MAX,
    ensures
        r.len() == out_dim,
        forall|j: int|
            0 <= j < out_dim ==> #[trigger] r[j] as int == fmul(
                row[j] as int,
                relu_spec(row[out_dim + j] as int),
            ),
        forall|j: int| 0 <= j < out_dim ==> -VAL_MAX <= #[trigger] r[j] <= VAL_MAX,
{
    let mut out: Vec<i64> = Vec::new();
    let mut j: usize = 0;
    while j < out_dim
        invariant
            row.len() == 2 * out_dim,
            forall|k: int| 0 <= k < row.len() ==> -VAL_MAX <= #[trigger] row[k] <= VAL_MAX,
            j <= out_dim,
            out.len() == j,
            forall|t: int|
                0 <= t < j ==> #[trigger] out[t] as int == fmul(
                    row[t] as int,
                    relu_spec(row[out_dim + t] as int),
                ),
            forall|t: int| 0 <= t < j ==> -VAL_MAX <= #[trigger] out[t] <= VAL_MAX,
        decreases out_dim - j,
    {
        let v: i64 = mul_fx(row[j], relu_fx(row[out_dim + j]));
        out.push(v);
        j = j + 1;
    }
    out
}

/// The activated row computed in lanes of eight with a scalar tail; the
/// per-element arithmetic is identical to `activate_glu`.
pub fn activate_glu_simd(row: &Vec<i64>, out_dim: usize) -> (r: Vec<i64>)
    requires
        row.len() == 2 * out_dim,
        forall|k: int| 0 <= k < row.len() ==> -VAL_MAX <= #[trigger] row[k] <= VAL_MAX,
    ensures
        r.len() == out_dim,
        forall|j: int|
            0 <= j < out_dim ==> #[trigger] r[j] as int == fmul(
                row[j] as int,
                relu_spec(row[out_dim + j] as int),
            ),
        forall|j: int| 0 <= j < out_dim ==> -VAL_MAX <= #[trigger] r[j] <= VAL_MAX,
{
    let mut out: Vec<i64> = Vec::new();
    let mut j: usize = 0;
    while out_dim - j >= 8
        invariant
            row.len() == 2 * out_dim,
            forall|k: int| 0 <= k < row.len() ==> -VAL_MAX <= #[trigger] row[k] <= VAL_MAX,
            j <= out_dim,
            out.len() == j,
            forall|t: int|
                0 <= t < j ==> #[trigger] out[t] as int == fmul(
                    row[t] as int,
                    relu_spec(row[out_dim + t] as int),
                ),
            forall|t: int| 0 <= t < j ==> -VAL_MAX <= #[trigger] out[t] <= VAL_MAX,
        decreases out_dim - j,
    {
        let mut lane: usize = 0;
        while lane < 8
            invariant
                row.len() == 2 * out_dim,
                forall|k: int| 0 <= k < row.len() ==> -VAL_MAX <= #[trigger] row[k] <= VAL_MAX,
                j + 8 <= out_dim,
                lane <= 8,
                out.len() == j + lane,
                forall|t: int|
                    0 <= t < j + lane ==> #[trigger] out[t] as int == fmul(
                        row[t] as int,
                        relu_spec(row[out_dim + t] as int),
                    ),
                forall|t: int| 0 <= t < j + lane ==> -VAL_MAX <= #[trigger] out[t] <= VAL_MAX,
            decreases 8 - lane,
        {
            let t: usize = j + lane;
            let v: i64 = mul_fx(row[t], relu_fx(row[out_dim + t]));
            out.push(v);
            lane = lane + 1;
        }
        j = j + 8;
    }
    while j < out_dim
        invariant
            row.len() == 2 * out_dim,
            forall|k: int| 0 <= k < row.len() ==> -VAL_MAX <= #[trigger] row[k] <= VAL_MAX,
            j <= out_dim,
            out.len() == j,
            forall|t: int|
                0 <= t < j ==> #[trigger] out[t] as int == fmul(
                    row[t] as int,
                    relu_spec(row[out_dim + t] as int),
                ),
            forall|t: int| 0 <= t < j ==> -VAL_MAX <= #[trigger] out[t] <= VAL_MAX,
        decreases out_dim - j,
    {
        let v: i64 = mul_fx(row[j], relu_fx(row[out_dim + j]));
        out.push(v);
        j = j + 1;
    }
    out
}

/// Relies on rayon: a parallel iterator over the projected rows calls
/// the verified `activate_glu` for each and collects them in row order.
#[verifier::external_body]
fn activate_rows_parallel(p: &TokenMatrix, out_dim: usize) -> (r: Vec<Vec<i64>>)
    requires
        p.wf(),
        p.cols == 2 * out_dim,
    ensures
        r.len() == p.rows,
        forall|i: int| 0 <= i < p.rows ==> (#[trigger] r[i]).len() == out_dim,
        forall|i: int, j: int|
            0 <= i < p.rows && 0 <= j < out_dim ==> #[trigger] r[i][j] as int == fmul(
                p.at(i, j),
                relu_spec(p.at(i, out_dim + j)),
            ),
        forall|i: int, j: int|
            0 <= i < p.rows && 0 <= j < out_dim ==> -VAL_MAX <= #[trigger] r[i][j] <= VAL_MAX,
{
    rayon::iter::ParallelIterator::collect(rayon::iter::ParallelIterator::map(
        rayon::iter::IntoParallelIterator::into_par_iter(0..p.rows),
        |i| activate_glu(&p.row(i), out_dim),
    ))
}

/// Relies on rayon: as `activate_rows_parallel`, with the lane-chunked
/// `activate_glu_simd` as the verified per-row kernel.
#[verifier::external_body]
fn activate_rows_parallel_simd(p: &TokenMatrix, out_dim: usize) -> (r: Vec<Vec<i64>>)
    requires
        p.wf(),
        p.cols == 2 * out_dim,
    ensures
        r.len() == p.rows,
        forall|i: int| 0 <= i < p.rows ==> (#[trigger] r[i]).len() == out_dim,
        forall|i: int, j: int|
            0 <= i < p.rows && 0 <= j < out_dim ==> #[trigger] r[i][j] as int == fmul(
                p.at(i, j),
                relu_spec(p.at(i, out_dim + j)),
            ),
        forall|i: int, j: int|
            0 <= i < p.rows && 0 <= j < out_dim ==> -VAL_MAX <= #[trigger] r[i][j] <= VAL_MAX,
{
    rayon::iter::ParallelIterator::collect(rayon::iter::ParallelIterator::map(
        rayon::iter::IntoParallelIterator::into_par_iter(0..p.rows),
        |i| activate_glu_simd(&p.row(i), out_dim),
    ))
}

/// A matrix of uniform fixed-point draws from `[-limit, limit]`.
pub(crate) fn random_uniform_matrix(rows: usize, cols: usize, limit: i64) -> (r: TokenMatrix)
    requires
        rows <= DIM_MAX,
        cols <= DIM_MAX,
        0 <= limit <= VAL_MAX,
    ensures
        r.wf(),
        r.rows == rows,
        r.cols == cols,
    {
    let mut m: TokenMatrix = TokenMatrix::zeros(rows, cols);
    let mut i: usize = 0;
    while i < rows
        invariant
            m.wf(),
            m.rows == rows,
            m.cols == cols,
            i <= rows,
            0 <= limit <= VAL_MAX,
        decreases rows - i,
    {
        let mut j: usize = 0;
        while j < cols
            invariant
                m.wf(),
                m.rows == rows,
                m.cols == cols,
                i < rows,
                j <= cols,
                0 <= limit <= VAL_MAX,
            decreases cols - j,
        {
            let v: i64 = sample_uniform_fx(limit);
            m.set(i, j, v);
            j = j + 1;
        }
        i = i + 1;
    }
    m
}

/// A nonpositive gate contributes exactly zero: the rectifier maps it to
/// zero and the product with zero is zero.
pub proof fn lemma_glu_gate_zero(g: GLUProjection, x: TokenMatrix, i: int, j: int)
    requires
        proj_at(g, x, i, g.out_dim + j) <= 0,
    ensures
        glu_val(g, x, i, j) == 0,
{
    let v = proj_at(g, x, i, j);
    assert(relu_spec(proj_at(g, x, i, g.out_dim + j)) == 0);
    assert(v * 0 == 0) by (nonlinear_arith);
    vstd::arithmetic::div_mod::lemma_div_of0(SCALE as int);
}


/// Cross-strategy agreement: any two outputs of the same projection on
/// the same input hold exactly the same data, since every strategy pins
/// each element to `glu_val`.
pub proof fn lemma_glu_strategies_agree(a: TokenMatrix, b: TokenMatrix, g: GLUProjection, x: TokenMatrix)
    requires
        a.wf(),
        b.wf(),
        a.rows == x.rows,
        b.rows == x.rows,
        a.cols == g.out_dim,
        b.cols == g.out_dim,
        forall|i: int, j: int|
            0 <= i < x.rows && 0 <= j < g.out_dim ==> #[trigger] a.at(i, j) == glu_val(g, x, i, j),
        forall|i: int, j: int|
            0 <= i < x.rows && 0 <= j < g.out_dim ==> #[trigger] b.at(i, j) == glu_val(g, x, i, j),
    ensures
        a.data@ == b.data@,
{
    crate::matrix::lemma_same_elements(a, b);
}

} // verus!
