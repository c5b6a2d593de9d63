//! Patch dropout: keep a random subset of the token rows.  With a keep
//! ratio of one or more the input passes through unchanged; otherwise
//! `round(N * keep_ratio)` rows survive, the classification row (when
//! configured) always among them and always first.  Which other rows
//! survive is drawn without replacement by the sampler; every contract
//! here holds for every possible draw.

use vstd::prelude::*;
use vstd::arithmetic::div_mod::lemma_multiply_divide_lt;
use crate::fixed::{tdiv, tdiv64, SCALE, HALF_SCALE, VAL_MAX, DIM_MAX};
use crate::matrix::{TokenMatrix, rows_to_matrix};
use crate::sampling::sample_indices;

verus! {

/// `round(n * keep_ratio)` with round-half-up, in fixed point.
pub open spec fn keep_count(n: int, keep_ratio: int) -> int {
    tdiv(n * keep_ratio + HALF_SCALE, SCALE as int)
}

/// How many rows the dropout keeps for an input of `n` rows.
pub open spec fn kept_rows(d: PatchDropout, n: int) -> int {
    if d.keep_ratio >= SCALE {
        n
    } else {
        let kc = keep_count(n, d.keep_ratio as int);
        if d.cls_token {
            1 + (if kc >= 1 {
                kc - 1
            } else {
                0
            })
        } else {
            kc
        }
    }
}

/// The output's rows are the input rows at the indices `chosen`: one
/// source row per output row, all distinct (a sample without
/// replacement), in the order chosen.
pub open spec fn rows_chosen_from(r: TokenMatrix, x: TokenMatrix, chosen: Seq<int>) -> bool {
    &&& chosen.len() == r.rows
    &&& forall|t: int| 0 <= t < chosen.len() ==> 0 <= #[trigger] chosen[t] < x.rows
    &&& forall|t1: int, t2: int|
        0 <= t1 < chosen.len() && 0 <= t2 < chosen.len() && t1 != t2 ==> chosen[t1] != chosen[t2]
    &&& forall|t: int| 0 <= t < chosen.len() ==> #[trigger] r.row_seq(t) == x.row_seq(chosen[t])
}

/// Patch dropout configuration: the keep ratio in fixed point and
/// whether row zero is a classification token that must survive.
pub struct PatchDropout {
    pub keep_ratio: i64,
    pub cls_token: bool,
}

impl PatchDropout {
    pub open spec fn wf(self) -> bool {
        0 <= self.keep_ratio
    }

    pub fn new(keep_ratio: i64, cls_token: bool) -> (r: PatchDropout)
        requires
            0 <= keep_ratio,
        ensures
            r.keep_ratio == keep_ratio,
            r.cls_token == cls_token,
            r.wf(),
    {
        PatchDropout { keep_ratio, cls_token }
    }

    /// The rows that survive, as input row indices: row 0 first when a
    /// classification token is configured, then the sampled rows in the
    /// order the sampler returned them.
    fn select_rows(&self, x: &TokenMatrix) -> (sel: Vec<usize>)
        requires
            self.wf(),
            self.keep_ratio < SCALE,
            x.wf(),
            self.cls_token ==> x.rows >= 1,
        ensures
            sel.len() == kept_rows(*self, x.rows as int),
            sel.len() <= x.rows,
            forall|t: int| 0 <= t < sel.len() ==> #[trigger] sel[t] < x.rows,
            self.cls_token ==> sel.len() >= 1 && sel[0] == 0,
            self.cls_token ==> forall|t: int| 1 <= t < sel.len() ==> 1 <= #[trigger] sel[t],
            forall|t1: int, t2: int|
                0 <= t1 < sel.len() && 0 <= t2 < sel.len() && t1 != t2 ==> sel[t1] != sel[t2],
    {
        let n: usize = x.rows;
        proof {
            assert((n as int) * (self.keep_ratio as int) + HALF_SCALE < ((n as int) + 1) * (
            SCALE as int)) by (nonlinear_arith)
                requires
                    0 <= self.keep_ratio as int <= SCALE - 1,
                    0 <= n as int,
            ;
            lemma_multiply_divide_lt(
                (n as int) * (self.keep_ratio as int) + HALF_SCALE,
                SCALE as int,
                n as int + 1,
            );
            assert((n as int) * (self.keep_ratio as int) <= 32768 * (SCALE as int))
                by (nonlinear_arith)
                requires
                    0 <= self.keep_ratio as int <= SCALE,
                    0 <= n as int <= 32768,
            ;
            crate::fixed::lemma_tdiv_bounds(
                (n as int) * (self.keep_ratio as int) + HALF_SCALE,
                SCALE as int,
            );
        }
        let kc: i64 = tdiv64((n as i64) * self.keep_ratio + HALF_SCALE, SCALE);
        assert(kc as int == keep_count(n as int, self.keep_ratio as int));
        assert(0 <= kc <= n);
        if self.cls_token {
            let sample_count: usize = if kc >= 1 {
                (kc - 1) as usize
            } else {
                0
            };
            let idx: Vec<usize> = sample_indices(n - 1, sample_count);
            let mut sel: Vec<usize> = Vec::new();
            sel.push(0);
            let mut t: usize = 0;
            while t < idx.len()
                invariant
                    idx.len() == sample_count,
                    forall|k: int| 0 <= k < idx.len() ==> #[trigger] idx[k] < n - 1,
                    t <= idx.len(),
                    sel.len() == 1 + t,
                    sel[0] == 0,
                    forall|k: int| 1 <= k < sel.len() ==> 1 <= #[trigger] sel[k] < n,
                    forall|k: int| 1 <= k < sel.len() ==> #[trigger] sel[k] == idx[k - 1] + 1,
                    forall|k1: int, k2: int|
                        0 <= k1 < idx.len() && 0 <= k2 < idx.len() && k1 != k2 ==> idx[k1]
                            != idx[k2],
                decreases idx.len() - t,
            {
                sel.push(idx[t] + 1);
                t = t + 1;
            }
            sel
        } else {
            let idx: Vec<usize> = sample_indices(n, kc as usize);
            idx
        }
    }

    /// Gather the selected rows into the output matrix, sequentially.
    pub fn forward(&self, x: &TokenMatrix) -> (r: TokenMatrix)
        requires
            self.wf(),
            x.wf(),
            self.cls_token && self.keep_ratio < SCALE ==> x.rows >= 1,
        ensures
            r.wf(),
            r.cols == x.cols,
            r.rows == kept_rows(*self, x.rows as int),
            self.keep_ratio >= SCALE ==> r.data@ == x.data@,
            self.keep_ratio < SCALE && self.cls_token ==> r.row_seq(0) == x.row_seq(0),
            self.keep_ratio < SCALE ==> exists|chosen: Seq<int>|
                #[trigger] rows_chosen_from(r, *x, chosen),
    {
        if self.keep_ratio >= SCALE {
            return copy_matrix(x);
        }
        let sel: Vec<usize> = self.select_rows(x);
        gather_and_build(x, &sel, Ghost(*self))
    }

    /// Gather the selected rows with the row copies partitioned across
    /// the worker pool; the same rows in the same order.
    pub fn forward_rayon(&self, x: &TokenMatrix) -> (r: TokenMatrix)
        requires
            self.wf(),
            x.wf(),
            self.cls_token && self.keep_ratio < SCALE ==> x.rows >= 1,
        ensures
            r.wf(),
            r.cols == x.cols,
            r.rows == kept_rows(*self, x.rows as int),
            self.keep_ratio >= SCALE ==> r.data@ == x.data@,
            self.keep_ratio < SCALE && self.cls_token ==> r.row_seq(0) == x.row_seq(0),
            self.keep_ratio < SCALE ==> exists|chosen: Seq<int>|
                #[trigger] rows_chosen_from(r, *x, chosen),
    {
        if self.keep_ratio >= SCALE {
            return copy_matrix(x);
        }
        let sel: Vec<usize> = self.select_rows(x);
        let rows: Vec<Vec<i64>> = gather_rows_parallel(x, &sel);
        finish_gather(x, &sel, rows, Ghost(*self))
    }

    /// Gather the selected rows in parallel, each copied in lanes of
    /// eight with a scalar tail; the same rows in the same order.
    pub fn forward_rayon_simd(&self, x: &TokenMatrix) -> (r: TokenMatrix)
        requires
            self.wf(),
            x.wf(),
            self.cls_token && self.keep_ratio < SCALE ==> x.rows >= 1,
        ensures
            r.wf(),
            r.cols == x.cols,
            r.rows == kept_rows(*self, x.rows as int),
            self.keep_ratio >= SCALE ==> r.data@ == x.data@,
            self.keep_ratio < SCALE && self.cls_token ==> r.row_seq(0) == x.row_seq(0),
            self.keep_ratio < SCALE ==> exists|chosen: Seq<int>|
                #[trigger] rows_chosen_from(r, *x, chosen),
    {
        if self.keep_ratio >= SCALE {
            return copy_matrix(x);
        }
        let sel: Vec<usize> = self.select_rows(x);
        let rows: Vec<Vec<i64>> = gather_rows_parallel_simd(x, &sel);
        finish_gather(x, &sel, rows, Ghost(*self))
    }
}

/// An identical copy of the matrix.
fn copy_matrix(x: &TokenMatrix) -> (r: TokenMatrix)
    requires
        x.wf(),
    ensures
        r.wf(),
        r.rows == x.rows,
        r.cols == x.cols,
        r.data@ == x.data@,
{
    let mut data: Vec<i64> = Vec::new();
    let mut k: usize = 0;
    while k < x.data.len()
        invariant
            x.wf(),
            k <= x.data.len(),
            data.len() == k,
            forall|t: int| 0 <= t < k ==> #[trigger] data[t] == x.data[t],
        decreases x.data.len() - k,
    {
        data.push(x.data[k]);
        k = k + 1;
    }
    proof {
        assert(data@ =~= x.data@);
    }
    TokenMatrix { rows: x.rows, cols: x.cols, data }
}

/// Sequential gather of the selected rows, then assembly.
fn gather_and_build(x: &TokenMatrix, sel: &Vec<usize>, d: Ghost<PatchDropout>) -> (r: TokenMatrix)
    requires
        x.wf(),
        forall|t: int| 0 <= t < sel.len() ==> #[trigger] sel[t] < x.rows,
        forall|t1: int, t2: int|
            0 <= t1 < sel.len() && 0 <= t2 < sel.len() && t1 != t2 ==> sel[t1] != sel[t2],
        sel.len() == kept_rows(d@, x.rows as int),
        sel.len() <= x.rows,
        d@.keep_ratio < SCALE,
        d@.cls_token ==> sel.len() >= 1 && sel[0] == 0,
    ensures
        r.wf(),
        r.cols == x.cols,
        r.rows == kept_rows(d@, x.rows as int),
        d@.cls_token ==> r.row_seq(0) == x.row_seq(0),
        exists|chosen: Seq<int>| #[trigger] rows_chosen_from(r, *x, chosen),
{
    let mut rows: Vec<Vec<i64>> = Vec::new();
    let mut t: usize = 0;
    while t < sel.len()
        invariant
            x.wf(),
            forall|k: int| 0 <= k < sel.len() ==> #[trigger] sel[k] < x.rows,
            t <= sel.len(),
            rows.len() == t,
            forall|k: int| 0 <= k < t ==> (#[trigger] rows[k])@ == x.row_seq(sel[k] as int),
            forall|k: int| 0 <= k < t ==> (#[trigger] rows[k]).len() == x.cols,
            forall|k: int, j: int|
                0 <= k < t && 0 <= j < x.cols ==> -VAL_MAX <= #[trigger] rows[k][j] <= VAL_MAX,
        decreases sel.len() - t,
    {
        let row: Vec<i64> = x.row(sel[t]);
        rows.push(row);
        t = t + 1;
    }
    finish_gather(x, sel, rows, d)
}

/// Assemble gathered rows into the output matrix and restate the
/// selection facts about it.
fn finish_gather(
    x: &TokenMatrix,
    sel: &Vec<usize>,
    rows: Vec<Vec<i64>>,
    d: Ghost<PatchDropout>,
) -> (r: TokenMatrix)
    requires
        x.wf(),
        forall|t: int| 0 <= t < sel.len() ==> #[trigger] sel[t] < x.rows,
        forall|t1: int, t2: int|
            0 <= t1 < sel.len() && 0 <= t2 < sel.len() && t1 != t2 ==> sel[t1] != sel[t2],
        sel.len() == kept_rows(d@, x.rows as int),
        sel.len() <= x.rows,
        d@.keep_ratio < SCALE,
        d@.cls_token ==> sel.len() >= 1 && sel[0] == 0,
        rows.len() == sel.len(),
        forall|k: int| 0 <= k < rows.len() ==> (#[trigger] rows[k])@ == x.row_seq(sel[k] as int),
        forall|k: int| 0 <= k < rows.len() ==> (#[trigger] rows[k]).len() == x.cols,
        forall|k: int, j: int|
            0 <= k < rows.len() && 0 <= j < x.cols ==> -VAL_MAX <= #[trigger] rows[k][j]
                <= VAL_MAX,
    ensures
        r.wf(),
        r.cols == x.cols,
        r.rows == kept_rows(d@, x.rows as int),
        d@.cls_token ==> r.row_seq(0) == x.row_seq(0),
        exists|chosen: Seq<int>| #[trigger] rows_chosen_from(r, *x, chosen),
{
    proof {
        assert(sel.len() <= DIM_MAX);
    }
    let ghost rows0 = rows@;
    let r: TokenMatrix = rows_to_matrix(rows, x.cols);
    proof {
        let w = Seq::new(sel.len() as nat, |t: int| sel[t] as int);
        assert forall|t: int| 0 <= t < w.len() implies #[trigger] r.row_seq(t) == x.row_seq(
            w[t],
        ) by {
            assert(r.row_seq(t) == rows0[t]@);
            assert(rows0[t]@ == x.row_seq(sel[t] as int));
        }
        assert(rows_chosen_from(r, *x, w));
        if d@.cls_token {
            assert(r.row_seq(0) == rows0[0]@);
            assert(r.row_seq(0) == x.row_seq(0));
        }
    }
    r
}

/// Relies on rayon: a parallel iterator over the selected indices calls
/// the verified row copy for each and collects them in index order.
#[verifier::external_body]
fn gather_rows_parallel(x: &TokenMatrix, sel: &Vec<usize>) -> (r: Vec<Vec<i64>>)
    requires
        x.wf(),
        forall|t: int| 0 <= t < sel.len() ==> #[trigger] sel[t] < x.rows,
    ensures
        r.len() == sel.len(),
        forall|k: int| 0 <= k < r.len() ==> (#[trigger] r[k])@ == x.row_seq(sel[k] as int),
        forall|k: int| 0 <= k < r.len() ==> (#[trigger] r[k]).len() == x.cols,
        forall|k: int, j: int|
            0 <= k < r.len() && 0 <= j < x.cols ==> -VAL_MAX <= #[trigger] r[k][j] <= VAL_MAX,
{
    rayon::iter::ParallelIterator::collect(rayon::iter::ParallelIterator::map(
        rayon::iter::IntoParallelRefIterator::par_iter(sel),
        |i: &usize| x.row(*i),
    ))
}

/// Relies on rayon: as `gather_rows_parallel`, with the verified
/// lane-chunked `copy_row_simd` applied to each row.
#[verifier::external_body]
fn gather_rows_parallel_simd(x: &TokenMatrix, sel: &Vec<usize>) -> (r: Vec<Vec<i64>>)
    requires
        x.wf(),
        forall|t: int| 0 <= t < sel.len() ==> #[trigger] sel[t] < x.rows,
    ensures
        r.len() == sel.len(),
        forall|k: int| 0 <= k < r.len() ==> (#[trigger] r[k])@ == x.row_seq(sel[k] as int),
        forall|k: int| 0 <= k < r.len() ==> (#[trigger] r[k]).len() == x.cols,
        forall|k: int, j: int|
            0 <= k < r.len() && 0 <= j < x.cols ==> -VAL_MAX <= #[trigger] r[k][j] <= VAL_MAX,
{
    rayon::iter::ParallelIterator::collect(rayon::iter::ParallelIterator::map(
        rayon::iter::IntoParallelRefIterator::par_iter(sel),
        |i: &usize| copy_row_simd(&x.row(*i)),
    ))
}

/// Copy a row in fixed-width lanes of eight with a scalar tail; the
/// content is unchanged.
pub fn copy_row_simd(input: &Vec<i64>) -> (r: Vec<i64>)
    ensures
        r@ == input@,
{
    let mut out: Vec<i64> = Vec::new();
    let mut k: usize = 0;
    while input.len() - k >= 8
        invariant
            k <= input.len(),
            out.len() == k,
            forall|t: int| 0 <= t < k ==> #[trigger] out[t] == input[t],
        decreases input.len() - k,
    {
        let mut lane: usize = 0;
        while lane < 8
            invariant
                lane <= 8,
                k + 8 <= input.len(),
                out.len() == k + lane,
                forall|t: int| 0 <= t < k + lane ==> #[trigger] out[t] == input[t],
            decreases 8 - lane,
        {
            out.push(input[k + lane]);
            lane = lane + 1;
        }
        k = k + 8;
    }
    while k < input.len()
        invariant
            k <= input.len(),
            out.len() == k,
            forall|t: int| 0 <= t < k ==> #[trigger] out[t] == input[t],
        decreases input.len() - k,
    {
        out.push(input[k]);
        k = k + 1;
    }
    proof {
        assert(out@ =~= input@);
    }
    out
}

} // verus!
