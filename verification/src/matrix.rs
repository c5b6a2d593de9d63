//! Token matrices: rectangular `i64` fixed-point matrices in row-major
//! order.  A `TokenMatrix` carries token embeddings through the pipeline;
//! rows are tokens, columns are embedding dimensions.

use vstd::prelude::*;
use vstd::arithmetic::mul::*;
use crate::fixed::{tdiv, sat_val, fadd, mul_wide, add_fx, sat_narrow, tdiv128, SCALE, VAL_MAX, DIM_MAX};

verus! {

/// An N x D fixed-point matrix, stored row-major in one flat vector.
pub struct TokenMatrix {
    pub rows: usize,
    pub cols: usize,
    pub data: Vec<i64>,
}

impl TokenMatrix {
    /// Well-formed: dimensions within bounds, exactly `rows * cols`
    /// elements, every element inside the scalar saturation range.
    pub open spec fn wf(self) -> bool {
        &&& self.rows <= DIM_MAX
        &&& self.cols <= DIM_MAX
        &&& self.data.len() == self.rows * self.cols
        &&& forall|k: int|
            0 <= k < self.data.len() ==> -VAL_MAX <= #[trigger] self.data[k] <= VAL_MAX
    }

    /// The element in row `i`, column `j`.
    pub open spec fn at(self, i: int, j: int) -> int {
        self.data[i * self.cols + j] as int
    }

    /// Row `i` as a sequence.
    pub open spec fn row_seq(self, i: int) -> Seq<i64> {
        Seq::new(self.cols as nat, |j: int| self.data[i * self.cols + j])
    }

    /// Column `j` as a sequence.
    pub open spec fn col_seq(self, j: int) -> Seq<i64> {
        Seq::new(self.rows as nat, |i: int| self.data[i * self.cols + j])
    }

    /// An all-zero matrix.
    pub fn zeros(rows: usize, cols: usize) -> (r: TokenMatrix)
        requires
            rows <= DIM_MAX,
            cols <= DIM_MAX,
        ensures
            r.wf(),
            r.rows == rows,
            r.cols == cols,
            forall|i: int, j: int| 0 <= i < rows && 0 <= j < cols ==> r.at(i, j) == 0,
    {
        proof {
            lemma_mul_upper_bound(rows as int, DIM_MAX as int, cols as int, DIM_MAX as int);
            lemma_mul_nonnegative(rows as int, cols as int);
        }
        let n: usize = rows * cols;
        let data: Vec<i64> = filled(n, 0);
        let r = TokenMatrix { rows, cols, data };
        proof {
            assert forall|i: int, j: int| 0 <= i < rows && 0 <= j < cols implies r.at(i, j)
                == 0 by {
                lemma_row_major_index(i, j, rows as int, cols as int);
            }
        }
        r
    }

    /// Read one element; the result carries the range bound from `wf`.
    pub fn get(&self, i: usize, j: usize) -> (r: i64)
        requires
            self.wf(),
            i < self.rows,
            j < self.cols,
        ensures
            r as int == self.at(i as int, j as int),
            -VAL_MAX <= r <= VAL_MAX,
    {
        proof {
            lemma_row_major_index(i as int, j as int, self.rows as int, self.cols as int);
            lemma_mul_upper_bound(i as int, DIM_MAX as int, self.cols as int, DIM_MAX as int);
        }
        let idx: usize = i * self.cols + j;
        let r: i64 = self.data[idx];
        assert(-VAL_MAX <= self.data[idx as int] <= VAL_MAX);
        r
    }

    /// Overwrite one element.
    pub fn set(&mut self, i: usize, j: usize, v: i64)
        requires
            old(self).wf(),
            i < old(self).rows,
            j < old(self).cols,
            -VAL_MAX <= v <= VAL_MAX,
        ensures
            final(self).wf(),
            final(self).rows == old(self).rows,
            final(self).cols == old(self).cols,
            final(self).at(i as int, j as int) == v,
            forall|i2: int, j2: int|
                0 <= i2 < old(self).rows && 0 <= j2 < old(self).cols && !(i2 == i && j2 == j)
                    ==> final(self).at(i2, j2) == old(self).at(i2, j2),
    {
        proof {
            lemma_row_major_index(i as int, j as int, self.rows as int, self.cols as int);
            lemma_mul_upper_bound(i as int, DIM_MAX as int, self.cols as int, DIM_MAX as int);
        }
        let idx: usize = i * self.cols + j;
        self.data.set(idx, v);
        proof {
            assert forall|i2: int, j2: int|
                0 <= i2 < self.rows && 0 <= j2 < self.cols && !(i2 == i && j2 == j) implies self.at(
                i2,
                j2,
            ) == old(self).at(i2, j2) by {
                lemma_row_major_index(i2, j2, self.rows as int, self.cols as int);
                lemma_row_major_distinct(
                    i as int,
                    j as int,
                    i2,
                    j2,
                    self.cols as int,
                );
            }
        }
    }

    /// Build a matrix from a flat row-major vector, checking every
    /// requirement; returns `None` exactly when one fails.
    pub fn from_vec(rows: usize, cols: usize, data: Vec<i64>) -> (r: Option<TokenMatrix>)
        ensures
            r is Some <==> rows <= DIM_MAX && cols <= DIM_MAX && data.len() == rows * cols
                && (forall|k: int| 0 <= k < data.len() ==> -VAL_MAX <= #[trigger] data[k] <= VAL_MAX),
            r is Some ==> {
                let m = r->Some_0;
                m.rows == rows && m.cols == cols && m.data == data && m.wf()
            },
    {
        if rows > DIM_MAX || cols > DIM_MAX {
            return None;
        }
        proof {
            lemma_mul_upper_bound(rows as int, DIM_MAX as int, cols as int, DIM_MAX as int);
            lemma_mul_nonnegative(rows as int, cols as int);
        }
        let n: usize = rows * cols;
        if data.len() != n {
            return None;
        }
        let mut k: usize = 0;
        while k < data.len()
            invariant
                k <= data.len(),
                forall|t: int| 0 <= t < k ==> -VAL_MAX <= #[trigger] data[t] <= VAL_MAX,
            decreases data.len() - k,
        {
            let v: i64 = data[k];
            if v > VAL_MAX || v < -VAL_MAX {
                return None;
            }
            k = k + 1;
        }
        Some(TokenMatrix { rows, cols, data })
    }

    /// Copy row `i` out as a vector.
    pub fn row(&self, i: usize) -> (r: Vec<i64>)
        requires
            self.wf(),
            i < self.rows,
        ensures
            r@ == self.row_seq(i as int),
            r.len() == self.cols,
            forall|j: int| 0 <= j < self.cols ==> -VAL_MAX <= #[trigger] r[j] <= VAL_MAX,
    {
        let mut out: Vec<i64> = Vec::new();
        let mut j: usize = 0;
        while j < self.cols
            invariant
                self.wf(),
                i < self.rows,
                j <= self.cols,
                out.len() == j,
                forall|t: int| 0 <= t < j ==> #[trigger] out[t] == self.at(i as int, t),
                forall|t: int| 0 <= t < j ==> -VAL_MAX <= #[trigger] out[t] <= VAL_MAX,
            decreases self.cols - j,
        {
            let v: i64 = self.get(i, j);
            out.push(v);
            j = j + 1;
        }
        proof {
            assert(out@ =~= self.row_seq(i as int));
        }
        out
    }

    /// Copy column `j` out as a vector.
    pub fn col(&self, j: usize) -> (r: Vec<i64>)
        requires
            self.wf(),
            j < self.cols,
        ensures
            r@ == self.col_seq(j as int),
            r.len() == self.rows,
            forall|i: int| 0 <= i < self.rows ==> -VAL_MAX <= #[trigger] r[i] <= VAL_MAX,
    {
        let mut out: Vec<i64> = Vec::new();
        let mut i: usize = 0;
        while i < self.rows
            invariant
                self.wf(),
                j < self.cols,
                i <= self.rows,
                out.len() == i,
                forall|t: int| 0 <= t < i ==> #[trigger] out[t] == self.at(t, j as int),
                forall|t: int| 0 <= t < i ==> -VAL_MAX <= #[trigger] out[t] <= VAL_MAX,
            decreases self.rows - i,
        {
            let v: i64 = self.get(i, j);
            out.push(v);
            i = i + 1;
        }
        proof {
            assert(out@ =~= self.col_seq(j as int));
        }
        out
    }
}

/// Prefix dot product of two scalar sequences: the sum of the first `k`
/// pairwise products, as an unbounded integer.
pub open spec fn sdot(x: Seq<i64>, y: Seq<i64>, k: int) -> int
    decreases k,
{
    if k <= 0 {
        0
    } else {
        sdot(x, y, k - 1) + (x[k - 1] as int) * (y[k - 1] as int)
    }
}

/// The matrix product element: dot of row `i` of `a` and column `j` of
/// `b`, rescaled and saturated.
pub open spec fn mm_at(a: TokenMatrix, b: TokenMatrix, i: int, j: int) -> int {
    sat_val(tdiv(sdot(a.row_seq(i), b.col_seq(j), a.cols as int), SCALE as int))
}

/// The transposed product element: dot of row `i` of `a` and row `j` of
/// `b`, rescaled and saturated.
pub open spec fn mm_nt_at(a: TokenMatrix, b: TokenMatrix, i: int, j: int) -> int {
    sat_val(tdiv(sdot(a.row_seq(i), b.row_seq(j), a.cols as int), SCALE as int))
}

proof fn lemma_prod_bound(x: int, y: int, m: int)
    requires
        0 <= m,
        -m <= x <= m,
        -m <= y <= m,
    ensures
        -m * m <= x * y <= m * m,
{
    assert(-m * m <= x * y <= m * m) by (nonlinear_arith)
        requires
            0 <= m,
            -m <= x <= m,
            -m <= y <= m,
    ;
}

/// Rescaled, saturated dot product of two equally long scalar vectors.
pub fn dot_sat(x: &Vec<i64>, y: &Vec<i64>) -> (r: i64)
    requires
        x.len() == y.len(),
        x.len() <= DIM_MAX,
        forall|k: int| 0 <= k < x.len() ==> -VAL_MAX <= #[trigger] x[k] <= VAL_MAX,
        forall|k: int| 0 <= k < y.len() ==> -VAL_MAX <= #[trigger] y[k] <= VAL_MAX,
    ensures
        r as int == sat_val(tdiv(sdot(x@, y@, x.len() as int), SCALE as int)),
        -VAL_MAX <= r <= VAL_MAX,
{
    let ghost vmax2: int = (VAL_MAX as int) * (VAL_MAX as int);
    let mut acc: i128 = 0;
    let mut k: usize = 0;
    while k < x.len()
        invariant
            x.len() == y.len(),
            x.len() <= DIM_MAX,
            k <= x.len(),
            forall|t: int| 0 <= t < x.len() ==> -VAL_MAX <= #[trigger] x[t] <= VAL_MAX,
            forall|t: int| 0 <= t < y.len() ==> -VAL_MAX <= #[trigger] y[t] <= VAL_MAX,
            acc as int == sdot(x@, y@, k as int),
            acc as int <= (k as int) * vmax2,
            -((k as int) * vmax2) <= acc as int,
            vmax2 == (VAL_MAX as int) * (VAL_MAX as int),
        decreases x.len() - k,
    {
        let xv: i64 = x[k];
        let yv: i64 = y[k];
        let p: i128 = mul_wide(xv, yv);
        proof {
            lemma_prod_bound(xv as int, yv as int, VAL_MAX as int);
            assert((k as int) * vmax2 + vmax2 == (k as int + 1) * vmax2) by (nonlinear_arith);
            assert((k as int + 1) * vmax2 <= (DIM_MAX as int) * vmax2) by (nonlinear_arith)
                requires
                    k as int + 1 <= DIM_MAX as int,
                    0 <= vmax2,
            ;
            assert((DIM_MAX as int) * ((VAL_MAX as int) * (VAL_MAX as int))
                < 85070591730234615865843651857942052864) by (nonlinear_arith);
        }
        acc = acc + p;
        k = k + 1;
    }
    proof {
        assert((DIM_MAX as int) * ((VAL_MAX as int) * (VAL_MAX as int))
            < 85070591730234615865843651857942052864) by (nonlinear_arith);
        assert((k as int) * vmax2 <= (DIM_MAX as int) * vmax2) by (nonlinear_arith)
            requires
                k as int <= DIM_MAX as int,
                0 <= vmax2,
        ;
    }
    let q: i128 = tdiv128(acc, SCALE as i128);
    sat_narrow(q)
}

/// Matrix product `a * b` in fixed point.
pub fn matmul(a: &TokenMatrix, b: &TokenMatrix) -> (r: TokenMatrix)
    requires
        a.wf(),
        b.wf(),
        a.cols == b.rows,
    ensures
        r.wf(),
        r.rows == a.rows,
        r.cols == b.cols,
        forall|i: int, j: int|
            0 <= i < a.rows && 0 <= j < b.cols ==> #[trigger] r.at(i, j) == mm_at(*a, *b, i, j),
{
    let rows: usize = a.rows;
    let cols: usize = b.cols;
    let mut data: Vec<i64> = Vec::new();
    let mut i: usize = 0;
    while i < rows
        invariant
            a.wf(),
            b.wf(),
            a.cols == b.rows,
            rows == a.rows,
            cols == b.cols,
            i <= rows,
            data.len() == i * cols,
            forall|t: int|
                0 <= t < data.len() ==> #[trigger] data[t] as int == mm_at(
                    *a,
                    *b,
                    t / (cols as int),
                    t % (cols as int),
                ),
            forall|t: int| 0 <= t < data.len() ==> -VAL_MAX <= #[trigger] data[t] <= VAL_MAX,
        decreases rows - i,
    {
        let arow: Vec<i64> = a.row(i);
        let mut j: usize = 0;
        while j < cols
            invariant
                a.wf(),
                b.wf(),
                a.cols == b.rows,
                rows == a.rows,
                cols == b.cols,
                i < rows,
                j <= cols,
                arow@ == a.row_seq(i as int),
                arow.len() == a.cols,
                forall|t: int| 0 <= t < arow.len() ==> -VAL_MAX <= #[trigger] arow[t] <= VAL_MAX,
                data.len() == i * cols + j,
                forall|t: int|
                    0 <= t < data.len() ==> #[trigger] data[t] as int == mm_at(
                        *a,
                        *b,
                        t / (cols as int),
                        t % (cols as int),
                    ),
                forall|t: int| 0 <= t < data.len() ==> -VAL_MAX <= #[trigger] data[t] <= VAL_MAX,
            decreases cols - j,
        {
            let bcol: Vec<i64> = b.col(j);
            let v: i64 = dot_sat(&arow, &bcol);
            proof {
                lemma_row_major_index(i as int, j as int, rows as int, cols as int);
                lemma_row_major_divmod(i as int, j as int, cols as int);
            }
            data.push(v);
            j = j + 1;
        }
        proof {
            assert((i as int) * cols + cols == (i as int + 1) * cols) by (nonlinear_arith);
        }
        i = i + 1;
    }
    let r = TokenMatrix { rows, cols, data };
    proof {
        assert forall|i2: int, j2: int|
            0 <= i2 < rows && 0 <= j2 < cols implies #[trigger] r.at(i2, j2) == mm_at(
            *a,
            *b,
            i2,
            j2,
        ) by {
            lemma_row_major_index(i2, j2, rows as int, cols as int);
            lemma_row_major_divmod(i2, j2, cols as int);
        }
        assert(rows * cols <= DIM_MAX * DIM_MAX) by (nonlinear_arith)
            requires
                rows <= DIM_MAX,
                cols <= DIM_MAX,
        ;
    }
    r
}

/// Matrix product `a * b^T` in fixed point.
pub fn matmul_nt(a: &TokenMatrix, b: &TokenMatrix) -> (r: TokenMatrix)
    requires
        a.wf(),
        b.wf(),
        a.cols == b.cols,
    ensures
        r.wf(),
        r.rows == a.rows,
        r.cols == b.rows,
        forall|i: int, j: int|
            0 <= i < a.rows && 0 <= j < b.rows ==> #[trigger] r.at(i, j) == mm_nt_at(*a, *b, i, j),
{
    let rows: usize = a.rows;
    let cols: usize = b.rows;
    let mut data: Vec<i64> = Vec::new();
    let mut i: usize = 0;
    while i < rows
        invariant
            a.wf(),
            b.wf(),
            a.cols == b.cols,
            rows == a.rows,
            cols == b.rows,
            i <= rows,
            data.len() == i * cols,
            forall|t: int|
                0 <= t < data.len() ==> #[trigger] data[t] as int == mm_nt_at(
                    *a,
                    *b,
                    t / (cols as int),
                    t % (cols as int),
                ),
            forall|t: int| 0 <= t < data.len() ==> -VAL_MAX <= #[trigger] data[t] <= VAL_MAX,
        decreases rows - i,
    {
        let arow: Vec<i64> = a.row(i);
        let mut j: usize = 0;
        while j < cols
            invariant
                a.wf(),
                b.wf(),
                a.cols == b.cols,
                rows == a.rows,
                cols == b.rows,
                i < rows,
                j <= cols,
                arow@ == a.row_seq(i as int),
                arow.len() == a.cols,
                forall|t: int| 0 <= t < arow.len() ==> -VAL_MAX <= #[trigger] arow[t] <= VAL_MAX,
                data.len() == i * cols + j,
                forall|t: int|
                    0 <= t < data.len() ==> #[trigger] data[t] as int == mm_nt_at(
                        *a,
                        *b,
                        t / (cols as int),
                        t % (cols as int),
                    ),
                forall|t: int| 0 <= t < data.len() ==> -VAL_MAX <= #[trigger] data[t] <= VAL_MAX,
            decreases cols - j,
        {
            let brow: Vec<i64> = b.row(j);
            let v: i64 = dot_sat(&arow, &brow);
            proof {
                lemma_row_major_index(i as int, j as int, rows as int, cols as int);
                lemma_row_major_divmod(i as int, j as int, cols as int);
            }
            data.push(v);
            j = j + 1;
        }
        proof {
            assert((i as int) * cols + cols == (i as int + 1) * cols) by (nonlinear_arith);
        }
        i = i + 1;
    }
    let r = TokenMatrix { rows, cols, data };
    proof {
        assert forall|i2: int, j2: int|
            0 <= i2 < rows && 0 <= j2 < cols implies #[trigger] r.at(i2, j2) == mm_nt_at(
            *a,
            *b,
            i2,
            j2,
        ) by {
            lemma_row_major_index(i2, j2, rows as int, cols as int);
            lemma_row_major_divmod(i2, j2, cols as int);
        }
        assert(rows * cols <= DIM_MAX * DIM_MAX) by (nonlinear_arith)
            requires
                rows <= DIM_MAX,
                cols <= DIM_MAX,
        ;
    }
    r
}

/// Elementwise saturating sum of two equally shaped matrices.
pub fn mat_add(a: &TokenMatrix, b: &TokenMatrix) -> (r: TokenMatrix)
    requires
        a.wf(),
        b.wf(),
        a.rows == b.rows,
        a.cols == b.cols,
    ensures
        r.wf(),
        r.rows == a.rows,
        r.cols == a.cols,
        forall|i: int, j: int|
            0 <= i < a.rows && 0 <= j < a.cols ==> #[trigger] r.at(i, j) == fadd(
                a.at(i, j),
                b.at(i, j),
            ),
{
    let mut out = TokenMatrix::zeros(a.rows, a.cols);
    let mut i: usize = 0;
    while i < a.rows
        invariant
            a.wf(),
            b.wf(),
            a.rows == b.rows,
            a.cols == b.cols,
            out.wf(),
            out.rows == a.rows,
            out.cols == a.cols,
            i <= a.rows,
            forall|i2: int, j2: int|
                0 <= i2 < i && 0 <= j2 < a.cols ==> #[trigger] out.at(i2, j2) == fadd(
                    a.at(i2, j2),
                    b.at(i2, j2),
                ),
        decreases a.rows - i,
    {
        let mut j: usize = 0;
        while j < a.cols
            invariant
                a.wf(),
                b.wf(),
                a.rows == b.rows,
                a.cols == b.cols,
                out.wf(),
                out.rows == a.rows,
                out.cols == a.cols,
                i < a.rows,
                j <= a.cols,
                forall|i2: int, j2: int|
                    0 <= i2 < i && 0 <= j2 < a.cols ==> #[trigger] out.at(i2, j2) == fadd(
                        a.at(i2, j2),
                        b.at(i2, j2),
                    ),
                forall|j2: int|
                    0 <= j2 < j ==> #[trigger] out.at(i as int, j2) == fadd(
                        a.at(i as int, j2),
                        b.at(i as int, j2),
                    ),
            decreases a.cols - j,
        {
            let v: i64 = add_fx(a.get(i, j), b.get(i, j));
            out.set(i, j, v);
            j = j + 1;
        }
        i = i + 1;
    }
    out
}

/// Matrices with the same shape and the same elements are the same value.
pub proof fn lemma_same_elements(a: TokenMatrix, b: TokenMatrix)
    requires
        a.wf(),
        b.wf(),
        a.rows == b.rows,
        a.cols == b.cols,
        forall|i: int, j: int|
            0 <= i < a.rows && 0 <= j < a.cols ==> #[trigger] a.at(i, j) == #[trigger] b.at(i, j),
    ensures
        a.data@ == b.data@,
{
    assert forall|k: int| 0 <= k < a.data.len() implies a.data[k] == b.data[k] by {
        let cols = a.cols as int;
        if cols > 0 {
            let i = k / cols;
            let j = k % cols;
            vstd::arithmetic::div_mod::lemma_fundamental_div_mod(k, cols);
            vstd::arithmetic::div_mod::lemma_mod_bound(k, cols);
            assert(i < a.rows) by (nonlinear_arith)
                requires
                    k < a.rows * cols,
                    k == cols * i + j,
                    0 <= j < cols,
                    0 <= i,
            ;
            vstd::arithmetic::div_mod::lemma_div_pos_is_pos(k, cols);
            assert(k == i * cols + j) by (nonlinear_arith)
                requires
                    k == cols * i + j,
            ;
            assert(a.at(i, j) == b.at(i, j));
            assert(a.data[k] as int == a.at(i, j));
            assert(b.data[k] as int == b.at(i, j));
        }
    }
    assert(a.data@ =~= b.data@);
}

/// A vector of `len` copies of `v`.
pub fn filled(len: usize, v: i64) -> (r: Vec<i64>)
    ensures
        r.len() == len,
        forall|k: int| 0 <= k < len ==> #[trigger] r[k] == v,
{
    let mut out: Vec<i64> = Vec::new();
    let mut k: usize = 0;
    while k < len
        invariant
            out.len() == k,
            k <= len,
            forall|t: int| 0 <= t < k ==> #[trigger] out[t] == v,
        decreases len - k,
    {
        out.push(v);
        k = k + 1;
    }
    out
}

/// A flat row-major index decomposes back into its row and column.
pub proof fn lemma_row_major_divmod(i: int, j: int, cols: int)
    requires
        0 <= i,
        0 <= j < cols,
    ensures
        (i * cols + j) / cols == i,
        (i * cols + j) % cols == j,
{
    assert(i * cols + j == i * cols + j);
    vstd::arithmetic::div_mod::lemma_fundamental_div_mod_converse_div(i * cols + j, cols, i, j);
    vstd::arithmetic::div_mod::lemma_fundamental_div_mod_converse_mod(i * cols + j, cols, i, j);
}

/// Row-major index arithmetic: the flat index is inside the matrix.
pub proof fn lemma_row_major_index(i: int, j: int, rows: int, cols: int)
    requires
        0 <= i < rows,
        0 <= j < cols,
    ensures
        0 <= i * cols + j < rows * cols,
        i * cols + j < rows * cols,
{
    assert(0 <= i * cols + j < rows * cols) by (nonlinear_arith)
        requires
            0 <= i < rows,
            0 <= j < cols,
    ;
}

/// Distinct positions give distinct flat indices.
pub proof fn lemma_row_major_distinct(i1: int, j1: int, i2: int, j2: int, cols: int)
    requires
        0 <= j1 < cols,
        0 <= j2 < cols,
        0 <= i1,
        0 <= i2,
        !(i1 == i2 && j1 == j2),
    ensures
        i1 * cols + j1 != i2 * cols + j2,
{
    assert(i1 * cols + j1 != i2 * cols + j2) by (nonlinear_arith)
        requires
            0 <= j1 < cols,
            0 <= j2 < cols,
            0 <= i1,
            0 <= i2,
            !(i1 == i2 && j1 == j2),
    ;
}


/// Assemble a matrix from a vector of equally long rows.
pub fn rows_to_matrix(rows_in: Vec<Vec<i64>>, cols: usize) -> (r: TokenMatrix)
    requires
        rows_in.len() <= DIM_MAX,
        cols <= DIM_MAX,
        forall|i: int| 0 <= i < rows_in.len() ==> (#[trigger] rows_in[i]).len() == cols,
        forall|i: int, k: int|
            0 <= i < rows_in.len() && 0 <= k < cols ==> -VAL_MAX <= #[trigger] rows_in[i][k]
                <= VAL_MAX,
    ensures
        r.wf(),
        r.rows == rows_in.len(),
        r.cols == cols,
        forall|i: int| 0 <= i < rows_in.len() ==> #[trigger] r.row_seq(i) == rows_in[i]@,
        forall|i: int, k: int|
            0 <= i < rows_in.len() && 0 <= k < cols ==> #[trigger] r.at(i, k) == rows_in[i][k],
{
    let nrows: usize = rows_in.len();
    let mut data: Vec<i64> = Vec::new();
    let mut i: usize = 0;
    while i < nrows
        invariant
            nrows == rows_in.len() <= DIM_MAX,
            cols <= DIM_MAX,
            forall|i2: int| 0 <= i2 < rows_in.len() ==> (#[trigger] rows_in[i2]).len() == cols,
            forall|i2: int, k: int|
                0 <= i2 < rows_in.len() && 0 <= k < cols ==> -VAL_MAX
                    <= #[trigger] rows_in[i2][k] <= VAL_MAX,
            i <= nrows,
            data.len() == i * cols,
            forall|t: int|
                0 <= t < data.len() ==> #[trigger] data[t] == rows_in[t / (cols as int)][t % (
                cols as int)],
            forall|t: int| 0 <= t < data.len() ==> -VAL_MAX <= #[trigger] data[t] <= VAL_MAX,
        decreases nrows - i,
    {
        let mut k: usize = 0;
        while k < cols
            invariant
                nrows == rows_in.len() <= DIM_MAX,
                cols <= DIM_MAX,
                forall|i2: int| 0 <= i2 < rows_in.len() ==> (#[trigger] rows_in[i2]).len() == cols,
                forall|i2: int, k2: int|
                    0 <= i2 < rows_in.len() && 0 <= k2 < cols ==> -VAL_MAX
                        <= #[trigger] rows_in[i2][k2] <= VAL_MAX,
                i < nrows,
                k <= cols,
                data.len() == i * cols + k,
                forall|t: int|
                    0 <= t < data.len() ==> #[trigger] data[t] == rows_in[t / (cols as int)][t % (
                    cols as int)],
                forall|t: int| 0 <= t < data.len() ==> -VAL_MAX <= #[trigger] data[t] <= VAL_MAX,
            decreases cols - k,
        {
            let v: i64 = rows_in[i][k];
            proof {
                lemma_row_major_index(i as int, k as int, nrows as int, cols as int);
                lemma_row_major_divmod(i as int, k as int, cols as int);
            }
            data.push(v);
            k = k + 1;
        }
        proof {
            assert((i as int) * cols + cols == (i as int + 1) * cols) by (nonlinear_arith);
        }
        i = i + 1;
    }
    let r = TokenMatrix { rows: nrows, cols, data };
    proof {
        assert(nrows * cols <= DIM_MAX * DIM_MAX) by (nonlinear_arith)
            requires
                nrows <= DIM_MAX,
                cols <= DIM_MAX,
        ;
        assert forall|i2: int, k2: int|
            0 <= i2 < nrows && 0 <= k2 < cols implies #[trigger] r.at(i2, k2) == rows_in[i2][k2] by {
            lemma_row_major_index(i2, k2, nrows as int, cols as int);
            lemma_row_major_divmod(i2, k2, cols as int);
        }
        assert forall|i2: int| 0 <= i2 < nrows implies #[trigger] r.row_seq(i2)
            == rows_in[i2]@ by {
            assert forall|k2: int| 0 <= k2 < cols implies r.row_seq(i2)[k2] == rows_in[i2]@[k2] by {
                lemma_row_major_index(i2, k2, nrows as int, cols as int);
                lemma_row_major_divmod(i2, k2, cols as int);
            }
            assert(r.row_seq(i2) =~= rows_in[i2]@);
        }
    }
    r
}


/// Add a row-vector bias (`1 x cols`) to every row of `m`: entry
/// `(i, j)` becomes `m[i][j] + b[0][j]`, saturating.
pub fn add_row_bias(m: &TokenMatrix, b: &TokenMatrix) -> (r: TokenMatrix)
    requires
        m.wf(),
        b.wf(),
        b.rows == 1,
        b.cols == m.cols,
    ensures
        r.wf(),
        r.rows == m.rows,
        r.cols == m.cols,
        forall|i: int, j: int|
            0 <= i < m.rows && 0 <= j < m.cols ==> #[trigger] r.at(i, j) == fadd(
                m.at(i, j),
                b.at(0, j),
            ),
{
    let mut out: TokenMatrix = TokenMatrix::zeros(m.rows, m.cols);
    let mut i: usize = 0;
    while i < m.rows
        invariant
            m.wf(),
            b.wf(),
            b.rows == 1,
            b.cols == m.cols,
            out.wf(),
            out.rows == m.rows,
            out.cols == m.cols,
            i <= m.rows,
            forall|i2: int, j2: int|
                0 <= i2 < i && 0 <= j2 < m.cols ==> #[trigger] out.at(i2, j2) == fadd(
                    m.at(i2, j2),
                    b.at(0, j2),
                ),
        decreases m.rows - i,
    {
        let mut j: usize = 0;
        while j < m.cols
            invariant
                m.wf(),
                b.wf(),
                b.rows == 1,
                b.cols == m.cols,
                out.wf(),
                out.rows == m.rows,
                out.cols == m.cols,
                i < m.rows,
                j <= m.cols,
                forall|i2: int, j2: int|
                    0 <= i2 < i && 0 <= j2 < m.cols ==> #[trigger] out.at(i2, j2) == fadd(
                        m.at(i2, j2),
                        b.at(0, j2),
                    ),
                forall|j2: int|
                    0 <= j2 < j ==> #[trigger] out.at(i as int, j2) == fadd(
                        m.at(i as int, j2),
                        b.at(0, j2),
                    ),
            decreases m.cols - j,
        {
            let v: i64 = add_fx(m.get(i, j), b.get(0, j));
            out.set(i, j, v);
            j = j + 1;
        }
        i = i + 1;
    }
    out
}

} // verus!
