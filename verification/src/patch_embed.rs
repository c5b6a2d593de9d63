//! Patch embedding: split a normalized tensor into a grid of square
//! patches, flatten each patch channel-major then row-major, and project
//! it to an embedding vector with a learned linear map.
//!
//! Rows or columns that do not fill a complete patch are dropped, not
//! padded: the grid is `(H / P) x (W / P)` with integer division.

use vstd::prelude::*;
use crate::fixed::{tdiv, sat_val, fadd, SCALE, VAL_MAX, DIM_MAX};
use crate::matrix::{TokenMatrix, sdot, matmul_nt, rows_to_matrix};
use crate::processor::NormalizedTensor;
use crate::sampling::sample_normal_fx;

verus! {

/// Element `d` of the flattened patch `i` of `img`: patches are indexed
/// row-major over the grid, and each patch is flattened channel-major,
/// then row-major within the channel.
pub open spec fn patch_elem(img: NormalizedTensor, psize: int, i: int, d: int) -> int {
    let pw = img.width as int / psize;
    let pi = i / pw;
    let pj = i % pw;
    let c = d / (psize * psize);
    let rest = d % (psize * psize);
    let dy = rest / psize;
    let dx = rest % psize;
    img.at(c, pi * psize + dy, pj * psize + dx)
}

/// The whole flattened patch `i`, of length `3 * P * P`.
pub open spec fn patch_row(img: NormalizedTensor, psize: int, i: int) -> Seq<i64> {
    Seq::new((3 * (psize * psize)) as nat, |d: int| patch_elem(img, psize, i, d) as i64)
}

/// The patch embedder: a learned projection from flattened patches of
/// `3 * P * P` values to vectors of `embed_dim` values, plus a bias.
pub struct PatchEmbed {
    pub patch_size: usize,
    pub embed_dim: usize,
    pub weight: TokenMatrix,
    pub bias: Option<TokenMatrix>,
}

impl PatchEmbed {
    /// The flattened patch length.
    pub open spec fn patch_dim(self) -> int {
        3 * (self.patch_size * self.patch_size)
    }

    /// Shapes hang together: weight is `embed_dim x patch_dim`, the bias
    /// (when present) is `embed_dim x 1`.
    pub open spec fn wf(self) -> bool {
        &&& 1 <= self.patch_size
        &&& 3 * (self.patch_size * self.patch_size) <= DIM_MAX
        &&& 1 <= self.embed_dim <= DIM_MAX
        &&& self.weight.wf()
        &&& self.weight.rows == self.embed_dim
        &&& self.weight.cols == self.patch_dim()
        &&& match self.bias {
            Some(b) => b.wf() && b.rows == self.embed_dim && b.cols == 1,
            None => true,
        }
    }

    /// The embedding of patch `i`, dimension `j`: the rescaled dot
    /// product of the flattened patch with row `j` of the weight, plus
    /// the bias for dimension `j`.
    pub open spec fn embed_val(self, img: NormalizedTensor, i: int, j: int) -> int {
        let proj = sat_val(
            tdiv(
                sdot(
                    patch_row(img, self.patch_size as int, i),
                    self.weight.row_seq(j),
                    self.patch_dim(),
                ),
                SCALE as int,
            ),
        );
        match self.bias {
            Some(b) => fadd(proj, b.at(j, 0)),
            None => proj,
        }
    }

    /// A patch embedder with standard-normal initial weights and bias.
    /// `None` exactly when the requested shape is out of bounds.
    pub fn new(patch_size: usize, embed_dim: usize) -> (r: Option<PatchEmbed>)
        ensures
            r is Some <==> 1 <= patch_size && 3 * (patch_size * patch_size) <= DIM_MAX && 1
                <= embed_dim <= DIM_MAX,
            r is Some ==> {
                let e = r->Some_0;
                e.wf() && e.patch_size == patch_size && e.embed_dim == embed_dim && e.bias is Some
            },
    {
        if patch_size < 1 || embed_dim < 1 || embed_dim > DIM_MAX {
            return None;
        }
        if patch_size > 104 {
            proof {
                assert(3 * (patch_size * patch_size) > DIM_MAX) by (nonlinear_arith)
                    requires
                        patch_size as int > 104,
                ;
            }
            return None;
        }
        proof {
            assert(3 * (patch_size * patch_size) <= DIM_MAX) by (nonlinear_arith)
                requires
                    1 <= patch_size as int <= 104,
            ;
        }
        let patch_dim: usize = 3 * (patch_size * patch_size);
        let weight: TokenMatrix = random_normal_matrix(embed_dim, patch_dim);
        let bias: TokenMatrix = random_normal_matrix(embed_dim, 1);
        Some(PatchEmbed { patch_size, embed_dim, weight, bias: Some(bias) })
    }

    /// Embed every complete patch of `img`.  The output has exactly
    /// `(H / P) * (W / P)` rows and `embed_dim` columns, and element
    /// `(i, j)` is pinned to `embed_val`.
    pub fn forward(&self, img: &NormalizedTensor) -> (r: TokenMatrix)
        requires
            self.wf(),
            img.wf(),
            (img.height as int / self.patch_size as int) * (img.width as int
                / self.patch_size as int) <= DIM_MAX,
        ensures
            r.wf(),
            r.rows == (img.height as int / self.patch_size as int) * (img.width as int
                / self.patch_size as int),
            r.cols == self.embed_dim,
            forall|i: int, j: int|
                0 <= i < r.rows && 0 <= j < r.cols ==> #[trigger] r.at(i, j) == self.embed_val(
                    *img,
                    i,
                    j,
                ),
    {
        let psize: usize = self.patch_size;
        let ph: usize = img.height / psize;
        let pw: usize = img.width / psize;
        proof {
            vstd::arithmetic::div_mod::lemma_div_pos_is_pos(img.height as int, psize as int);
            vstd::arithmetic::div_mod::lemma_div_pos_is_pos(img.width as int, psize as int);
            vstd::arithmetic::mul::lemma_mul_nonnegative(ph as int, pw as int);
        }
        let np: usize = ph * pw;
        let rows: Vec<Vec<i64>> = flatten_patches_parallel(img, psize, np);
        proof {
            assert forall|i: int, k: int|
                0 <= i < rows.len() && 0 <= k < self.patch_dim() implies -VAL_MAX
                <= #[trigger] rows[i][k] <= VAL_MAX by {
                assert(rows[i]@ == patch_row(*img, psize as int, i));
                lemma_patch_layout(*img, psize as int, np as int, i, k);
            }
        }
        let patch_dim: usize = 3 * (psize * psize);
        let patches: TokenMatrix = rows_to_matrix(rows, patch_dim);
        let proj: TokenMatrix = matmul_nt(&patches, &self.weight);
        let out: TokenMatrix = match &self.bias {
            Some(b) => add_col_bias(&proj, b),
            None => proj,
        };
        proof {
            assert forall|i: int, j: int|
                0 <= i < out.rows && 0 <= j < out.cols implies #[trigger] out.at(i, j)
                == self.embed_val(*img, i, j) by {
                assert(patches.row_seq(i) == patch_row(*img, psize as int, i));
            }
        }
        out
    }
}

/// Every flattened-patch element is an element of the tensor: the grid
/// and in-patch coordinates stay inside it, so the value is bounded by
/// the tensor's well-formedness.
proof fn lemma_patch_layout(img: NormalizedTensor, psize: int, np: int, i: int, d: int)
    requires
        img.wf(),
        1 <= psize,
        0 <= i < np,
        np == (img.height as int / psize) * (img.width as int / psize),
        0 <= d < 3 * (psize * psize),
    ensures
        -VAL_MAX <= patch_elem(img, psize, i, d) <= VAL_MAX,
        1 <= img.width as int / psize,
        d / (psize * psize) < 3,
        (i / (img.width as int / psize)) * psize + (d % (psize * psize)) / psize
            < img.height as int,
        (i % (img.width as int / psize)) * psize + (d % (psize * psize)) % psize
            < img.width as int,
        0 <= i / (img.width as int / psize),
        0 <= i % (img.width as int / psize),
{
    let h = img.height as int;
    let w = img.width as int;
    let ph = h / psize;
    let pw = w / psize;
    let pp = psize * psize;
    vstd::arithmetic::div_mod::lemma_div_pos_is_pos(h, psize);
    vstd::arithmetic::div_mod::lemma_div_pos_is_pos(w, psize);
    assert(psize * psize >= 1) by (nonlinear_arith)
        requires
            psize >= 1,
    ;
    if pw == 0 {
        assert(np == 0) by (nonlinear_arith)
            requires
                np == ph * pw,
                pw == 0,
        ;
    }
    if ph == 0 {
        assert(np == 0) by (nonlinear_arith)
            requires
                np == ph * pw,
                ph == 0,
        ;
    }
    let pi = i / pw;
    let pj = i % pw;
    let c = d / pp;
    let rest = d % pp;
    let dy = rest / psize;
    let dx = rest % psize;
    vstd::arithmetic::div_mod::lemma_mod_bound(i, pw);
    vstd::arithmetic::div_mod::lemma_div_pos_is_pos(i, pw);
    vstd::arithmetic::div_mod::lemma_fundamental_div_mod(i, pw);
    assert(pi < ph) by (nonlinear_arith)
        requires
            i < ph * pw,
            i == pw * pi + pj,
            0 <= pj < pw,
            0 <= pi,
    ;
    vstd::arithmetic::div_mod::lemma_mod_bound(d, pp);
    vstd::arithmetic::div_mod::lemma_div_pos_is_pos(d, pp);
    vstd::arithmetic::div_mod::lemma_fundamental_div_mod(d, pp);
    assert(c < 3) by (nonlinear_arith)
        requires
            d < 3 * pp,
            d == pp * c + rest,
            0 <= rest < pp,
            0 <= c,
    ;
    vstd::arithmetic::div_mod::lemma_mod_bound(rest, psize);
    vstd::arithmetic::div_mod::lemma_div_pos_is_pos(rest, psize);
    vstd::arithmetic::div_mod::lemma_fundamental_div_mod(rest, psize);
    assert(dy < psize) by (nonlinear_arith)
        requires
            rest < pp,
            pp == psize * psize,
            rest == psize * dy + dx,
            0 <= dx < psize,
            0 <= dy,
    ;
    vstd::arithmetic::div_mod::lemma_fundamental_div_mod(h, psize);
    vstd::arithmetic::div_mod::lemma_mod_bound(h, psize);
    assert(pi * psize + dy < h) by (nonlinear_arith)
        requires
            pi < ph,
            dy < psize,
            h == psize * ph + (h % psize),
            0 <= h % psize,
            0 <= pi,
            0 <= dy,
            1 <= psize,
    ;
    vstd::arithmetic::div_mod::lemma_fundamental_div_mod(w, psize);
    vstd::arithmetic::div_mod::lemma_mod_bound(w, psize);
    assert(pj * psize + dx < w) by (nonlinear_arith)
        requires
            pj < pw,
            dx < psize,
            w == psize * pw + (w % psize),
            0 <= w % psize,
            0 <= pj,
            0 <= dx,
            1 <= psize,
    ;
    let yy = pi * psize + dy;
    let xx = pj * psize + dx;
    assert(0 <= (c * img.height + yy) * img.width + xx < 3 * (img.height * img.width))
        by (nonlinear_arith)
        requires
            0 <= c < 3,
            0 <= yy < img.height as int,
            0 <= xx < img.width as int,
    ;
    assert(-VAL_MAX <= img.data[(c * img.height + yy) * img.width + xx] <= VAL_MAX);
}

/// Flatten one patch into its `3 * P * P` vector.
pub fn flatten_patch(img: &NormalizedTensor, psize: usize, np: usize, i: usize) -> (r: Vec<i64>)
    requires
        img.wf(),
        1 <= psize,
        3 * (psize * psize) <= DIM_MAX,
        i < np,
        np == (img.height as int / psize as int) * (img.width as int / psize as int),
    ensures
        r@ == patch_row(*img, psize as int, i as int),
        forall|k: int| 0 <= k < r.len() ==> -VAL_MAX <= #[trigger] r[k] <= VAL_MAX,
{
    proof {
        assert(psize * psize >= 1) by (nonlinear_arith)
            requires
                psize as int >= 1,
        ;
        lemma_patch_layout(*img, psize as int, np as int, i as int, 0);
    }
    let pp: usize = psize * psize;
    let patch_dim: usize = 3 * pp;
    let pw: usize = img.width / psize;
    let pi: usize = i / pw;
    let pj: usize = i % pw;
    let mut out: Vec<i64> = Vec::new();
    let mut d: usize = 0;
    while d < patch_dim
        invariant
            img.wf(),
            1 <= psize,
            pp == psize * psize,
            patch_dim == 3 * pp,
            3 * (psize * psize) <= DIM_MAX,
            i < np,
            np == (img.height as int / psize as int) * (img.width as int / psize as int),
            pw == img.width as int / psize as int,
            1 <= pw,
            pi == i as int / pw as int,
            pj == i as int % pw as int,
            d <= patch_dim,
            out.len() == d,
            forall|t: int|
                0 <= t < d ==> #[trigger] out[t] as int == patch_elem(
                    *img,
                    psize as int,
                    i as int,
                    t,
                ),
            forall|t: int| 0 <= t < d ==> -VAL_MAX <= #[trigger] out[t] <= VAL_MAX,
        decreases patch_dim - d,
    {
        proof {
            lemma_patch_layout(*img, psize as int, np as int, i as int, d as int);
        }
        let c: usize = d / pp;
        let rest: usize = d % pp;
        let dy: usize = rest / psize;
        let dx: usize = rest % psize;
        let v: i64 = img.get(c, pi * psize + dy, pj * psize + dx);
        out.push(v);
        d = d + 1;
    }
    proof {
        assert(out@ =~= patch_row(*img, psize as int, i as int));
    }
    out
}

/// Relies on rayon: a parallel iterator over the patch indices calls the
/// verified `flatten_patch` for each and collects the rows in index
/// order.
#[verifier::external_body]
fn flatten_patches_parallel(img: &NormalizedTensor, psize: usize, np: usize) -> (r: Vec<Vec<i64>>)
    requires
        img.wf(),
        1 <= psize,
        3 * (psize * psize) <= DIM_MAX,
        np == (img.height as int / psize as int) * (img.width as int / psize as int),
    ensures
        r.len() == np,
        forall|i: int| 0 <= i < np ==> (#[trigger] r[i])@ == patch_row(*img, psize as int, i),
        forall|i: int| 0 <= i < np ==> (#[trigger] r[i]).len() == 3 * (psize * psize),
{
    rayon::iter::ParallelIterator::collect(rayon::iter::ParallelIterator::map(
        rayon::iter::IntoParallelIterator::into_par_iter(0..np),
        |i| flatten_patch(img, psize, np, i),
    ))
}

/// Copy a flattened patch in fixed-width lanes of eight with a scalar
/// tail, the layout the vectorized strategy uses; the content is
/// unchanged.
pub fn flatten_patch_simd(input: &Vec<i64>) -> (r: Vec<i64>)
    ensures
        r@ == input@,
{
    let mut out: Vec<i64> = Vec::new();
    let mut k: usize = 0;
    while input.len() - k >= 8
        invariant
            k <= input.len(),
            out.len() == k,
            forall|t: int| 0 <= t < k ==> #[trigger] out[t] == input[t],
        decreases input.len() - k,
    {
        let mut lane: usize = 0;
        while lane < 8
            invariant
                lane <= 8,
                k + 8 <= input.len(),
                out.len() == k + lane,
                forall|t: int| 0 <= t < k + lane ==> #[trigger] out[t] == input[t],
            decreases 8 - lane,
        {
            out.push(input[k + lane]);
            lane = lane + 1;
        }
        k = k + 8;
    }
    while k < input.len()
        invariant
            k <= input.len(),
            out.len() == k,
            forall|t: int| 0 <= t < k ==> #[trigger] out[t] == input[t],
        decreases input.len() - k,
    {
        out.push(input[k]);
        k = k + 1;
    }
    proof {
        assert(out@ =~= input@);
    }
    out
}

/// A matrix of approximately standard-normal fixed-point draws.
fn random_normal_matrix(rows: usize, cols: usize) -> (r: TokenMatrix)
    requires
        rows <= DIM_MAX,
        cols <= DIM_MAX,
    ensures
        r.wf(),
        r.rows == rows,
        r.cols == cols,
{
    let mut m: TokenMatrix = TokenMatrix::zeros(rows, cols);
    let mut i: usize = 0;
    while i < rows
        invariant
            m.wf(),
            m.rows == rows,
            m.cols == cols,
            i <= rows,
        decreases rows - i,
    {
        let mut j: usize = 0;
        while j < cols
            invariant
                m.wf(),
                m.rows == rows,
                m.cols == cols,
                i < rows,
                j <= cols,
            decreases cols - j,
        {
            let v: i64 = sample_normal_fx();
            m.set(i, j, v);
            j = j + 1;
        }
        i = i + 1;
    }
    m
}

/// Add a column-vector bias (`n x 1`) to every row of `m`: entry `(i, j)`
/// becomes `m[i][j] + b[j][0]`, saturating.
pub fn add_col_bias(m: &TokenMatrix, b: &TokenMatrix) -> (r: TokenMatrix)
    requires
        m.wf(),
        b.wf(),
        b.rows == m.cols,
        b.cols == 1,
    ensures
        r.wf(),
        r.rows == m.rows,
        r.cols == m.cols,
        forall|i: int, j: int|
            0 <= i < m.rows && 0 <= j < m.cols ==> #[trigger] r.at(i, j) == fadd(
                m.at(i, j),
                b.at(j, 0),
            ),
{
    let mut out: TokenMatrix = TokenMatrix::zeros(m.rows, m.cols);
    let mut i: usize = 0;
    while i < m.rows
        invariant
            m.wf(),
            b.wf(),
            b.rows == m.cols,
            b.cols == 1,
            out.wf(),
            out.rows == m.rows,
            out.cols == m.cols,
            i <= m.rows,
            forall|i2: int, j2: int|
                0 <= i2 < i && 0 <= j2 < m.cols ==> #[trigger] out.at(i2, j2) == fadd(
                    m.at(i2, j2),
                    b.at(j2, 0),
                ),
        decreases m.rows - i,
    {
        let mut j: usize = 0;
        while j < m.cols
            invariant
                m.wf(),
                b.wf(),
                b.rows == m.cols,
                b.cols == 1,
                out.wf(),
                out.rows == m.rows,
                out.cols == m.cols,
                i < m.rows,
                j <= m.cols,
                forall|i2: int, j2: int|
                    0 <= i2 < i && 0 <= j2 < m.cols ==> #[trigger] out.at(i2, j2) == fadd(
                        m.at(i2, j2),
                        b.at(j2, 0),
                    ),
                forall|j2: int|
                    0 <= j2 < j ==> #[trigger] out.at(i as int, j2) == fadd(
                        m.at(i as int, j2),
                        b.at(j2, 0),
                    ),
            decreases m.cols - j,
        {
            let v: i64 = crate::fixed::add_fx(m.get(i, j), b.get(j, 0));
            out.set(i, j, v);
            j = j + 1;
        }
        i = i + 1;
    }
    out
}

} // verus!
