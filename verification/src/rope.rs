//! Rotary position encoding: every token row is rotated pairwise, the
//! pair `(x[2i], x[2i+1])` by the angle `pos * theta_i` with
//! `theta_i = 10000^(-2i/dim)`, computed in fixed point through the
//! exponential (`theta_i = e^(-2i*ln(10000)/dim)`).
//!
//! The three strategies — sequential, row-parallel, and lane-chunked —
//! pin every output element to the same `rope_val`, so they agree
//! exactly.

use vstd::prelude::*;
use crate::fixed::{
    tdiv, sat_val, exp_spec, sin_spec, cos_spec, exp_fx, sin_cos_fx, tdiv64, tdiv128, sat_narrow,
    mul_wide, SCALE, VAL_MAX, DIM_MAX, EXP_CAP, TRIG_BOUND, TWO_PI_FX,
};
use crate::matrix::{TokenMatrix, rows_to_matrix, lemma_same_elements};

verus! {

/// `ln(10000)` in fixed point.
pub const LN_10000_FX: i64 = 603609;

/// The inverse-frequency angle step for pair `i` of `dim` dimensions:
/// `10000^(-2i/dim)` as `e^(-2i*ln(10000)/dim)` in fixed point.
pub open spec fn theta_spec(i: int, dim: int) -> int {
    exp_spec(-tdiv(2 * i * LN_10000_FX, dim))
}

/// The first coordinate of a rotated pair, rescaled and saturated.
pub open spec fn rot0(c: int, s: int, x0: int, x1: int) -> int {
    sat_val(tdiv(c * x0 - s * x1, SCALE as int))
}

/// The second coordinate of a rotated pair, rescaled and saturated.
pub open spec fn rot1(c: int, s: int, x0: int, x1: int) -> int {
    sat_val(tdiv(s * x0 + c * x1, SCALE as int))
}

/// The encoded value at row `pos`, column `j`: the rotation of its pair
/// by `pos * theta_(j/2)`, or the original value for a trailing odd
/// column beyond the last complete pair.
pub open spec fn rope_val(m: TokenMatrix, dim: int, pos: int, j: int) -> int {
    let half = dim / 2;
    let i = j / 2;
    if i < half {
        let ang = pos * theta_spec(i, dim);
        let c = cos_spec(ang);
        let s = sin_spec(ang);
        if j % 2 == 0 {
            rot0(c, s, m.at(pos, 2 * i), m.at(pos, 2 * i + 1))
        } else {
            rot1(c, s, m.at(pos, 2 * i), m.at(pos, 2 * i + 1))
        }
    } else {
        m.at(pos, j)
    }
}

/// Rotate one pair by the angle whose cosine and sine are `c` and `s`.
fn rotate_pair(c: i64, s: i64, x0: i64, x1: i64) -> (r: (i64, i64))
    requires
        -TRIG_BOUND <= c <= TRIG_BOUND,
        -TRIG_BOUND <= s <= TRIG_BOUND,
        -VAL_MAX <= x0 <= VAL_MAX,
        -VAL_MAX <= x1 <= VAL_MAX,
    ensures
        r.0 as int == rot0(c as int, s as int, x0 as int, x1 as int),
        r.1 as int == rot1(c as int, s as int, x0 as int, x1 as int),
        -VAL_MAX <= r.0 <= VAL_MAX,
        -VAL_MAX <= r.1 <= VAL_MAX,
{
    proof {
        assert(-(110000 * (VAL_MAX as int)) <= (c as int) * (x0 as int) <= 110000 * (VAL_MAX as int)
            && -(110000 * (VAL_MAX as int)) <= (s as int) * (x1 as int) <= 110000 * (
        VAL_MAX as int) && -(110000 * (VAL_MAX as int)) <= (s as int) * (x0 as int) <= 110000 * (
        VAL_MAX as int) && -(110000 * (VAL_MAX as int)) <= (c as int) * (x1 as int) <= 110000 * (
        VAL_MAX as int)) by (nonlinear_arith)
            requires
                -110000 <= c as int <= 110000,
                -110000 <= s as int <= 110000,
                -VAL_MAX <= x0 as int <= VAL_MAX,
                -VAL_MAX <= x1 as int <= VAL_MAX,
        ;
    }
    let a: i128 = mul_wide(c, x0) - mul_wide(s, x1);
    let b: i128 = mul_wide(s, x0) + mul_wide(c, x1);
    let y0: i64 = sat_narrow(tdiv128(a, SCALE as i128));
    let y1: i64 = sat_narrow(tdiv128(b, SCALE as i128));
    (y0, y1)
}

/// The angle for row `pos`, pair `i`.
fn pair_angle(pos: usize, i: usize, dim: usize) -> (ang: i64)
    requires
        pos <= DIM_MAX,
        2 * i < dim <= DIM_MAX,
    ensures
        ang as int == pos as int * theta_spec(i as int, dim as int),
        0 <= ang,
{
    proof {
        assert(2 * (i as int) * LN_10000_FX <= 2 * 32768 * LN_10000_FX) by (nonlinear_arith)
            requires
                0 <= i as int <= 32768,
        ;
    }
    let arg: i64 = tdiv64(2 * (i as i64) * LN_10000_FX, dim as i64);
    let theta: i64 = exp_fx(-arg);
    proof {
        assert((pos as int) * (theta as int) <= 32768 * (EXP_CAP as int) && 0 <= (pos as int) * (
        theta as int)) by (nonlinear_arith)
            requires
                0 <= pos as int <= 32768,
                0 <= theta as int <= EXP_CAP as int,
        ;
    }
    (pos as i64) * theta
}

/// The encoded row `pos`: every complete pair rotated in place.
pub fn rope_row(m: &TokenMatrix, dim: usize, pos: usize) -> (r: Vec<i64>)
    requires
        m.wf(),
        dim <= m.cols,
        pos < m.rows,
    ensures
        r.len() == m.cols,
        forall|j: int| 0 <= j < m.cols ==> #[trigger] r[j] as int == rope_val(*m, dim as int, pos as int, j),
        forall|j: int| 0 <= j < m.cols ==> -VAL_MAX <= #[trigger] r[j] <= VAL_MAX,
{
    let mut row: Vec<i64> = m.row(pos);
    let half: usize = dim / 2;
    let mut i: usize = 0;
    while i < half
        invariant
            m.wf(),
            dim <= m.cols,
            pos < m.rows,
            half == dim / 2,
            i <= half,
            row.len() == m.cols,
            forall|j: int|
                0 <= j < 2 * i ==> #[trigger] row[j] as int == rope_val(
                    *m,
                    dim as int,
                    pos as int,
                    j,
                ),
            forall|j: int| 2 * i <= j < m.cols ==> #[trigger] row[j] as int == m.at(pos as int, j),
            forall|j: int| 0 <= j < m.cols ==> -VAL_MAX <= #[trigger] row[j] <= VAL_MAX,
        decreases half - i,
    {
        proof {
            vstd::arithmetic::div_mod::lemma_fundamental_div_mod(dim as int, 2);
            vstd::arithmetic::div_mod::lemma_mod_bound(dim as int, 2);
        }
        let ang: i64 = pair_angle(pos, i, dim);
        let (s, c) = sin_cos_fx(ang);
        let x0: i64 = row[2 * i];
        let x1: i64 = row[2 * i + 1];
        let (y0, y1) = rotate_pair(c, s, x0, x1);
        proof {
            vstd::arithmetic::div_mod::lemma_fundamental_div_mod_converse_div(
                2 * (i as int),
                2,
                i as int,
                0,
            );
            vstd::arithmetic::div_mod::lemma_fundamental_div_mod_converse_mod(
                2 * (i as int),
                2,
                i as int,
                0,
            );
            vstd::arithmetic::div_mod::lemma_fundamental_div_mod_converse_div(
                2 * (i as int) + 1,
                2,
                i as int,
                1,
            );
            vstd::arithmetic::div_mod::lemma_fundamental_div_mod_converse_mod(
                2 * (i as int) + 1,
                2,
                i as int,
                1,
            );
        }
        row.set(2 * i, y0);
        row.set(2 * i + 1, y1);
        i = i + 1;
    }
    proof {
        assert forall|j: int| 0 <= j < m.cols implies #[trigger] row[j] as int == rope_val(
            *m,
            dim as int,
            pos as int,
            j,
        ) by {
            if j >= 2 * (half as int) {
                vstd::arithmetic::div_mod::lemma_fundamental_div_mod(j, 2);
                vstd::arithmetic::div_mod::lemma_mod_bound(j, 2);
                assert(j / 2 >= half) by (nonlinear_arith)
                    requires
                        j >= 2 * (half as int),
                        j == 2 * (j / 2) + j % 2,
                        0 <= j % 2 < 2,
                ;
            }
        }
    }
    row
}

/// Sequential strategy: rotate every row, in row order.
pub fn apply_rope(tensor: &mut TokenMatrix, dim: usize)
    requires
        old(tensor).wf(),
        dim <= old(tensor).cols,
    ensures
        final(tensor).wf(),
        final(tensor).rows == old(tensor).rows,
        final(tensor).cols == old(tensor).cols,
        forall|pos: int, j: int|
            0 <= pos < old(tensor).rows && 0 <= j < old(tensor).cols
                ==> #[trigger] final(tensor).at(pos, j) == rope_val(*old(tensor), dim as int, pos, j),
{
    let ghost m0 = *tensor;
    let mut rows: Vec<Vec<i64>> = Vec::new();
    let mut pos: usize = 0;
    while pos < tensor.rows
        invariant
            tensor.wf(),
            *tensor == m0,
            dim <= tensor.cols,
            pos <= tensor.rows,
            rows.len() == pos,
            forall|p: int| 0 <= p < pos ==> (#[trigger] rows[p]).len() == tensor.cols,
            forall|p: int, j: int|
                0 <= p < pos && 0 <= j < tensor.cols ==> #[trigger] rows[p][j] as int == rope_val(
                    m0,
                    dim as int,
                    p,
                    j,
                ),
            forall|p: int, j: int|
                0 <= p < pos && 0 <= j < tensor.cols ==> -VAL_MAX <= #[trigger] rows[p][j]
                    <= VAL_MAX,
        decreases tensor.rows - pos,
    {
        let r: Vec<i64> = rope_row(tensor, dim, pos);
        rows.push(r);
        pos = pos + 1;
    }
    let out: TokenMatrix = rows_to_matrix(rows, tensor.cols);
    *tensor = out;
}

/// Relies on rayon: a parallel iterator over the row indices calls the
/// verified `rope_row` for each row and collects them in index order.
#[verifier::external_body]
fn rope_rows_parallel(m: &TokenMatrix, dim: usize) -> (r: Vec<Vec<i64>>)
    requires
        m.wf(),
        dim <= m.cols,
    ensures
        r.len() == m.rows,
        forall|p: int| 0 <= p < m.rows ==> (#[trigger] r[p]).len() == m.cols,
        forall|p: int, j: int|
            0 <= p < m.rows && 0 <= j < m.cols ==> #[trigger] r[p][j] as int == rope_val(
                *m,
                dim as int,
                p,
                j,
            ),
        forall|p: int, j: int|
            0 <= p < m.rows && 0 <= j < m.cols ==> -VAL_MAX <= #[trigger] r[p][j] <= VAL_MAX,
{
    rayon::iter::ParallelIterator::collect(rayon::iter::ParallelIterator::map(
        rayon::iter::IntoParallelIterator::into_par_iter(0..m.rows),
        |pos| rope_row(m, dim, pos),
    ))
}

/// Row-parallel strategy: the same rotation, rows partitioned across the
/// worker pool.
pub fn apply_rope_parallel(tensor: &mut TokenMatrix, dim: usize)
    requires
        old(tensor).wf(),
        dim <= old(tensor).cols,
    ensures
        final(tensor).wf(),
        final(tensor).rows == old(tensor).rows,
        final(tensor).cols == old(tensor).cols,
        forall|pos: int, j: int|
            0 <= pos < old(tensor).rows && 0 <= j < old(tensor).cols
                ==> #[trigger] final(tensor).at(pos, j) == rope_val(*old(tensor), dim as int, pos, j),
{
    let rows: Vec<Vec<i64>> = rope_rows_parallel(tensor, dim);
    let out: TokenMatrix = rows_to_matrix(rows, tensor.cols);
    *tensor = out;
}

/// The encoded row computed in lanes of eight pairs with a scalar tail:
/// the vectorized partition of the same per-pair rotation.
pub fn rope_row_lanes(m: &TokenMatrix, dim: usize, pos: usize) -> (r: Vec<i64>)
    requires
        m.wf(),
        dim <= m.cols,
        pos < m.rows,
    ensures
        r.len() == m.cols,
        forall|j: int| 0 <= j < m.cols ==> #[trigger] r[j] as int == rope_val(*m, dim as int, pos as int, j),
        forall|j: int| 0 <= j < m.cols ==> -VAL_MAX <= #[trigger] r[j] <= VAL_MAX,
{
    let mut row: Vec<i64> = m.row(pos);
    let half: usize = dim / 2;
    let mut i: usize = 0;
    while half - i >= 8
        invariant
            m.wf(),
            dim <= m.cols,
            pos < m.rows,
            half == dim / 2,
            i <= half,
            row.len() == m.cols,
            forall|j: int|
                0 <= j < 2 * i ==> #[trigger] row[j] as int == rope_val(
                    *m,
                    dim as int,
                    pos as int,
                    j,
                ),
            forall|j: int| 2 * i <= j < m.cols ==> #[trigger] row[j] as int == m.at(pos as int, j),
            forall|j: int| 0 <= j < m.cols ==> -VAL_MAX <= #[trigger] row[j] <= VAL_MAX,
        decreases half - i,
    {
        let mut lane: usize = 0;
        while lane < 8
            invariant
                m.wf(),
                dim <= m.cols,
                pos < m.rows,
                half == dim / 2,
                i + 8 <= half,
                lane <= 8,
                row.len() == m.cols,
                forall|j: int|
                    0 <= j < 2 * (i + lane) ==> #[trigger] row[j] as int == rope_val(
                        *m,
                        dim as int,
                        pos as int,
                        j,
                    ),
                forall|j: int|
                    2 * (i + lane) <= j < m.cols ==> #[trigger] row[j] as int == m.at(
                        pos as int,
                        j,
                    ),
                forall|j: int| 0 <= j < m.cols ==> -VAL_MAX <= #[trigger] row[j] <= VAL_MAX,
            decreases 8 - lane,
        {
            let p: usize = i + lane;
            proof {
                vstd::arithmetic::div_mod::lemma_fundamental_div_mod(dim as int, 2);
                vstd::arithmetic::div_mod::lemma_mod_bound(dim as int, 2);
            }
            let ang: i64 = pair_angle(pos, p, dim);
            let (s, c) = sin_cos_fx(ang);
            let x0: i64 = row[2 * p];
            let x1: i64 = row[2 * p + 1];
            let (y0, y1) = rotate_pair(c, s, x0, x1);
            proof {
                vstd::arithmetic::div_mod::lemma_fundamental_div_mod_converse_div(
                    2 * (p as int),
                    2,
                    p as int,
                    0,
                );
                vstd::arithmetic::div_mod::lemma_fundamental_div_mod_converse_mod(
                    2 * (p as int),
                    2,
                    p as int,
                    0,
                );
                vstd::arithmetic::div_mod::lemma_fundamental_div_mod_converse_div(
                    2 * (p as int) + 1,
                    2,
                    p as int,
                    1,
                );
                vstd::arithmetic::div_mod::lemma_fundamental_div_mod_converse_mod(
                    2 * (p as int) + 1,
                    2,
                    p as int,
                    1,
                );
            }
            row.set(2 * p, y0);
            row.set(2 * p + 1, y1);
            lane = lane + 1;
        }
        i = i + 8;
    }
    while i < half
        invariant
            m.wf(),
            dim <= m.cols,
            pos < m.rows,
            half == dim / 2,
            i <= half,
            row.len() == m.cols,
            forall|j: int|
                0 <= j < 2 * i ==> #[trigger] row[j] as int == rope_val(
                    *m,
                    dim as int,
                    pos as int,
                    j,
                ),
            forall|j: int| 2 * i <= j < m.cols ==> #[trigger] row[j] as int == m.at(pos as int, j),
            forall|j: int| 0 <= j < m.cols ==> -VAL_MAX <= #[trigger] row[j] <= VAL_MAX,
        decreases half - i,
    {
        proof {
            vstd::arithmetic::div_mod::lemma_fundamental_div_mod(dim as int, 2);
            vstd::arithmetic::div_mod::lemma_mod_bound(dim as int, 2);
        }
        let ang: i64 = pair_angle(pos, i, dim);
        let (s, c) = sin_cos_fx(ang);
        let x0: i64 = row[2 * i];
        let x1: i64 = row[2 * i + 1];
        let (y0, y1) = rotate_pair(c, s, x0, x1);
        proof {
            vstd::arithmetic::div_mod::lemma_fundamental_div_mod_converse_div(
                2 * (i as int),
                2,
                i as int,
                0,
            );
            vstd::arithmetic::div_mod::lemma_fundamental_div_mod_converse_mod(
                2 * (i as int),
                2,
                i as int,
                0,
            );
            vstd::arithmetic::div_mod::lemma_fundamental_div_mod_converse_div(
                2 * (i as int) + 1,
                2,
                i as int,
                1,
            );
            vstd::arithmetic::div_mod::lemma_fundamental_div_mod_converse_mod(
                2 * (i as int) + 1,
                2,
                i as int,
                1,
            );
        }
        row.set(2 * i, y0);
        row.set(2 * i + 1, y1);
        i = i + 1;
    }
    proof {
        assert forall|j: int| 0 <= j < m.cols implies #[trigger] row[j] as int == rope_val(
            *m,
            dim as int,
            pos as int,
            j,
        ) by {
            if j >= 2 * (half as int) {
                vstd::arithmetic::div_mod::lemma_fundamental_div_mod(j, 2);
                vstd::arithmetic::div_mod::lemma_mod_bound(j, 2);
                assert(j / 2 >= half) by (nonlinear_arith)
                    requires
                        j >= 2 * (half as int),
                        j == 2 * (j / 2) + j % 2,
                        0 <= j % 2 < 2,
                ;
            }
        }
    }
    row
}

/// Vectorized strategy: lane-chunked pairs with a scalar remainder; the
/// per-pair arithmetic and therefore every output element is identical
/// to the sequential strategy.
pub fn apply_rope_simd_parallel(tensor: &mut TokenMatrix, dim: usize)
    requires
        old(tensor).wf(),
        dim <= old(tensor).cols,
    ensures
        final(tensor).wf(),
        final(tensor).rows == old(tensor).rows,
        final(tensor).cols == old(tensor).cols,
        forall|pos: int, j: int|
            0 <= pos < old(tensor).rows && 0 <= j < old(tensor).cols
                ==> #[trigger] final(tensor).at(pos, j) == rope_val(*old(tensor), dim as int, pos, j),
{
    let ghost m0 = *tensor;
    let mut rows: Vec<Vec<i64>> = Vec::new();
    let mut pos: usize = 0;
    while pos < tensor.rows
        invariant
            tensor.wf(),
            *tensor == m0,
            dim <= tensor.cols,
            pos <= tensor.rows,
            rows.len() == pos,
            forall|p: int| 0 <= p < pos ==> (#[trigger] rows[p]).len() == tensor.cols,
            forall|p: int, j: int|
                0 <= p < pos && 0 <= j < tensor.cols ==> #[trigger] rows[p][j] as int == rope_val(
                    m0,
                    dim as int,
                    p,
                    j,
                ),
            forall|p: int, j: int|
                0 <= p < pos && 0 <= j < tensor.cols ==> -VAL_MAX <= #[trigger] rows[p][j]
                    <= VAL_MAX,
        decreases tensor.rows - pos,
    {
        let r: Vec<i64> = rope_row_lanes(tensor, dim, pos);
        rows.push(r);
        pos = pos + 1;
    }
    let out: TokenMatrix = rows_to_matrix(rows, tensor.cols);
    *tensor = out;
}

/// Rotation preserves the pair's squared norm exactly: for any exact
/// rotation pair (`c^2 + s^2` one whole unit squared), the unrounded
/// rotated coordinates satisfy `x0'^2 + x1'^2 == x0^2 + x1^2`, scaled by
/// the unit squared.
pub proof fn lemma_rotation_preserves_norm(c: int, s: int, x0: int, x1: int)
    requires
        c * c + s * s == (SCALE as int) * (SCALE as int),
    ensures
        (c * x0 - s * x1) * (c * x0 - s * x1) + (s * x0 + c * x1) * (s * x0 + c * x1) == ((
        SCALE as int) * (SCALE as int)) * (x0 * x0 + x1 * x1),
{
    let p = c * x0;
    let q = s * x1;
    let r = s * x0;
    let t = c * x1;
    let cc = c * c;
    let ss = s * s;
    let a0 = x0 * x0;
    let a1 = x1 * x1;
    assert((p - q) * (p - q) == p * p - 2 * (p * q) + q * q) by (nonlinear_arith);
    assert((r + t) * (r + t) == r * r + 2 * (r * t) + t * t) by (nonlinear_arith);
    assert(p * p == cc * a0 && q * q == ss * a1 && r * r == ss * a0 && t * t == cc * a1 && p * q
        == r * t) by (nonlinear_arith)
        requires
            p == c * x0,
            q == s * x1,
            r == s * x0,
            t == c * x1,
            cc == c * c,
            ss == s * s,
            a0 == x0 * x0,
            a1 == x1 * x1,
    ;
    assert((cc + ss) * (a0 + a1) == cc * a0 + cc * a1 + ss * a0 + ss * a1) by (nonlinear_arith);
}

/// At position zero the angle is zero, the rotation is the identity, and
/// every element is unchanged.
pub proof fn lemma_rope_zero_identity(m: TokenMatrix, dim: int, j: int)
    requires
        m.wf(),
        1 <= m.rows,
        0 <= j < m.cols,
        0 <= dim <= m.cols,
    ensures
        rope_val(m, dim, 0, j) == m.at(0, j),
{
    let half = dim / 2;
    let i = j / 2;
    vstd::arithmetic::div_mod::lemma_div_pos_is_pos(j, 2);
    if i < half {
        let th = theta_spec(i, dim);
        assert(0 * th == 0) by (nonlinear_arith);
        assert(cos_spec(0) == SCALE && sin_spec(0) == 0) by {
            vstd::arithmetic::div_mod::lemma_small_mod(0, TWO_PI_FX as nat);
        }
        let x0 = m.at(0, 2 * i);
        let x1 = m.at(0, 2 * i + 1);
        vstd::arithmetic::div_mod::lemma_fundamental_div_mod(j, 2);
        vstd::arithmetic::div_mod::lemma_mod_bound(j, 2);
        assert(2 * i + 1 < dim && (j % 2 == 1 ==> 2 * i + 1 == j) && (j % 2 == 0 ==> 2 * i == j))
            by (nonlinear_arith)
            requires
                i == j / 2,
                i < half,
                half == dim / 2,
                dim == 2 * half + dim % 2,
                0 <= dim % 2 < 2,
                j == 2 * i + j % 2,
                0 <= j % 2 < 2,
                0 <= i,
        ;
        lemma_pair_in_matrix(m, i);
        assert(rot0(SCALE as int, 0, x0, x1) == x0 && rot1(SCALE as int, 0, x0, x1) == x1) by {
            assert((SCALE as int) * x0 - 0 * x1 == (SCALE as int) * x0 && 0 * x0 + (SCALE as int)
                * x1 == (SCALE as int) * x1) by (nonlinear_arith);
            lemma_scale_cancel(x0);
            lemma_scale_cancel(x1);
        }
    }
}

/// Both members of a complete pair are in range and bounded.
proof fn lemma_pair_in_matrix(m: TokenMatrix, i: int)
    requires
        m.wf(),
        1 <= m.rows,
        0 <= i,
        2 * i + 1 < m.cols,
    ensures
        -VAL_MAX <= m.at(0, 2 * i) <= VAL_MAX,
        -VAL_MAX <= m.at(0, 2 * i + 1) <= VAL_MAX,
{
    crate::matrix::lemma_row_major_index(0, 2 * i, m.rows as int, m.cols as int);
    crate::matrix::lemma_row_major_index(0, 2 * i + 1, m.rows as int, m.cols as int);
    assert(0 * m.cols + (2 * i) == 2 * i) by (nonlinear_arith);
    assert(0 * m.cols + (2 * i + 1) == 2 * i + 1) by (nonlinear_arith);
    assert(-VAL_MAX <= m.data[2 * i] <= VAL_MAX);
    assert(-VAL_MAX <= m.data[2 * i + 1] <= VAL_MAX);
}

/// Scaling by one whole unit and dividing by it gives the value back.
proof fn lemma_scale_cancel(x: int)
    ensures
        tdiv((SCALE as int) * x, SCALE as int) == x,
{
    if x >= 0 {
        vstd::arithmetic::div_mod::lemma_div_multiples_vanish(x, SCALE as int);
    } else {
        vstd::arithmetic::div_mod::lemma_div_multiples_vanish(-x, SCALE as int);
        assert(-((SCALE as int) * x) == (SCALE as int) * (-x)) by (nonlinear_arith);
    }
}


/// Cross-strategy agreement: any two encodings of the same tensor with
/// the same dimension count hold exactly the same data, since every
/// strategy pins each element to `rope_val`.
pub proof fn lemma_rope_strategies_agree(a: TokenMatrix, b: TokenMatrix, m: TokenMatrix, dim: int)
    requires
        a.wf(),
        b.wf(),
        a.rows == m.rows,
        b.rows == m.rows,
        a.cols == m.cols,
        b.cols == m.cols,
        forall|pos: int, j: int|
            0 <= pos < m.rows && 0 <= j < m.cols ==> #[trigger] a.at(pos, j) == rope_val(
                m,
                dim,
                pos,
                j,
            ),
        forall|pos: int, j: int|
            0 <= pos < m.rows && 0 <= j < m.cols ==> #[trigger] b.at(pos, j) == rope_val(
                m,
                dim,
                pos,
                j,
            ),
    ensures
        a.data@ == b.data@,
{
    lemma_same_elements(a, b);
}

} // verus!
