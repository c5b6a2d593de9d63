use cogvlm_image_preprocessor::fixed::{
    exp_fx, gelu_fx, isqrt_u128, mul_fx, relu_fx, sin_cos_fx, tanh_fx, tdiv64, SCALE,
};
use cogvlm_image_preprocessor::glu_projection::GLUProjection;
use cogvlm_image_preprocessor::matrix::{matmul, matmul_nt, TokenMatrix};
use cogvlm_image_preprocessor::rope::{apply_rope, apply_rope_parallel, apply_rope_simd_parallel};
use cogvlm_image_preprocessor::sampling::{sample_normal_fx, sample_uniform_fx};
use cogvlm_image_preprocessor::transformer::{
    FeedForward, LayerNorm, MultiHeadAttention, ShapeError, TransformerLayer,
};

fn fx(v: f64) -> i64 {
    (v * 65536.0).round() as i64
}

#[test]
fn tdiv_truncates_toward_zero() {
    assert_eq!(tdiv64(7, 2), 3);
    assert_eq!(tdiv64(-7, 2), -3);
    assert_eq!(tdiv64(0, 5), 0);
}

#[test]
fn isqrt_brackets() {
    assert_eq!(isqrt_u128(0), 0);
    assert_eq!(isqrt_u128(15), 3);
    assert_eq!(isqrt_u128(16), 4);
    assert_eq!(isqrt_u128(4294967296), 65536);
}

#[test]
fn exp_of_zero_is_one() {
    assert_eq!(exp_fx(0), SCALE);
}

#[test]
fn exp_of_one_is_close_to_e() {
    // e in fixed point is about 178145; the squaring chain lands nearby.
    let e = exp_fx(SCALE);
    assert_eq!(e, 177737);
    assert!((e as f64 / SCALE as f64 - std::f64::consts::E).abs() < 0.01);
}

#[test]
fn trig_at_zero_is_identity_pair() {
    let (s, c) = sin_cos_fx(0);
    assert_eq!(s, 0);
    assert_eq!(c, SCALE);
}

#[test]
fn trig_quarter_turn() {
    // pi/2 in fixed point: sine near one, cosine near zero.
    let (s, c) = sin_cos_fx(102944);
    assert!((s - SCALE).abs() < 400);
    assert!(c.abs() < 400);
}

#[test]
fn tanh_is_odd_and_bounded() {
    assert_eq!(tanh_fx(0), 0);
    assert!(tanh_fx(10 * SCALE) <= SCALE);
    assert!(tanh_fx(-10 * SCALE) >= -SCALE);
    assert!(tanh_fx(10 * SCALE) > fx(0.99));
}

#[test]
fn gelu_values() {
    assert_eq!(gelu_fx(0), 0);
    assert_eq!(gelu_fx(SCALE), 55038);
    assert_eq!(gelu_fx(-10 * SCALE), 0);
    assert_eq!(relu_fx(-5), 0);
    assert_eq!(relu_fx(5), 5);
}

#[test]
fn uniform_and_normal_draws_stay_in_range() {
    for _ in 0..100 {
        let u = sample_uniform_fx(6554);
        assert!((-6554..=6554).contains(&u));
        let n = sample_normal_fx();
        assert!((-6 * SCALE..=6 * SCALE).contains(&n));
    }
}

#[test]
fn matmul_small_exact() {
    let a = TokenMatrix::from_vec(1, 1, vec![2 * SCALE]).unwrap();
    let b = TokenMatrix::from_vec(1, 1, vec![3 * SCALE]).unwrap();
    let c = matmul(&a, &b);
    assert_eq!(c.rows, 1);
    assert_eq!(c.cols, 1);
    assert_eq!(c.data, vec![6 * SCALE]);
}

#[test]
fn matmul_nt_uses_rows_of_both() {
    // a is 1x2, b is 1x2: a * b^T is 1x1 = dot of the two rows.
    let a = TokenMatrix::from_vec(1, 2, vec![SCALE, 2 * SCALE]).unwrap();
    let b = TokenMatrix::from_vec(1, 2, vec![3 * SCALE, 4 * SCALE]).unwrap();
    let c = matmul_nt(&a, &b);
    assert_eq!(c.data, vec![11 * SCALE]);
}

#[test]
fn from_vec_rejects_bad_shapes() {
    assert!(TokenMatrix::from_vec(2, 2, vec![0, 0, 0]).is_none());
    assert!(TokenMatrix::from_vec(2, 2, vec![0, 0, 0, 0]).is_some());
    assert!(TokenMatrix::from_vec(1, 1, vec![i64::MAX]).is_none());
}

#[test]
fn layer_norm_two_point_row() {
    // Row [1.0, 3.0]: mean 2.0, deviations -/+1.0, unit variance, so the
    // normalized row is [-1.0, 1.0] exactly in fixed point.
    let ln = LayerNorm::new(2);
    let x = TokenMatrix::from_vec(1, 2, vec![SCALE, 3 * SCALE]).unwrap();
    let y = ln.forward(&x);
    assert_eq!(y.data, vec![-SCALE, SCALE]);
}

#[test]
fn layer_norm_constant_row_is_zero() {
    let ln = LayerNorm::new(3);
    let x = TokenMatrix::from_vec(1, 3, vec![fx(5.0), fx(5.0), fx(5.0)]).unwrap();
    let y = ln.forward(&x);
    assert_eq!(y.data, vec![0, 0, 0]);
}

#[test]
fn attention_head_count_must_divide() {
    assert_eq!(
        MultiHeadAttention::new(10, 3).err(),
        Some(ShapeError::IndivisibleHeads)
    );
    assert_eq!(
        MultiHeadAttention::new(10, 0).err(),
        Some(ShapeError::IndivisibleHeads)
    );
    assert_eq!(
        MultiHeadAttention::new(0, 2).err(),
        Some(ShapeError::DimensionOutOfRange)
    );
    assert!(MultiHeadAttention::new(8, 2).is_ok());
}

#[test]
fn feed_forward_rejects_zero_dims() {
    assert_eq!(
        FeedForward::new(0, 5).err(),
        Some(ShapeError::DimensionOutOfRange)
    );
    assert!(FeedForward::new(4, 8).is_ok());
}

#[test]
fn transformer_layer_shapes() {
    let layer = TransformerLayer::new(8, 16, 2).unwrap();
    let x = TokenMatrix::from_vec(3, 8, vec![fx(0.25); 24]).unwrap();
    let y = layer.forward(&x);
    assert_eq!(y.rows, 3);
    assert_eq!(y.cols, 8);
    // Deterministic: a second pass over the same input agrees exactly.
    let y2 = layer.forward(&x);
    assert_eq!(y.data, y2.data);
    assert_eq!(
        TransformerLayer::new(9, 16, 2).err(),
        Some(ShapeError::IndivisibleHeads)
    );
}

#[test]
fn glu_gate_forced_negative_zeroes_output() {
    // Weight [1, -1]: the value column copies x, the gating column negates
    // it, so for positive x the rectified gate is zero and so is the
    // output.
    let weight = TokenMatrix::from_vec(1, 2, vec![SCALE, -SCALE]).unwrap();
    let g = GLUProjection {
        in_dim: 1,
        out_dim: 1,
        weight,
        bias: None,
    };
    let x = TokenMatrix::from_vec(1, 1, vec![fx(2.5)]).unwrap();
    let y = g.forward(&x);
    assert_eq!(y.rows, 1);
    assert_eq!(y.cols, 1);
    assert_eq!(y.data, vec![0]);
}

#[test]
fn glu_positive_gate_passes_product() {
    // Weight [1, 1]: value = gate = x, output = x * x.
    let weight = TokenMatrix::from_vec(1, 2, vec![SCALE, SCALE]).unwrap();
    let g = GLUProjection {
        in_dim: 1,
        out_dim: 1,
        weight,
        bias: None,
    };
    let x = TokenMatrix::from_vec(1, 1, vec![3 * SCALE]).unwrap();
    let y = g.forward(&x);
    assert_eq!(y.data, vec![9 * SCALE]);
}

#[test]
fn glu_strategies_agree() {
    let g = GLUProjection::new(4, 3).unwrap();
    let x = TokenMatrix::from_vec(5, 4, (0..20).map(|k| fx(0.1) * (k - 10)).collect()).unwrap();
    let a = g.forward(&x);
    let b = g.forward_rayon(&x);
    let c = g.forward_rayon_simd(&x);
    assert_eq!(a.rows, 5);
    assert_eq!(a.cols, 3);
    assert_eq!(a.data, b.data);
    assert_eq!(a.data, c.data);
}

#[test]
fn glu_new_rejects_zero_dims() {
    assert!(GLUProjection::new(0, 4).is_none());
    assert!(GLUProjection::new(4, 0).is_none());
    assert!(GLUProjection::new(4, 4).is_some());
}

#[test]
fn mul_fx_saturates() {
    let big = 70368744177664;
    assert_eq!(mul_fx(big, big), big);
    assert_eq!(mul_fx(big, -big), -big);
    assert_eq!(mul_fx(2 * SCALE, 3 * SCALE), 6 * SCALE);
}

#[test]
fn rope_position_zero_row_is_unchanged() {
    // Two rows: the first (position 0) must come back exactly, the
    // second is rotated.
    let data: Vec<i64> = vec![fx(1.0), fx(2.0), fx(3.0), fx(4.0), fx(5.0), fx(6.0), fx(7.0), fx(8.0)];
    let mut m = TokenMatrix::from_vec(2, 4, data.clone()).unwrap();
    apply_rope(&mut m, 4);
    assert_eq!(&m.data[0..4], &data[0..4]);
    assert_ne!(&m.data[4..8], &data[4..8]);
}

#[test]
fn rope_strategies_agree() {
    let data: Vec<i64> = (0..60).map(|k| fx(0.05) * (k - 30)).collect();
    let m0 = TokenMatrix::from_vec(6, 10, data).unwrap();
    let mut a = TokenMatrix::from_vec(m0.rows, m0.cols, m0.data.clone()).unwrap();
    let mut b = TokenMatrix::from_vec(m0.rows, m0.cols, m0.data.clone()).unwrap();
    let mut c = TokenMatrix::from_vec(m0.rows, m0.cols, m0.data.clone()).unwrap();
    apply_rope(&mut a, 10);
    apply_rope_parallel(&mut b, 10);
    apply_rope_simd_parallel(&mut c, 10);
    assert_eq!(a.data, b.data);
    assert_eq!(a.data, c.data);
}

#[test]
fn rope_rotation_preserves_pair_norm_approximately() {
    let data: Vec<i64> = vec![fx(0.6), fx(0.8), fx(-1.2), fx(0.5)];
    let mut m = TokenMatrix::from_vec(2, 2, data.clone()).unwrap();
    apply_rope(&mut m, 2);
    // Row 1 is rotated by a nonzero angle; its squared norm must be
    // preserved within a small relative tolerance.
    let before = (data[2] as f64).powi(2) + (data[3] as f64).powi(2);
    let after = (m.data[2] as f64).powi(2) + (m.data[3] as f64).powi(2);
    assert!((after - before).abs() / before < 1e-2);
    assert_ne!(&m.data[2..4], &data[2..4]);
}
