use cogvlm_image_preprocessor::fixed::SCALE;
use cogvlm_image_preprocessor::matrix::TokenMatrix;
use cogvlm_image_preprocessor::patch_dropout::PatchDropout;
use cogvlm_image_preprocessor::patch_embed::PatchEmbed;
use cogvlm_image_preprocessor::processor::{
    process_images_in_batch, resize_bicubic, ImageProcessor, RasterImage,
};
use cogvlm_image_preprocessor::rope::apply_rope;

fn solid_image(w: usize, h: usize, rgb: [u8; 3]) -> RasterImage {
    let mut data = Vec::with_capacity(w * h * 3);
    for _ in 0..w * h {
        data.extend_from_slice(&rgb);
    }
    RasterImage {
        width: w,
        height: h,
        data,
    }
}

#[test]
fn resize_output_has_target_dimensions() {
    let img = solid_image(5, 3, [10, 20, 30]);
    let out = resize_bicubic(&img, 7, 4);
    assert_eq!(out.width, 7);
    assert_eq!(out.height, 4);
    assert_eq!(out.data.len(), 7 * 4 * 3);
}

#[test]
fn resize_constant_color_downsample_stays_constant() {
    // Downsampling 8x8 to 2x2 keeps every 4x4 tap neighborhood inside
    // the source, so the kernel weights sum to one and the constant
    // color survives exactly.
    let img = solid_image(8, 8, [77, 128, 200]);
    let out = resize_bicubic(&img, 2, 2);
    for px in out.data.chunks(3) {
        assert_eq!(px, &[77, 128, 200]);
    }
}

#[test]
fn resize_single_pixel_upsample() {
    let img = solid_image(1, 1, [99, 50, 0]);
    let out = resize_bicubic(&img, 3, 3);
    assert_eq!(out.width, 3);
    assert_eq!(out.height, 3);
    // Border taps fall outside and are skipped without renormalizing,
    // so the upsampled values never exceed the source value.
    for px in out.data.chunks(3) {
        assert!(px[0] <= 99 && px[1] <= 50 && px[2] == 0);
    }
}

#[test]
fn preprocess_mid_gray_matches_normalization_formula() {
    // (128/255 - mean[c]) / std[c] in fixed point, computed channel by
    // channel with truncating division.
    let p = ImageProcessor::new(32);
    let img = solid_image(32, 32, [128, 128, 128]);
    let t = p.preprocess(&img);
    assert_eq!(t.height, 32);
    assert_eq!(t.width, 32);
    assert_eq!(t.data.len(), 3 * 32 * 32);
    let expected = [4999i64, 11067, 22279];
    for c in 0..3 {
        for k in 0..32 * 32 {
            assert_eq!(t.data[c * 32 * 32 + k], expected[c]);
        }
    }
}

#[test]
fn batch_output_carries_placeholders() {
    let p = ImageProcessor::new(8);
    let images = vec![solid_image(8, 8, [0, 0, 0]), solid_image(4, 4, [255, 255, 255])];
    let out = process_images_in_batch(images, &p);
    assert_eq!(out.image.len(), 2);
    assert_eq!(out.input_ids, vec![0, 0]);
    assert_eq!(out.attention_mask, vec![1, 1]);
    assert_eq!(out.image[0].height, 8);
    assert_eq!(out.image[1].width, 8);
}

#[test]
fn patch_embed_grid_shape() {
    // 32x32 image, patch size 16: a 2x2 grid of patches, each embedded
    // to 8 dimensions.
    let p = ImageProcessor::new(32);
    let img = solid_image(32, 32, [128, 128, 128]);
    let t = p.preprocess(&img);
    let e = PatchEmbed::new(16, 8).unwrap();
    let tokens = e.forward(&t);
    assert_eq!(tokens.rows, 4);
    assert_eq!(tokens.cols, 8);
}

#[test]
fn patch_embed_truncates_incomplete_patches() {
    let p = ImageProcessor::new(20);
    let img = solid_image(20, 20, [10, 10, 10]);
    let t = p.preprocess(&img);
    let e = PatchEmbed::new(16, 4).unwrap();
    let tokens = e.forward(&t);
    // 20 / 16 == 1 in each axis: a single patch row.
    assert_eq!(tokens.rows, 1);
    assert_eq!(tokens.cols, 4);
}

#[test]
fn patch_embed_is_deterministic() {
    let p = ImageProcessor::new(16);
    let img = solid_image(16, 16, [60, 120, 180]);
    let t = p.preprocess(&img);
    let e = PatchEmbed::new(8, 6).unwrap();
    let a = e.forward(&t);
    let b = e.forward(&t);
    assert_eq!(a.data, b.data);
}

#[test]
fn patch_embed_rejects_zero_patch_size() {
    assert!(PatchEmbed::new(0, 8).is_none());
    assert!(PatchEmbed::new(16, 0).is_none());
}

#[test]
fn dropout_keep_all_is_identity() {
    let d = PatchDropout::new(SCALE, true);
    let x = TokenMatrix::from_vec(4, 3, (0..12).map(|k| k * 1000).collect()).unwrap();
    let y = d.forward(&x);
    assert_eq!(y.rows, 4);
    assert_eq!(y.cols, 3);
    assert_eq!(y.data, x.data);
}

#[test]
fn dropout_keeps_cls_row_first_and_rounds_count() {
    // 10 rows, keep ratio 0.5: round(10 * 0.5) == 5 rows survive, the
    // class row always first.
    let d = PatchDropout::new(SCALE / 2, true);
    let x = TokenMatrix::from_vec(10, 2, (0..20).map(|k| k * 100).collect()).unwrap();
    for _ in 0..20 {
        let y = d.forward(&x);
        assert_eq!(y.rows, 5);
        assert_eq!(y.cols, 2);
        assert_eq!(&y.data[0..2], &x.data[0..2]);
    }
}

#[test]
fn dropout_sampled_rows_are_distinct_input_rows() {
    // Rows carry distinct markers; the survivors must be distinct rows
    // of the input (a sample without replacement).
    let d = PatchDropout::new(SCALE / 2, false);
    let x = TokenMatrix::from_vec(10, 1, (0..10).map(|k| k * 7777).collect()).unwrap();
    for _ in 0..20 {
        let y = d.forward(&x);
        assert_eq!(y.rows, 5);
        let mut seen = y.data.clone();
        seen.sort();
        seen.dedup();
        assert_eq!(seen.len(), 5);
        for v in &y.data {
            assert!(x.data.contains(v));
        }
    }
}

#[test]
fn dropout_strategies_return_valid_subsets() {
    let d = PatchDropout::new(3 * SCALE / 4, true);
    let x = TokenMatrix::from_vec(8, 2, (0..16).map(|k| k * 5).collect()).unwrap();
    for y in [d.forward(&x), d.forward_rayon(&x), d.forward_rayon_simd(&x)] {
        assert_eq!(y.rows, 6);
        assert_eq!(&y.data[0..2], &x.data[0..2]);
        for row in y.data.chunks(2) {
            assert!(x.data.chunks(2).any(|r| r == row));
        }
    }
}

#[test]
fn dropout_extreme_ratio_keeps_only_cls() {
    let d = PatchDropout::new(0, true);
    let x = TokenMatrix::from_vec(6, 2, (0..12).map(|k| k * 3).collect()).unwrap();
    let y = d.forward(&x);
    assert_eq!(y.rows, 1);
    assert_eq!(y.data, vec![0, 3]);
}

#[test]
fn end_to_end_mid_gray_pipeline() {
    // A 32x32 all-mid-gray image with patch size 16 and embedding
    // dimension 8 gives a 4x8 token matrix; after a zero class row is
    // prepended, the rotary encoder leaves row 0 unchanged (angle zero).
    let p = ImageProcessor::new(32);
    let img = solid_image(32, 32, [128, 128, 128]);
    let t = p.preprocess(&img);
    let e = PatchEmbed::new(16, 8).unwrap();
    let tokens = e.forward(&t);
    assert_eq!(tokens.rows, 4);
    assert_eq!(tokens.cols, 8);
    let mut data = vec![0i64; 8];
    data.extend_from_slice(&tokens.data);
    let mut with_cls = TokenMatrix::from_vec(5, 8, data).unwrap();
    apply_rope(&mut with_cls, 8);
    assert_eq!(&with_cls.data[0..8], &[0i64; 8]);
}
