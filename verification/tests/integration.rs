use pixelmatch::aa::{antialiased, has_many_siblings};
use pixelmatch::{color_delta_public, pixelmatch, pixelmatch_count, Options, PixelmatchError};

fn opts_with_threshold(t: f64) -> Options {
    Options { threshold: t.to_bits(), ..Default::default() }
}

// --- Error handling tests ---

#[test]
fn test_image_size_mismatch() {
    let result = pixelmatch_count(&[0u8; 8], &[0u8; 9], 2, 1, &Default::default());
    assert!(result.is_err());
}

#[test]
fn test_image_data_size_mismatch() {
    let result = pixelmatch_count(&[0u8; 9], &[0u8; 9], 2, 1, &Default::default());
    assert!(result.is_err());
}

#[test]
fn test_dimension_overflow() {
    let result = pixelmatch_count(&[0u8; 4], &[0u8; 4], u32::MAX, u32::MAX, &Default::default());
    assert!(matches!(result, Err(PixelmatchError::DimensionOverflow)));
}

#[test]
fn test_output_size_mismatch() {
    let img = [255u8, 0, 0, 255];
    let mut out = vec![0u8; 8];
    let result = pixelmatch(&img, &img, &mut out, 1, 1, &Default::default());
    assert!(matches!(result, Err(PixelmatchError::OutputSizeMismatch { .. })));
}

#[test]
fn test_buffer_length_mismatch_variant() {
    let result = pixelmatch_count(&[0u8; 8], &[0u8; 8], 1, 1, &Default::default());
    assert!(matches!(
        result,
        Err(PixelmatchError::BufferLengthMismatch { expected: 4, actual: 8 })
    ));
}

// --- Boundary dimension tests ---

#[test]
fn test_1x1_identical() {
    let img = [255u8, 0, 0, 255]; // red pixel
    let result = pixelmatch_count(&img, &img, 1, 1, &Default::default()).unwrap();
    assert_eq!(result.diff_count, 0);
    assert!(result.identical);
}

#[test]
fn test_1x1_different() {
    let img1 = [255u8, 0, 0, 255]; // red
    let img2 = [0u8, 0, 255, 255]; // blue
    let result = pixelmatch_count(&img1, &img2, 1, 1, &opts_with_threshold(0.0)).unwrap();
    assert_eq!(result.diff_count, 1);
    assert!(!result.identical);
}

#[test]
fn test_1xn_image() {
    // 1x3 image -- exercises edge clamping in the neighbourhood scans
    let img1 = [255, 0, 0, 255, 0, 255, 0, 255, 0, 0, 255, 255];
    let img2 = [255, 0, 0, 255, 0, 255, 0, 255, 0, 0, 255, 255];
    let result = pixelmatch_count(&img1, &img2, 1, 3, &Default::default()).unwrap();
    assert_eq!(result.diff_count, 0);
    assert!(result.identical);
}

#[test]
fn test_nx1_image() {
    // 3x1 image
    let img1 = [255, 0, 0, 255, 0, 255, 0, 255, 0, 0, 255, 255];
    let img2 = [255, 0, 0, 255, 0, 255, 0, 255, 0, 0, 255, 255];
    let result = pixelmatch_count(&img1, &img2, 3, 1, &Default::default()).unwrap();
    assert_eq!(result.diff_count, 0);
    assert!(result.identical);
}

#[test]
fn test_1xn_different_ends() {
    let img1 = [255, 0, 0, 255, 0, 255, 0, 255, 0, 0, 255, 255];
    let img2 = [0, 0, 255, 255, 0, 255, 0, 255, 255, 0, 0, 255];
    let result = pixelmatch_count(&img1, &img2, 1, 3, &opts_with_threshold(0.0)).unwrap();
    assert_eq!(result.diff_count, 2);
    assert!(!result.identical);
}

// --- Property tests ---

#[test]
fn test_color_delta_same_pixel_is_zero() {
    // the colour metric of a pixel against itself is exactly zero
    let img = [128u8, 64, 32, 255, 0, 128, 255, 200];
    assert_eq!(color_delta_public(&img, &img, 0, 0, false), (0.0f64).to_bits());
    assert_eq!(color_delta_public(&img, &img, 4, 4, false), (0.0f64).to_bits());
}

// Hand-computed reference for a semi-transparent pixel pair; catches any
// deviation from strict IEEE-754 double evaluation (e.g. fused operations).
#[test]
fn test_semi_transparent_color_delta() {
    // Two semi-transparent pixels at byte offset 0
    let img1 = [200u8, 100, 50, 128];
    let img2 = [100u8, 200, 150, 200];

    let delta = color_delta_public(&img1, &img2, 0, 0, false);
    // a1=128, a2=200, k=0 => rb = gb = bb = 48
    // dr = (200*128 - 100*200 - 48*(128-200)) / 255 = 9056/255
    // dg = (100*128 - 200*200 - 48*(-72)) / 255 = -23744/255
    // db = (50*128 - 150*200 - 48*(-72)) / 255 = -20144/255
    let dr = 9056.0_f64 / 255.0;
    let dg = -23744.0_f64 / 255.0;
    let db = -20144.0_f64 / 255.0;

    let y = dr * 0.29889531 + dg * 0.58662247 + db * 0.11448223;
    let i = dr * 0.59597799 - dg * 0.27417610 - db * 0.32180189;
    let q = dr * 0.21147017 - dg * 0.52261711 + db * 0.31114694;
    let expected = 0.5053 * y * y + 0.299 * i * i + 0.1957 * q * q;
    // y is negative here, so the signed delta stays positive
    let expected_signed = if y > 0.0 { -expected } else { expected };

    // No tolerance: the encoding must match bit for bit
    assert_eq!(
        delta,
        expected_signed.to_bits(),
        "semi-transparent colour delta must match strict double evaluation exactly"
    );
}

#[test]
fn test_color_delta_y_only_brightness() {
    // brightness-only mode returns the signed luminance difference
    let img1 = [255u8, 255, 255, 255];
    let img2 = [0u8, 0, 0, 255];
    let y = 255.0_f64 * 0.29889531 + 255.0 * 0.58662247 + 255.0 * 0.11448223;
    assert_eq!(color_delta_public(&img1, &img2, 0, 0, true), y.to_bits());
}

#[test]
fn test_dither_background_depends_on_offset() {
    // the synthetic background is keyed on the byte offset itself, so the
    // same semi-transparent pair gives different deltas at offsets 0 and 4
    let img1 = [200u8, 100, 50, 128, 200, 100, 50, 128];
    let img2 = [100u8, 200, 150, 200, 100, 200, 150, 200];
    let d0 = color_delta_public(&img1, &img2, 0, 0, false);
    let d4 = color_delta_public(&img1, &img2, 4, 4, false);
    assert_ne!(d0, d4);
    // offset 4: k%2 == 0 -> rb = 48; floor(4/1.618) = 2 -> gb = 48;
    // floor(4/2.618) = 1 -> bb = 207
    let dr = (200.0_f64 * 128.0 - 100.0 * 200.0 - 48.0 * -72.0) / 255.0;
    let dg = (100.0_f64 * 128.0 - 200.0 * 200.0 - 48.0 * -72.0) / 255.0;
    let db = (50.0_f64 * 128.0 - 150.0 * 200.0 - 207.0 * -72.0) / 255.0;
    let y = dr * 0.29889531 + dg * 0.58662247 + db * 0.11448223;
    let i = dr * 0.59597799 - dg * 0.27417610 - db * 0.32180189;
    let q = dr * 0.21147017 - dg * 0.52261711 + db * 0.31114694;
    let expected = 0.5053 * y * y + 0.299 * i * i + 0.1957 * q * q;
    let expected_signed = if y > 0.0 { -expected } else { expected };
    assert_eq!(d4, expected_signed.to_bits());
}

/// A 3x3 pair where the centre pixel's difference is an anti-aliasing
/// artifact (gradient neighbourhood, flat siblings) and the corner's is a
/// true difference.
fn aa_pair() -> (Vec<u8>, Vec<u8>) {
    let white = [255u8, 255, 255, 255];
    let img1: Vec<u8> = white.repeat(9);
    let mut img2 = img1.clone();
    // centre (1,1) becomes mid-gray, corner (0,0) becomes black
    img2[4 * 4..4 * 4 + 4].copy_from_slice(&[128, 128, 128, 255]);
    img2[0..4].copy_from_slice(&[0, 0, 0, 255]);
    (img1, img2)
}

#[test]
fn test_identical_images() {
    let (img1, _) = aa_pair();
    let result = pixelmatch_count(&img1, &img1, 3, 3, &Default::default())
        .expect("pixelmatch should not error");
    assert!(result.identical, "identical images should have identical = true");
    assert_eq!(result.diff_count, 0);
    assert_eq!(result.aa_count, 0);
}

#[test]
fn test_different_images_not_identical() {
    let (img1, img2) = aa_pair();
    let result = pixelmatch_count(&img1, &img2, 3, 3, &opts_with_threshold(0.05))
        .expect("pixelmatch should not error");
    assert!(!result.identical, "different images should have identical = false");
}

#[test]
fn test_aa_count_with_detection() {
    let (img1, img2) = aa_pair();

    // With AA detection (default)
    let with_aa = pixelmatch_count(&img1, &img2, 3, 3, &opts_with_threshold(0.05)).unwrap();

    // Without AA detection
    let without_aa = pixelmatch_count(
        &img1,
        &img2,
        3,
        3,
        &Options {
            threshold: (0.05f64).to_bits(),
            detect_anti_aliasing: false,
            ..Default::default()
        },
    )
    .unwrap();

    assert!(with_aa.aa_count > 0, "aa_count should be > 0 when AA detection is enabled");
    assert_eq!(without_aa.aa_count, 0, "aa_count should be 0 when AA detection is disabled");
    assert_eq!(
        without_aa.diff_count,
        with_aa.diff_count + with_aa.aa_count,
        "without AA, the diff count equals the AA-on diff count plus the AA count"
    );
}

#[test]
fn test_output_equivalence() {
    // counts are the same whether or not an output buffer is supplied
    let (img1, img2) = aa_pair();
    let mut out = vec![0u8; img1.len()];
    let with_out = pixelmatch(&img1, &img2, &mut out, 3, 3, &opts_with_threshold(0.05)).unwrap();
    let without = pixelmatch_count(&img1, &img2, 3, 3, &opts_with_threshold(0.05)).unwrap();
    assert_eq!(with_out.diff_count, without.diff_count);
    assert_eq!(with_out.aa_count, without.aa_count);
    assert_eq!(with_out.identical, without.identical);
}

#[test]
fn test_threshold_monotonicity() {
    // raising the threshold never increases the diff count
    let (img1, img2) = aa_pair();
    let mut previous = u32::MAX;
    for t in [0.0, 0.05, 0.1, 0.3, 0.7, 1.0] {
        let r = pixelmatch_count(&img1, &img2, 3, 3, &opts_with_threshold(t)).unwrap();
        assert!(r.diff_count <= previous, "diff count must not grow with the threshold");
        previous = r.diff_count;
    }
}

#[test]
fn test_reflexivity_on_varied_image() {
    // compare(X, X) yields zero counts and the identical flag, for a buffer
    // with varied channels and alphas
    let img: Vec<u8> = (0u8..=255).collect(); // 8x8 image, 256 bytes
    for t in [0.0, 0.1, 1.0] {
        let r = pixelmatch_count(&img, &img, 8, 8, &opts_with_threshold(t)).unwrap();
        assert_eq!(r.diff_count, 0);
        assert_eq!(r.aa_count, 0);
        assert!(r.identical);
    }
}

#[test]
fn test_zero_counts_without_fast_path_keep_identical_false() {
    // a threshold of 1.0 suppresses every difference, but `identical`
    // still reports byte equality only
    let img1 = [255u8, 0, 0, 255];
    let img2 = [254u8, 0, 0, 255];
    let r = pixelmatch_count(&img1, &img2, 1, 1, &opts_with_threshold(1.0)).unwrap();
    assert_eq!(r.diff_count, 0);
    assert!(!r.identical);
}

// --- Diff rendering tests ---

#[test]
fn test_render_diff_pixel_red() {
    let img1 = [255u8, 0, 0, 255];
    let img2 = [0u8, 0, 255, 255];
    let mut out = vec![0u8; 4];
    let r = pixelmatch(&img1, &img2, &mut out, 1, 1, &opts_with_threshold(0.0)).unwrap();
    assert_eq!(r.diff_count, 1);
    assert_eq!(out, vec![255, 0, 0, 255]);
}

#[test]
fn test_render_diff_color_alt_for_darkening() {
    // white -> black darkens, so the alternative colour is used
    let img1 = [255u8, 255, 255, 255];
    let img2 = [0u8, 0, 0, 255];
    let mut out = vec![0u8; 4];
    let opts = Options {
        threshold: (0.1f64).to_bits(),
        diff_color_alt: Some([0, 255, 0]),
        ..Default::default()
    };
    let r = pixelmatch(&img1, &img2, &mut out, 1, 1, &opts).unwrap();
    assert_eq!(r.diff_count, 1);
    assert_eq!(out, vec![0, 255, 0, 255]);
}

#[test]
fn test_render_gray_background() {
    // an unchanged pixel renders as the alpha-blended grayscale of image 1
    let img = [100u8, 150, 200, 255];
    let mut out = vec![0u8; 4];
    let r = pixelmatch(&img, &img, &mut out, 1, 1, &Default::default()).unwrap();
    assert_eq!(r.diff_count, 0);
    let lum = 100.0_f64 * 0.29889531 + 150.0 * 0.58662247 + 200.0 * 0.11448223;
    let val = (255.0 + (lum - 255.0) * 0.1 * 255.0 / 255.0) as u8;
    assert_eq!(out, vec![val, val, val, 255]);
}

#[test]
fn test_render_diff_mask_leaves_unchanged_pixels() {
    // with diff_mask, unchanged pixels keep whatever the output held
    let img = [10u8, 20, 30, 255];
    let mut out = vec![7u8; 4];
    let opts = Options { diff_mask: true, ..Default::default() };
    let r = pixelmatch(&img, &img, &mut out, 1, 1, &opts).unwrap();
    assert_eq!(r.diff_count, 0);
    assert_eq!(out, vec![7, 7, 7, 7]);
}

#[test]
fn test_render_aa_pixel_yellow() {
    let (img1, img2) = aa_pair();
    let mut out = vec![0u8; img1.len()];
    let r = pixelmatch(&img1, &img2, &mut out, 3, 3, &opts_with_threshold(0.05)).unwrap();
    assert!(r.aa_count > 0);
    // the centre pixel (1,1) is the anti-aliased one: painted yellow
    assert_eq!(&out[16..20], &[255, 255, 0, 255]);
    // the corner (0,0) is a true difference: painted red
    assert_eq!(&out[0..4], &[255, 0, 0, 255]);
}

// --- Classifier unit tests ---

#[test]
fn test_has_many_siblings_uniform_region() {
    let img = [200u8, 200, 200, 255].repeat(9); // uniform 3x3
    assert!(has_many_siblings(&img, 1, 1, 3, 3));
    assert!(has_many_siblings(&img, 0, 0, 3, 3));
}

#[test]
fn test_has_many_siblings_isolated_pixel() {
    let mut img = [200u8, 200, 200, 255].repeat(9);
    img[4 * 4..4 * 4 + 4].copy_from_slice(&[9, 9, 9, 255]); // centre differs
    assert!(!has_many_siblings(&img, 1, 1, 3, 3));
}

#[test]
fn test_antialiased_gradient_centre() {
    let (img1, img2) = aa_pair();
    // the mid-gray centre of img2 sits between its black and white
    // neighbours, with flat white regions beside the extremes
    assert!(antialiased(&img2, 1, 1, 3, 3, &img2, &img1));
    // within the uniform img1 every neighbour is equal: not anti-aliasing
    assert!(!antialiased(&img1, 1, 1, 3, 3, &img1, &img2));
}

#[test]
fn test_default_options() {
    let o = Options::default();
    assert_eq!(o.threshold, (0.1f64).to_bits());
    assert_eq!(o.alpha, (0.1f64).to_bits());
    assert!(o.detect_anti_aliasing);
    assert_eq!(o.aa_color, [255, 255, 0]);
    assert_eq!(o.diff_color, [255, 0, 0]);
    assert!(o.diff_color_alt.is_none());
    assert!(!o.diff_mask);
}

#[test]
fn test_error_leaves_output_untouched() {
    let img1 = [255u8, 0, 0, 255];
    let img2 = [0u8, 0, 255, 255, 0, 0, 255, 255];
    let mut out = vec![9u8; 4];
    let r = pixelmatch(&img1, &img2, &mut out, 1, 1, &Default::default());
    assert!(r.is_err());
    assert_eq!(out, vec![9, 9, 9, 9]);
}
