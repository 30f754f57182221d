use ocr2md::normalize::{bgra_to_rgba, binarize, denoise, histogram, median, otsu_threshold, preprocess_image, RawImage};

fn bimodal_histogram() -> Vec<u64> {
    let mut h = vec![0u64; 256];
    for v in 20..=40 {
        h[v] = 50;
    }
    for v in 200..=220 {
        h[v] = 70;
    }
    h
}

#[test]
fn otsu_threshold_separates_two_clusters() {
    let t = otsu_threshold(&bimodal_histogram());
    assert!(t > 40 && t <= 200, "threshold {} not between the clusters", t);
    assert_eq!(t, 41);
}

#[test]
fn otsu_threshold_of_two_levels() {
    let mut h = vec![0u64; 256];
    h[10] = 5;
    h[250] = 5;
    assert_eq!(otsu_threshold(&h), 11);
}

#[test]
fn otsu_threshold_of_uniform_image_is_zero() {
    let mut h = vec![0u64; 256];
    h[128] = 100;
    assert_eq!(otsu_threshold(&h), 0);
}

#[test]
fn histogram_counts_levels() {
    let h = histogram(&vec![0, 0, 7, 255, 7, 7]);
    assert_eq!(h.len(), 256);
    assert_eq!(h[0], 2);
    assert_eq!(h[7], 3);
    assert_eq!(h[255], 1);
    assert_eq!(h.iter().sum::<u64>(), 6);
}

#[test]
fn binarize_maps_below_to_black_and_rest_to_white() {
    assert_eq!(binarize(&vec![0, 99, 100, 101, 255], 100), vec![0, 0, 255, 255, 255]);
}

#[test]
fn median_of_nine() {
    assert_eq!(median(&vec![9, 1, 8, 2, 7, 3, 6, 4, 5]), 5);
    assert_eq!(median(&vec![0, 0, 0, 0, 255, 255, 255, 255, 255]), 255);
}

#[test]
fn denoise_removes_isolated_outlier() {
    let mut px = vec![200u8; 25];
    px[12] = 0;
    let out = denoise(&px, 5, 5);
    assert_eq!(out[12], 200);
}

#[test]
fn denoise_keeps_border_pixels() {
    let mut px = vec![255u8; 16];
    px[0] = 0;
    px[5] = 0;
    px[6] = 0;
    px[9] = 0;
    px[15] = 17;
    px[3] = 9;
    let out = denoise(&px, 4, 4);
    for i in [0usize, 1, 2, 3, 4, 7, 8, 11, 12, 13, 14, 15] {
        assert_eq!(out[i], px[i], "border pixel {} changed", i);
    }
    assert_eq!(out[5], 255);
    assert_eq!(out[10], 255);
}

#[test]
fn denoise_small_image_is_unchanged() {
    let px = vec![1u8, 2, 3, 4];
    assert_eq!(denoise(&px, 2, 2), px);
}

#[test]
fn preprocess_binarizes_black_and_white_page() {
    let mut rgba = Vec::new();
    for i in 0..16 {
        if i % 4 < 2 {
            rgba.extend_from_slice(&[0, 0, 0, 255]);
        } else {
            rgba.extend_from_slice(&[255, 255, 255, 255]);
        }
    }
    let out = preprocess_image(&RawImage { width: 4, height: 4, rgba });
    assert_eq!(out.width, 4);
    assert_eq!(out.height, 4);
    assert_eq!(out.pixels.len(), 16);
    for i in 0..16 {
        let expected = if i % 4 < 2 { 0 } else { 255 };
        assert_eq!(out.pixels[i], expected);
    }
}

#[test]
fn bgra_becomes_rgba() {
    assert_eq!(bgra_to_rgba(&vec![1, 2, 3, 4, 5, 6, 7, 8, 9]), vec![3, 2, 1, 4, 7, 6, 5, 8]);
    assert_eq!(bgra_to_rgba(&vec![]), Vec::<u8>::new());
}

#[test]
fn otsu_threshold_uses_exact_variance() {
    let mut h = vec![0u64; 256];
    h[3] = 4;
    h[5] = 2;
    h[6] = 4;
    h[8] = 3;
    assert_eq!(otsu_threshold(&h), 6);
}
