use pixel_kernels::{brightness, brightness_simd, contrast, grayscale, PixelError};

fn sample(len: usize) -> Vec<u8> {
    (0..len).map(|i| ((i * 37 + 11) % 256) as u8).collect()
}

#[test]
fn brightness_shifts_colour_and_keeps_alpha() {
    let mut px = vec![10u8, 250, 0, 77, 128, 5, 255, 0];
    assert_eq!(brightness(&mut px, 20), Ok(()));
    assert_eq!(px, vec![30, 255, 20, 77, 148, 25, 255, 0]);
    assert_eq!(brightness(&mut px, -30), Ok(()));
    assert_eq!(px, vec![0, 225, 0, 77, 118, 0, 225, 0]);
}

#[test]
fn brightness_saturates_on_extreme_deltas() {
    let mut px = vec![0u8, 1, 254, 9, 200, 100, 50, 3];
    assert_eq!(brightness(&mut px, i16::MAX), Ok(()));
    assert_eq!(px, vec![255, 255, 255, 9, 255, 255, 255, 3]);
    assert_eq!(brightness(&mut px, i16::MIN), Ok(()));
    assert_eq!(px, vec![0, 0, 0, 9, 0, 0, 0, 3]);
}

#[test]
fn brightness_refuses_partial_pixels() {
    let mut px = vec![1u8, 2, 3, 4, 5, 6];
    assert_eq!(brightness(&mut px, 10), Err(PixelError::InvalidBufferLength));
    assert_eq!(px, vec![1, 2, 3, 4, 5, 6]);
    assert_eq!(brightness_simd(&mut px, 10), Err(PixelError::InvalidBufferLength));
    assert_eq!(px, vec![1, 2, 3, 4, 5, 6]);
}

#[test]
fn zero_delta_is_identity_on_both_paths() {
    let orig = sample(4 * 13);
    let mut a = orig.clone();
    let mut b = orig.clone();
    assert_eq!(brightness(&mut a, 0), Ok(()));
    assert_eq!(brightness_simd(&mut b, 0), Ok(()));
    assert_eq!(a, orig);
    assert_eq!(b, orig);
}

#[test]
fn lane_path_matches_scalar_path() {
    for len in [0usize, 4, 16, 20, 32, 36, 148] {
        for delta in [0i16, 1, -1, 45, -45, 255, -255, 256, 1000, -1000, i16::MAX, i16::MIN] {
            let orig = sample(len);
            let mut a = orig.clone();
            let mut b = orig.clone();
            assert_eq!(brightness(&mut a, delta), Ok(()));
            assert_eq!(brightness_simd(&mut b, delta), Ok(()));
            assert_eq!(a, b, "len {} delta {}", len, delta);
        }
    }
}

#[test]
fn lane_path_keeps_alpha_in_full_blocks() {
    let mut px = vec![100u8; 16];
    assert_eq!(brightness_simd(&mut px, 50), Ok(()));
    assert_eq!(px, vec![150, 150, 150, 100, 150, 150, 150, 100, 150, 150, 150, 100, 150, 150, 150, 100]);
}

#[test]
fn zero_contrast_is_identity() {
    let orig = sample(4 * 64);
    let mut px = orig.clone();
    assert_eq!(contrast(&mut px, 0), Ok(()));
    assert_eq!(px, orig);
}

#[test]
fn contrast_exact_levels() {
    let mut px = vec![100u8, 130, 200, 7];
    assert_eq!(contrast(&mut px, 100), Ok(()));
    assert_eq!(px, vec![64, 132, 255, 7]);
    let mut px = vec![0u8, 255, 128, 90];
    assert_eq!(contrast(&mut px, -100), Ok(()));
    assert_eq!(px, vec![71, 183, 128, 90]);
}

#[test]
fn contrast_refuses_singular_value_and_partial_pixels() {
    let mut px = vec![1u8, 2, 3, 4];
    assert_eq!(contrast(&mut px, 259), Err(PixelError::NumericDegenerate));
    assert_eq!(px, vec![1, 2, 3, 4]);
    let mut odd = vec![1u8, 2, 3];
    assert_eq!(contrast(&mut odd, 259), Err(PixelError::InvalidBufferLength));
    assert_eq!(contrast(&mut odd, 10), Err(PixelError::InvalidBufferLength));
    assert_eq!(odd, vec![1, 2, 3]);
}

#[test]
fn grayscale_levels_truncate() {
    let mut px = vec![255u8, 255, 255, 9, 100, 150, 200, 1, 10, 20, 30, 40];
    assert_eq!(grayscale(&mut px, true), Ok(()));
    assert_eq!(px, vec![255, 255, 255, 9, 140, 140, 140, 1, 18, 18, 18, 40]);
}

#[test]
fn grayscale_disabled_is_identity() {
    let orig = sample(4 * 9 + 3);
    let mut px = orig.clone();
    assert_eq!(grayscale(&mut px, false), Ok(()));
    assert_eq!(px, orig);
}

#[test]
fn grayscale_gives_equal_channels() {
    let orig = sample(4 * 50);
    let mut px = orig.clone();
    assert_eq!(grayscale(&mut px, true), Ok(()));
    for q in 0..50 {
        assert_eq!(px[4 * q], px[4 * q + 1]);
        assert_eq!(px[4 * q + 1], px[4 * q + 2]);
        assert_eq!(px[4 * q + 3], orig[4 * q + 3]);
    }
}

#[test]
fn grayscale_refuses_partial_pixels() {
    let mut px = vec![1u8, 2, 3, 4, 5];
    assert_eq!(grayscale(&mut px, true), Err(PixelError::InvalidBufferLength));
    assert_eq!(px, vec![1, 2, 3, 4, 5]);
}
