use pixel_kernels::{convolution, PixelError, Ratio};

fn image(w: usize, h: usize) -> Vec<u8> {
    (0..w * h * 4).map(|i| ((i * 53 + 7) % 256) as u8).collect()
}

const ONE: Ratio = Ratio { num: 1, den: 1 };

#[test]
fn identity_kernel_keeps_every_pixel() {
    let kernel = [0, 0, 0, 0, 1, 0, 0, 0, 0];
    for (w, h) in [(3usize, 3usize), (4, 5), (7, 3), (9, 8)] {
        let orig = image(w, h);
        let mut px = orig.clone();
        assert_eq!(convolution(&mut px, w, h, &kernel, ONE), Ok(()));
        assert_eq!(px, orig);
    }
}

#[test]
fn box_blur_on_three_by_three_gradient() {
    let mut px = Vec::new();
    for k in 0..9u32 {
        px.push((k * k) as u8);
        px.push((20 * k + 5) as u8);
        px.push((255 - 25 * k) as u8);
        px.push(200);
    }
    let orig = px.clone();
    let kernel = [1; 9];
    let ninth = Ratio { num: 1, den: 9 };
    assert_eq!(convolution(&mut px, 3, 3, &kernel, ninth), Ok(()));
    // 204 / 9, 765 / 9, 1395 / 9, rounded toward zero
    assert_eq!(&px[16..20], &[22, 85, 155, 200]);
    for p in 0..9 {
        if p != 4 {
            assert_eq!(&px[4 * p..4 * p + 4], &orig[4 * p..4 * p + 4]);
        }
    }
}

#[test]
fn neighbours_are_read_from_the_original() {
    // 4 by 3: two interior pixels side by side, each reading the other.
    let mut px = vec![0u8; 4 * 3 * 4];
    px[(4 + 1) * 4] = 90;
    px[(4 + 2) * 4] = 30;
    let kernel = [0, 0, 0, 1, 1, 1, 0, 0, 0];
    assert_eq!(convolution(&mut px, 4, 3, &kernel, ONE), Ok(()));
    assert_eq!(px[(4 + 1) * 4], 120);
    assert_eq!(px[(4 + 2) * 4], 120);
}

#[test]
fn outputs_saturate_at_both_ends() {
    let orig = image(5, 4);
    let mut hi = orig.clone();
    assert_eq!(convolution(&mut hi, 5, 4, &[i32::MAX; 9], Ratio { num: i32::MAX, den: 1 }), Ok(()));
    let mut lo = orig.clone();
    assert_eq!(convolution(&mut lo, 5, 4, &[i32::MIN; 9], Ratio { num: 1, den: 1 }), Ok(()));
    for y in 0..4 {
        for x in 0..5 {
            for c in 0..4 {
                let i = (y * 5 + x) * 4 + c;
                let interior = x >= 1 && x < 4 && y >= 1 && y < 3 && c < 3;
                if interior {
                    let sum: i64 = (0..9).map(|k| orig[((y + k / 3 - 1) * 5 + x + k % 3 - 1) * 4 + c] as i64).sum::<i64>();
                    assert!(sum > 0);
                    assert_eq!(hi[i], 255);
                    assert_eq!(lo[i], 0);
                } else {
                    assert_eq!(hi[i], orig[i]);
                    assert_eq!(lo[i], orig[i]);
                }
            }
        }
    }
}

#[test]
fn negative_sums_round_toward_zero_then_clamp() {
    let mut px = vec![10u8; 3 * 3 * 4];
    let kernel = [0, 0, 0, 0, -1, 0, 0, 0, 0];
    assert_eq!(convolution(&mut px, 3, 3, &kernel, Ratio { num: -3, den: 7 }), Ok(()));
    // 10 * -1 * -3 / 7 = 4.28...
    assert_eq!(&px[16..20], &[4, 4, 4, 10]);
}

#[test]
fn wrong_kernel_size_is_refused() {
    let orig = image(3, 3);
    let mut px = orig.clone();
    assert_eq!(convolution(&mut px, 3, 3, &[1; 8], ONE), Err(PixelError::KernelSizeMismatch));
    assert_eq!(convolution(&mut px, 3, 3, &[1; 10], ONE), Err(PixelError::KernelSizeMismatch));
    assert_eq!(convolution(&mut px, 1, 1, &[], ONE), Err(PixelError::KernelSizeMismatch));
    assert_eq!(px, orig);
}

#[test]
fn small_dimensions_are_refused() {
    let mut px = vec![0u8; 2 * 5 * 4];
    assert_eq!(convolution(&mut px, 2, 5, &[1; 9], ONE), Err(PixelError::InvalidDimensions));
    assert_eq!(convolution(&mut px, 5, 2, &[1; 9], ONE), Err(PixelError::InvalidDimensions));
    let mut empty: Vec<u8> = Vec::new();
    assert_eq!(convolution(&mut empty, 0, 0, &[1; 9], ONE), Err(PixelError::InvalidDimensions));
    assert_eq!(px, vec![0u8; 40]);
}

#[test]
fn mismatched_buffer_is_refused() {
    let mut px = vec![5u8; 3 * 3 * 4 + 4];
    assert_eq!(convolution(&mut px, 3, 3, &[1; 9], ONE), Err(PixelError::InvalidBufferLength));
    assert_eq!(convolution(&mut px, usize::MAX, 3, &[1; 9], ONE), Err(PixelError::InvalidBufferLength));
    assert_eq!(px, vec![5u8; 40]);
}

#[test]
fn zero_denominator_is_refused() {
    let orig = image(3, 3);
    let mut px = orig.clone();
    assert_eq!(convolution(&mut px, 3, 3, &[1; 9], Ratio { num: 1, den: 0 }), Err(PixelError::NumericDegenerate));
    assert_eq!(px, orig);
}
