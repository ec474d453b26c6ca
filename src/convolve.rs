//! The 3x3 convolution kernel over the interior pixels of an image.
use vstd::prelude::*;
use vstd::arithmetic::div_mod::{lemma_fundamental_div_mod, lemma_fundamental_div_mod_converse};
use crate::pixel::{clamp_byte, is_alpha, trunc_div, PixelError, Ratio};

verus! {

/// Byte index of tap `k` (row-major in the 3x3 window) around pixel `(x, y)`, channel `c`.
pub open spec fn tap_index(w: int, x: int, y: int, k: int, c: int) -> int {
    ((y + k / 3 - 1) * w + (x + k % 3 - 1)) * 4 + c
}

/// The sum of the first `n` weighted taps around pixel `(x, y)`, channel `c`.
pub open spec fn weighted_sum(s: Seq<u8>, kernel: Seq<i32>, w: int, x: int, y: int, c: int, n: nat) -> int
    decreases n,
{
    if n == 0 {
        0
    } else {
        weighted_sum(s, kernel, w, x, y, c, (n - 1) as nat) + kernel[n - 1] * s[tap_index(w, x, y, n - 1, c)]
    }
}

/// A weighted sum scaled by the factor, rounded toward zero and saturated.
pub open spec fn filtered_level(sum: int, factor: Ratio) -> int {
    clamp_byte(trunc_div(sum * factor.num, factor.den as int))
}

/// Whether pixel `(x, y)` has all eight neighbours in a `w` by `h` image.
pub open spec fn is_interior(w: int, h: int, x: int, y: int) -> bool {
    1 <= x < w - 1 && 1 <= y < h - 1
}

/// The buffer after a successful `convolution`: each colour byte of an interior
/// pixel is filtered from the original buffer; all else is kept.
pub open spec fn convolved(s: Seq<u8>, w: int, h: int, kernel: Seq<i32>, factor: Ratio) -> Seq<u8> {
    Seq::new(
        s.len(),
        |i: int|
            {
                let x = (i / 4) % w;
                let y = (i / 4) / w;
                if !is_alpha(i) && is_interior(w, h, x, y) {
                    filtered_level(weighted_sum(s, kernel, w, x, y, i % 4, 9), factor) as u8
                } else {
                    s[i]
                }
            },
    )
}

/// What `convolution` answers on these inputs, checked in this order.
pub open spec fn convolution_verdict(len: nat, w: int, h: int, kernel_len: nat, factor: Ratio) -> Result<(), PixelError> {
    if kernel_len != 9 {
        Err(PixelError::KernelSizeMismatch)
    } else if w < 3 || h < 3 {
        Err(PixelError::InvalidDimensions)
    } else if len != w * h * 4 {
        Err(PixelError::InvalidBufferLength)
    } else if factor.den == 0 {
        Err(PixelError::NumericDegenerate)
    } else {
        Ok(())
    }
}

/// Byte `i` comes before channel `c` of pixel `(x, y)` in row-major order.
pub open spec fn comes_before(i: int, w: int, y: int, x: int, c: int) -> bool {
    let row = (i / 4) / w;
    let col = (i / 4) % w;
    row < y || (row == y && (col < x || (col == x && i % 4 < c)))
}

proof fn lemma_position(w: int, y: int, x: int, c: int)
    requires
        w > 0,
        y >= 0,
        0 <= x < w,
        0 <= c < 4,
    ensures
        ((y * w + x) * 4 + c) / 4 == y * w + x,
        ((y * w + x) * 4 + c) % 4 == c,
        (y * w + x) / w == y,
        (y * w + x) % w == x,
{
    lemma_fundamental_div_mod_converse((y * w + x) * 4 + c, 4, y * w + x, c);
    lemma_fundamental_div_mod_converse(y * w + x, w, y, x);
}

pub proof fn lemma_coords_of(i: int, w: int)
    requires
        w > 0,
        i >= 0,
    ensures
        i == (((i / 4) / w) * w + (i / 4) % w) * 4 + i % 4,
        0 <= (i / 4) % w < w,
        0 <= i % 4 < 4,
        (i / 4) / w >= 0,
{
    lemma_fundamental_div_mod(i, 4);
    lemma_fundamental_div_mod(i / 4, w);
    assert(((i / 4) / w) * w == w * ((i / 4) / w)) by (nonlinear_arith);
}

proof fn lemma_row_below(i: int, w: int, h: int)
    requires
        w > 0,
        h > 0,
        0 <= i < w * h * 4,
    ensures
        (i / 4) / w < h,
{
    lemma_coords_of(i, w);
    let row = (i / 4) / w;
    if row >= h {
        assert(row * w >= h * w) by (nonlinear_arith)
            requires row >= h, w > 0;
        assert(w * h == h * w) by (nonlinear_arith);
    }
}

/// Channel `c` of interior pixel `(x, y)`, filtered from `snap`.
fn filter_channel(
    snap: &Vec<u8>,
    w: usize,
    h: usize,
    x: usize,
    y: usize,
    c: usize,
    kernel: &[i32],
    factor: Ratio,
) -> (r: u8)
    requires
        snap@.len() == w * h * 4,
        is_interior(w as int, h as int, x as int, y as int),
        c < 3,
        kernel@.len() == 9,
        factor.den > 0,
    ensures
        r as int == filtered_level(weighted_sum(snap@, kernel@, w as int, x as int, y as int, c as int, 9), factor),
{
    let n = snap.len();
    let mut acc: i64 = 0;
    let mut k: usize = 0;
    while k < 9
        invariant
            snap@.len() == w * h * 4,
            n == snap@.len(),
            is_interior(w as int, h as int, x as int, y as int),
            c < 3,
            kernel@.len() == 9,
            k <= 9,
            acc as int == weighted_sum(snap@, kernel@, w as int, x as int, y as int, c as int, k as nat),
            -(k * 255 * 0x8000_0000) <= acc <= k * 255 * 0x8000_0000,
        decreases 9 - k,
    {
        let row = y + k / 3 - 1;
        let col = x + k % 3 - 1;
        assert(row * w + col < w * h) by (nonlinear_arith)
            requires row < h, col < w, row >= 0;
        assert((row * w + col) * 4 + c < w * h * 4) by (nonlinear_arith)
            requires row * w + col < w * h, c < 3;
        assert(row * w + col >= 0 && row * w <= row * w + col) by (nonlinear_arith)
            requires row >= 0, col >= 0, w >= 0;
        let idx = (row * w + col) * 4 + c;
        let weight = kernel[k] as i64;
        let level = snap[idx] as i64;
        assert(-(255 * 0x8000_0000) <= weight * level <= 255 * 0x8000_0000) by (nonlinear_arith)
            requires -0x8000_0000 <= weight < 0x8000_0000, 0 <= level <= 255;
        acc = acc + weight * level;
        k = k + 1;
    }
    assert(-(9 * 255 * 0x8000_0000) * 0x8000_0000 <= acc * factor.num <= 9 * 255 * 0x8000_0000 * 0x8000_0000)
        by (nonlinear_arith)
        requires -(9 * 255 * 0x8000_0000) <= acc <= 9 * 255 * 0x8000_0000, -0x8000_0000 <= factor.num < 0x8000_0000;
    let scaled: i128 = acc as i128 * factor.num as i128;
    let den: i128 = factor.den as i128;
    if scaled <= 0 {
        assert(trunc_div(scaled as int, den as int) <= 0) by (nonlinear_arith)
            requires scaled <= 0, den > 0;
        0
    } else {
        let q = scaled / den;
        if q > 255 {
            255
        } else {
            q as u8
        }
    }
}

/// Filters every interior pixel of a `width` by `height` image through the
/// 3x3 `kernel` (row-major, centre at index 4), reading neighbours from a copy
/// taken before the pass. Each colour byte becomes the weighted sum times
/// `factor`, rounded toward zero and saturated. Border pixels and alpha keep
/// their values. Inputs that would read out of bounds are refused whole.
pub fn convolution(pixels: &mut [u8], width: usize, height: usize, kernel: &[i32], factor: Ratio) -> (r: Result<(), PixelError>)
    ensures
        r == convolution_verdict(old(pixels)@.len(), width as int, height as int, kernel@.len(), factor),
        r is Ok ==> final(pixels)@ == convolved(old(pixels)@, width as int, height as int, kernel@, factor),
        r is Err ==> final(pixels)@ == old(pixels)@,
{
    if kernel.len() != 9 {
        return Err(PixelError::KernelSizeMismatch);
    }
    if width < 3 || height < 3 {
        return Err(PixelError::InvalidDimensions);
    }
    let len = pixels.len();
    let fits = match width.checked_mul(height) {
        Some(area) => match area.checked_mul(4) {
            Some(bytes) => bytes == len,
            None => false,
        },
        None => false,
    };
    if !fits {
        return Err(PixelError::InvalidBufferLength);
    }
    if factor.den == 0 {
        return Err(PixelError::NumericDegenerate);
    }
    let snap = vstd::slice::slice_to_vec(pixels);
    let ghost s = snap@;
    let ghost wi = width as int;
    let ghost hi = height as int;
    let ghost target = convolved(s, wi, hi, kernel@, factor);
    let mut y: usize = 1;
    while y < height - 1
        invariant
            snap@ == s,
            s.len() == len,
            len == width * height * 4,
            pixels@.len() == len,
            width >= 3,
            height >= 3,
            kernel@.len() == 9,
            factor.den > 0,
            1 <= y <= height - 1,
            target == convolved(s, wi, hi, kernel@, factor),
            wi == width,
            hi == height,
            forall|i: int|
                0 <= i < len ==> #[trigger] pixels@[i] == if comes_before(i, wi, y as int, 1, 0) {
                    target[i]
                } else {
                    s[i]
                },
        decreases height - y,
    {
        let mut x: usize = 1;
        while x < width - 1
            invariant
                snap@ == s,
                s.len() == len,
                len == width * height * 4,
                pixels@.len() == len,
                width >= 3,
                height >= 3,
                kernel@.len() == 9,
                factor.den > 0,
                1 <= y < height - 1,
                1 <= x <= width - 1,
                target == convolved(s, wi, hi, kernel@, factor),
                wi == width,
                hi == height,
                forall|i: int|
                    0 <= i < len ==> #[trigger] pixels@[i] == if comes_before(i, wi, y as int, x as int, 0) {
                        target[i]
                    } else {
                        s[i]
                    },
            decreases width - x,
        {
            assert(y * width + x < width * height) by (nonlinear_arith)
                requires y < height - 1, x < width - 1;
            let mut c: usize = 0;
            while c < 3
                invariant
                    snap@ == s,
                    s.len() == len,
                    len == width * height * 4,
                    pixels@.len() == len,
                    width >= 3,
                    height >= 3,
                    kernel@.len() == 9,
                    factor.den > 0,
                    1 <= y < height - 1,
                    1 <= x < width - 1,
                    y * width + x < width * height,
                    c <= 3,
                    target == convolved(s, wi, hi, kernel@, factor),
                    wi == width,
                    hi == height,
                    forall|i: int|
                        0 <= i < len ==> #[trigger] pixels@[i] == if comes_before(i, wi, y as int, x as int, c as int) {
                            target[i]
                        } else {
                            s[i]
                        },
                decreases 3 - c,
            {
                let idx = (y * width + x) * 4 + c;
                let v = filter_channel(&snap, width, height, x, y, c, kernel, factor);
                proof {
                    lemma_position(wi, y as int, x as int, c as int);
                    assert(target[idx as int] == v);
                }
                pixels[idx] = v;
                proof {
                    assert forall|i: int| 0 <= i < len implies #[trigger] pixels@[i] == if comes_before(i, wi, y as int, x as int, c + 1) {
                        target[i]
                    } else {
                        s[i]
                    } by {
                        lemma_coords_of(i, wi);
                    }
                }
                c = c + 1;
            }
            proof {
                assert forall|i: int| 0 <= i < len implies #[trigger] pixels@[i] == if comes_before(i, wi, y as int, x + 1, 0) {
                    target[i]
                } else {
                    s[i]
                } by {
                    lemma_coords_of(i, wi);
                }
            }
            x = x + 1;
        }
        proof {
            assert forall|i: int| 0 <= i < len implies #[trigger] pixels@[i] == if comes_before(i, wi, y + 1, 1, 0) {
                target[i]
            } else {
                s[i]
            } by {
                lemma_coords_of(i, wi);
            }
        }
        y = y + 1;
    }
    proof {
        assert forall|i: int| 0 <= i < len implies #[trigger] pixels@[i] == target[i] by {
            lemma_coords_of(i, wi);
            lemma_row_below(i, wi, hi);
        }
        assert(pixels@ =~= target);
    }
    Ok(())
}

} // verus!
