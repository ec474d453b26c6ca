//! Kernels that map each pixel on its own: brightness, contrast, grayscale.
use vstd::prelude::*;
use crate::pixel::{clamp_byte, is_alpha, saturate, trunc_div, whole_pixels, PixelError};

verus! {

/// A colour byte shifted by `delta` and saturated.
pub open spec fn shifted(b: u8, delta: int) -> u8 {
    clamp_byte(b + delta) as u8
}

/// The buffer after `brightness(s, delta)`: colour bytes shifted, alpha kept.
pub open spec fn brightened(s: Seq<u8>, delta: int) -> Seq<u8> {
    Seq::new(s.len(), |i: int| if is_alpha(i) { s[i] } else { shifted(s[i], delta) })
}

/// Adds `value` to the red, green and blue byte of every pixel, saturating at
/// 0 and 255. Alpha is left alone. A buffer of partial pixels is refused whole.
pub fn brightness(pixels: &mut [u8], value: i16) -> (r: Result<(), PixelError>)
    ensures
        match r {
            Ok(()) => whole_pixels(old(pixels)@.len()) && final(pixels)@ == brightened(
                old(pixels)@,
                value as int,
            ),
            Err(e) => !whole_pixels(old(pixels)@.len()) && e == PixelError::InvalidBufferLength
                && final(pixels)@ == old(pixels)@,
        },
{
    let len = pixels.len();
    if len % 4 != 0 {
        return Err(PixelError::InvalidBufferLength);
    }
    let ghost s = pixels@;
    let mut i: usize = 0;
    while i < len
        invariant
            len == s.len(),
            pixels@.len() == len,
            len % 4 == 0,
            i % 4 == 0,
            i <= len,
            forall|j: int| 0 <= j < i ==> pixels@[j] == #[trigger] brightened(s, value as int)[j],
            forall|j: int| i <= j < len ==> pixels@[j] == s[j],
        decreases len - i,
    {
        let mut c: usize = 0;
        while c < 3
            invariant
                len == s.len(),
                pixels@.len() == len,
                i % 4 == 0,
                i + 4 <= len,
                c <= 3,
                forall|j: int| 0 <= j < i + c ==> pixels@[j] == #[trigger] brightened(s, value as int)[j],
                forall|j: int| i + c <= j < len ==> pixels@[j] == s[j],
            decreases 3 - c,
        {
            let b = pixels[i + c];
            pixels[i + c] = saturate(b as i64 + value as i64);
            c = c + 1;
        }
        i = i + 4;
    }
    proof {
        assert(pixels@ =~= brightened(s, value as int));
    }
    Ok(())
}

} // verus!

verus! {

/// The level of one colour byte `p` after contrast `value`:
/// `factor * (p - 128) + 128` with `factor = 259 (value + 255) / (255 (259 - value))`,
/// computed exactly, rounded toward zero and saturated.
pub open spec fn contrast_level(p: int, value: int) -> int {
    clamp_byte(trunc_div(259 * (value + 255) * (p - 128) + 128 * 255 * (259 - value), 255 * (259 - value)))
}

/// The buffer after a successful `contrast(s, value)`.
pub open spec fn contrasted(s: Seq<u8>, value: int) -> Seq<u8> {
    Seq::new(s.len(), |i: int| if is_alpha(i) { s[i] } else { contrast_level(s[i] as int, value) as u8 })
}

/// What `contrast` answers on these inputs, checked in this order.
pub open spec fn contrast_verdict(len: nat, value: int) -> Result<(), PixelError> {
    if !whole_pixels(len) {
        Err(PixelError::InvalidBufferLength)
    } else if value == 259 {
        Err(PixelError::NumericDegenerate)
    } else {
        Ok(())
    }
}

fn contrast_byte(b: u8, value: i32) -> (r: u8)
    requires
        value != 259,
    ensures
        r as int == contrast_level(b as int, value as int),
{
    let v = value as i64;
    let p = b as i64;
    let a = v + 255;
    let d = p - 128;
    assert(-0x1_0000_0000 * 128 <= a * d <= 0x1_0000_0000 * 128) by (nonlinear_arith)
        requires -0x1_0000_0000 <= a <= 0x1_0000_0000, -128 <= d <= 128;
    let mut num: i64 = 259 * (a * d) + 128 * 255 * (259 - v);
    assert(num == 259 * (v + 255) * (p - 128) + 128 * 255 * (259 - v)) by (nonlinear_arith)
        requires num == 259 * (a * d) + 128 * 255 * (259 - v), a == v + 255, d == p - 128;
    let mut den: i64 = 255 * (259 - v);
    assert(trunc_div(num as int, den as int) == trunc_div(-num, -den));
    if den < 0 {
        num = -num;
        den = -den;
    }
    if num <= 0 {
        assert(trunc_div(num as int, den as int) <= 0);
        0
    } else {
        let q = num / den;
        if q > 255 {
            255
        } else {
            q as u8
        }
    }
}

/// Scales the red, green and blue byte of every pixel away from (or toward)
/// the middle level 128 by the factor that `value` gives; 0 keeps the buffer.
/// The value is a whole number, nominally in `-254..=254`; the factor and each
/// level are computed as exact fractions.
/// Alpha is left alone. Partial pixels, and the value 259 at which the factor
/// has no denominator, are refused whole.
pub fn contrast(pixels: &mut [u8], value: i32) -> (r: Result<(), PixelError>)
    ensures
        r == contrast_verdict(old(pixels)@.len(), value as int),
        r is Ok ==> final(pixels)@ == contrasted(old(pixels)@, value as int),
        r is Err ==> final(pixels)@ == old(pixels)@,
{
    let len = pixels.len();
    if len % 4 != 0 {
        return Err(PixelError::InvalidBufferLength);
    }
    if value == 259 {
        return Err(PixelError::NumericDegenerate);
    }
    let ghost s = pixels@;
    let mut i: usize = 0;
    while i < len
        invariant
            len == s.len(),
            pixels@.len() == len,
            len % 4 == 0,
            i % 4 == 0,
            i <= len,
            value != 259,
            forall|j: int| 0 <= j < i ==> pixels@[j] == #[trigger] contrasted(s, value as int)[j],
            forall|j: int| i <= j < len ==> pixels@[j] == s[j],
        decreases len - i,
    {
        let mut c: usize = 0;
        while c < 3
            invariant
                len == s.len(),
                pixels@.len() == len,
                i % 4 == 0,
                i + 4 <= len,
                c <= 3,
                value != 259,
                forall|j: int| 0 <= j < i + c ==> pixels@[j] == #[trigger] contrasted(s, value as int)[j],
                forall|j: int| i + c <= j < len ==> pixels@[j] == s[j],
            decreases 3 - c,
        {
            let b = pixels[i + c];
            pixels[i + c] = contrast_byte(b, value);
            c = c + 1;
        }
        i = i + 4;
    }
    proof {
        assert(pixels@ =~= contrasted(s, value as int));
    }
    Ok(())
}

/// The gray level `floor(0.299 r + 0.587 g + 0.114 b)`, computed exactly.
pub open spec fn luma(r: int, g: int, b: int) -> int {
    (299 * r + 587 * g + 114 * b) / 1000
}

/// The buffer after `grayscale(s, true)`: each pixel's colour bytes all become
/// its gray level; alpha is kept.
pub open spec fn grayed(s: Seq<u8>) -> Seq<u8> {
    Seq::new(
        s.len(),
        |i: int|
            {
                let p = i - i % 4;
                if is_alpha(i) {
                    s[i]
                } else {
                    luma(s[p] as int, s[p + 1] as int, s[p + 2] as int) as u8
                }
            },
    )
}

/// When `enabled`, replaces the red, green and blue byte of every pixel by its
/// gray level, leaving alpha alone; a buffer of partial pixels is then refused
/// whole. When not enabled, does nothing.
pub fn grayscale(pixels: &mut [u8], enabled: bool) -> (r: Result<(), PixelError>)
    ensures
        r is Err <==> enabled && !whole_pixels(old(pixels)@.len()),
        r is Err ==> r == Err::<(), PixelError>(PixelError::InvalidBufferLength),
        r is Ok && enabled ==> final(pixels)@ == grayed(old(pixels)@),
        r is Err || !enabled ==> final(pixels)@ == old(pixels)@,
{
    if !enabled {
        return Ok(());
    }
    let len = pixels.len();
    if len % 4 != 0 {
        return Err(PixelError::InvalidBufferLength);
    }
    let ghost s = pixels@;
    let mut i: usize = 0;
    while i < len
        invariant
            len == s.len(),
            pixels@.len() == len,
            len % 4 == 0,
            i % 4 == 0,
            i <= len,
            forall|j: int| 0 <= j < i ==> pixels@[j] == #[trigger] grayed(s)[j],
            forall|j: int| i <= j < len ==> pixels@[j] == s[j],
        decreases len - i,
    {
        let r = pixels[i] as u32;
        let g = pixels[i + 1] as u32;
        let b = pixels[i + 2] as u32;
        let gray = ((299 * r + 587 * g + 114 * b) / 1000) as u8;
        pixels[i] = gray;
        pixels[i + 1] = gray;
        pixels[i + 2] = gray;
        proof {
            assert forall|j: int| 0 <= j < i + 4 implies pixels@[j] == #[trigger] grayed(s)[j] by {
                if j >= i {
                    assert(j - j % 4 == i);
                }
            }
        }
        i = i + 4;
    }
    proof {
        assert(pixels@ =~= grayed(s));
    }
    Ok(())
}

} // verus!
