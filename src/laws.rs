//! Properties that relate the kernels' models to each other and to their inputs.
use vstd::prelude::*;
use crate::convolve::{convolved, lemma_coords_of, tap_index, weighted_sum};
use crate::lanes::{lanes_brightened, narrow_saturating};
use crate::pixel::{abs, clamp_byte, trunc_div, whole_pixels, Ratio};
use crate::point::{brightened, contrast_level, contrasted, grayed, luma};

verus! {

/// A delta of zero leaves every buffer as it was, on the scalar and on the
/// lane-wise path.
pub proof fn lemma_zero_delta_is_identity(s: Seq<u8>)
    ensures
        brightened(s, 0) == s,
        lanes_brightened(s, 0) == s,
{
    assert(brightened(s, 0) =~= s);
    assert(lanes_brightened(s, 0) =~= s);
}

/// The lane-wise brightness gives the scalar brightness byte for byte, for
/// every buffer and every delta.
pub proof fn lemma_lanes_match_scalar(s: Seq<u8>, delta: int)
    ensures
        lanes_brightened(s, delta) == brightened(s, delta),
{
    assert forall|i: int| 0 <= i < s.len() implies #[trigger] lanes_brightened(s, delta)[i] == brightened(s, delta)[i] by {
        assert((i % 16) % 4 == i % 4);
    }
    assert(lanes_brightened(s, delta) =~= brightened(s, delta));
}

/// A contrast value of zero gives the factor one and leaves every buffer as it was.
pub proof fn lemma_zero_contrast_is_identity(s: Seq<u8>)
    ensures
        contrasted(s, 0) == s,
{
    assert forall|i: int| 0 <= i < s.len() implies #[trigger] contrasted(s, 0)[i] == s[i] by {
        let p = s[i] as int;
        assert(259 * (0 + 255) * (p - 128) + 128 * 255 * (259 - 0) == (255 * 259) * p) by (nonlinear_arith);
        let k: int = 66045;
        assert((k * p) / k == p) by (nonlinear_arith)
            requires 0 <= p, k > 0;
        assert(trunc_div(k * p, k) == p);
        assert(contrast_level(p, 0) == p);
    }
    assert(contrasted(s, 0) =~= s);
}

/// After grayscale, every pixel has equal red, green and blue bytes, and its
/// alpha byte is the one it had.
pub proof fn lemma_gray_pixels(s: Seq<u8>, q: int)
    requires
        whole_pixels(s.len()),
        0 <= q < s.len() / 4,
    ensures
        grayed(s)[4 * q] == grayed(s)[4 * q + 1],
        grayed(s)[4 * q + 1] == grayed(s)[4 * q + 2],
        grayed(s)[4 * q + 3] == s[4 * q + 3],
{
    assert((4 * q + 1) - (4 * q + 1) % 4 == 4 * q);
    assert((4 * q + 2) - (4 * q + 2) % 4 == 4 * q);
    assert((4 * q) - (4 * q) % 4 == 4 * q);
}

/// Every level a kernel writes is saturated into the byte range before it is
/// stored, so storing it as a byte loses nothing: no kernel wraps around.
pub proof fn lemma_levels_fit_bytes(v: int, r: u8, g: u8, b: u8)
    ensures
        0 <= clamp_byte(v) <= 255,
        clamp_byte(v) as u8 as int == clamp_byte(v),
        narrow_saturating(v) == clamp_byte(v),
        0 <= luma(r as int, g as int, b as int) <= 255,
        luma(r as int, g as int, b as int) as u8 as int == luma(r as int, g as int, b as int),
{
    assert(0 <= 299 * r + 587 * g + 114 * b <= 255000);
}

proof fn lemma_centre_tap_sum(s: Seq<u8>, w: int, x: int, y: int, c: int)
    ensures
        weighted_sum(s, seq![0i32, 0, 0, 0, 1, 0, 0, 0, 0], w, x, y, c, 9) == s[tap_index(w, x, y, 4, c)] as int,
{
    let kernel = seq![0i32, 0, 0, 0, 1, 0, 0, 0, 0];
    let v = s[tap_index(w, x, y, 4, c)] as int;
    assert(kernel[0] == 0 && kernel[1] == 0 && kernel[2] == 0 && kernel[3] == 0 && kernel[4] == 1);
    assert(kernel[5] == 0 && kernel[6] == 0 && kernel[7] == 0 && kernel[8] == 0);
    assert(weighted_sum(s, kernel, w, x, y, c, 1) == weighted_sum(s, kernel, w, x, y, c, 0)) by {
        lemma_zero_weight(kernel[0] as int, s[tap_index(w, x, y, 0, c)] as int);
    }
    assert(weighted_sum(s, kernel, w, x, y, c, 2) == weighted_sum(s, kernel, w, x, y, c, 1)) by {
        lemma_zero_weight(kernel[1] as int, s[tap_index(w, x, y, 1, c)] as int);
    }
    assert(weighted_sum(s, kernel, w, x, y, c, 3) == weighted_sum(s, kernel, w, x, y, c, 2)) by {
        lemma_zero_weight(kernel[2] as int, s[tap_index(w, x, y, 2, c)] as int);
    }
    assert(weighted_sum(s, kernel, w, x, y, c, 4) == weighted_sum(s, kernel, w, x, y, c, 3)) by {
        lemma_zero_weight(kernel[3] as int, s[tap_index(w, x, y, 3, c)] as int);
    }
    assert(weighted_sum(s, kernel, w, x, y, c, 0) == 0);
    assert(weighted_sum(s, kernel, w, x, y, c, 5) == weighted_sum(s, kernel, w, x, y, c, 4) + v) by {
        lemma_unit_weight(kernel[4] as int, v);
    }
    assert(weighted_sum(s, kernel, w, x, y, c, 6) == weighted_sum(s, kernel, w, x, y, c, 5)) by {
        lemma_zero_weight(kernel[5] as int, s[tap_index(w, x, y, 5, c)] as int);
    }
    assert(weighted_sum(s, kernel, w, x, y, c, 7) == weighted_sum(s, kernel, w, x, y, c, 6)) by {
        lemma_zero_weight(kernel[6] as int, s[tap_index(w, x, y, 6, c)] as int);
    }
    assert(weighted_sum(s, kernel, w, x, y, c, 8) == weighted_sum(s, kernel, w, x, y, c, 7)) by {
        lemma_zero_weight(kernel[7] as int, s[tap_index(w, x, y, 7, c)] as int);
    }
    assert(weighted_sum(s, kernel, w, x, y, c, 9) == weighted_sum(s, kernel, w, x, y, c, 8)) by {
        lemma_zero_weight(kernel[8] as int, s[tap_index(w, x, y, 8, c)] as int);
    }
}

proof fn lemma_unit_weight(a: int, b: int)
    requires
        a == 1,
    ensures
        a * b == b,
{
}

proof fn lemma_zero_weight(a: int, b: int)
    requires
        a == 0,
    ensures
        a * b == 0,
{
}

/// The kernel with a single one at its centre and the factor one leaves every
/// pixel as it was, interior and border alike, for any image of at least three
/// by three pixels.
pub proof fn lemma_identity_kernel(s: Seq<u8>, w: int, h: int)
    requires
        w >= 3,
        h >= 3,
        s.len() == w * h * 4,
    ensures
        convolved(s, w, h, seq![0i32, 0, 0, 0, 1, 0, 0, 0, 0], Ratio { num: 1, den: 1 }) == s,
{
    let kernel = seq![0i32, 0, 0, 0, 1, 0, 0, 0, 0];
    let out = convolved(s, w, h, kernel, Ratio { num: 1, den: 1 });
    assert forall|i: int| 0 <= i < s.len() implies #[trigger] out[i] == s[i] by {
        lemma_coords_of(i, w);
        let x = (i / 4) % w;
        let y = (i / 4) / w;
        let c = i % 4;
        lemma_centre_tap_sum(s, w, x, y, c);
        let v = s[tap_index(w, x, y, 4, c)] as int;
        assert(tap_index(w, x, y, 4, c) == i);
        assert(0 <= v <= 255);
        assert(v * 1 == v && abs(v) == v && abs(1) == 1 && v / 1 == v);
        assert(trunc_div(v * 1, 1) == v);
    }
    assert(out =~= s);
}

} // verus!
