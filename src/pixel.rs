//! The buffer layout shared by every kernel, and the arithmetic they agree on.
use vstd::prelude::*;

verus! {

/// Why a kernel refused its input. A refused call leaves the buffer as it was.
#[derive(Debug, Clone, Copy, PartialEq, Eq, Structural)]
pub enum PixelError {
    /// The buffer does not hold whole pixels, or not as many as the dimensions say.
    InvalidBufferLength,
    /// Width or height is below three, so no pixel has all eight neighbours.
    InvalidDimensions,
    /// The convolution kernel does not hold exactly nine weights.
    KernelSizeMismatch,
    /// A parameter makes the kernel's formula divide by zero.
    NumericDegenerate,
}

/// An exact rational scale factor `num / den`. A zero `den` is refused by the
/// kernels that take one.
#[derive(Debug, Clone, Copy, PartialEq, Eq, Structural)]
pub struct Ratio {
    pub num: i32,
    pub den: u32,
}

/// A value forced into the byte range `0..=255`.
pub open spec fn clamp_byte(v: int) -> int {
    if v < 0 {
        0
    } else if v > 255 {
        255
    } else {
        v
    }
}

/// The quotient `a / b` rounded toward zero.
pub open spec fn trunc_div(a: int, b: int) -> int
    recommends
        b != 0,
{
    if (a >= 0) == (b > 0) {
        abs(a) / abs(b)
    } else {
        -(abs(a) / abs(b))
    }
}

/// The magnitude of `a`.
pub open spec fn abs(a: int) -> int {
    if a < 0 {
        -a
    } else {
        a
    }
}

/// Whether byte `i` of a buffer is an alpha byte.
pub open spec fn is_alpha(i: int) -> bool {
    i % 4 == 3
}

/// Whether a buffer of this length holds whole pixels only.
pub open spec fn whole_pixels(len: nat) -> bool {
    len % 4 == 0
}

/// `clamp_byte(v)` as an executable byte.
pub fn saturate(v: i64) -> (r: u8)
    ensures
        r as int == clamp_byte(v as int),
{
    if v < 0 {
        0
    } else if v > 255 {
        255
    } else {
        v as u8
    }
}

} // verus!
