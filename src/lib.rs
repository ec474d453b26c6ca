//! In-place kernels over RGBA pixel buffers: brightness, contrast, grayscale,
//! 3x3 convolution and a lane-wise brightness kernel, each proved against a
//! mathematical model of its output.
pub mod pixel;
pub mod point;
pub mod lanes;
pub mod convolve;
pub mod laws;

pub use pixel::{PixelError, Ratio};
pub use point::{brightness, contrast, grayscale};
pub use lanes::brightness_simd;
pub use convolve::convolution;
