//! The colour value stored in an image.

use vstd::prelude::*;

verus! {

/// One pixel: the red, green and blue channel values.
#[derive(Clone, Copy, Debug, PartialEq, Eq, Structural)]
pub struct Pixel {
    pub r: u8,
    pub g: u8,
    pub b: u8,
}

impl Pixel {
    /// Creates a pixel from its three channel values.
    pub fn new(r: u8, g: u8, b: u8) -> (p: Pixel)
        ensures
            p == (Pixel { r, g, b }),
    {
        Pixel { r, g, b }
    }

    /// The pixel with all channels at zero.
    pub open spec fn black() -> Pixel {
        Pixel { r: 0, g: 0, b: 0 }
    }

    /// The pixel that a stored colour entry stands for. On disk the channels
    /// come in the order blue, green, red; `at` is the place of the blue one.
    pub open spec fn from_bgr(bytes: Seq<u8>, at: int) -> Pixel {
        Pixel { r: bytes[at + 2], g: bytes[at + 1], b: bytes[at] }
    }
}

} // verus!
