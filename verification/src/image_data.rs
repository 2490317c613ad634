//! The pixels of an image as plain numbers.

use vstd::prelude::*;

verus! {

/// The size of an image and its pixels, row by row, one number for each
/// pixel.
#[derive(Clone, Debug, PartialEq, Eq, Hash)]
pub struct ImageData {
    pub width: u32,
    pub height: u32,
    pub pixels: Vec<Vec<u32>>,
}

} // verus!
