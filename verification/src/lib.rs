//! A decoder for uncompressed BMP images held in memory, and the pixel grid
//! it produces.

pub mod pixel;
pub mod error;
pub mod bytes;
pub mod header;
pub mod bits;
pub mod decoder;
pub mod checked;
pub mod laws;
pub mod image;
pub mod image_data;

pub use error::{BmpError, BmpErrorKind, BmpResult};
pub use decoder::{decode_image, from_bytes};
pub use image::{Image, ImageIndex};
pub use image_data::ImageData;
pub use pixel::Pixel;
