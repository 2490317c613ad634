//! What holds of every buffer that is handed to the decoder.

use vstd::prelude::*;
use vstd::arithmetic::div_mod::lemma_fundamental_div_mod;
use crate::bits::lemma_index_value_bounded;
use crate::decoder::{
    bytes_per_row,
    decodable,
    decode_fault,
    decoded_height,
    decoded_image,
    decoded_palette,
    decoded_pixels,
    decoded_width,
    dib_header_of,
    has_magic,
    header_of,
    indexes_fit,
    lemma_row_counts,
    lemma_rows_bounded,
    palette_entries,
    pixel_data_fits,
    pixel_index,
    pixels_per_row,
    row_bytes,
    rows_fit,
    supported_depth,
};
use crate::error::BmpErrorKind;
use crate::header::{lemma_pixel_count_bounded, BmpVersion};

verus! {

/// A buffer that does not start with the magic bytes can be handed to the
/// decoder and is refused for them, whatever else it holds.
pub proof fn lemma_wrong_magic_refused(bytes: Seq<u8>)
    requires
        bytes.len() >= 2,
        bytes[0] != 66 || bytes[1] != 77,
    ensures
        decodable(bytes),
        decode_fault(bytes) == Some(BmpErrorKind::WrongMagicNumbers),
{
}

/// A buffer with the magic bytes and both headers whose information header
/// has the size of version 2 is refused for its version.
pub proof fn lemma_version_two_refused(bytes: Seq<u8>)
    requires
        has_magic(bytes),
        bytes.len() >= 54,
        dib_header_of(bytes).header_size == 12,
    ensures
        decodable(bytes),
        decode_fault(bytes) == Some(BmpErrorKind::UnsupportedBmpVersion),
{
}

/// A buffer with the magic bytes and both headers, of a version that is
/// decoded, whose bit depth is none of 1, 4, 8 and 24 is refused for its bit
/// depth: so it is with 16 bits per pixel.
pub proof fn lemma_depth_refused(bytes: Seq<u8>)
    requires
        has_magic(bytes),
        bytes.len() >= 54,
        BmpVersion::infer(dib_header_of(bytes).header_size, dib_header_of(bytes).compress_type)
            is Some,
        BmpVersion::infer(
            dib_header_of(bytes).header_size,
            dib_header_of(bytes).compress_type,
        ).unwrap().supported(),
        !supported_depth(dib_header_of(bytes).bits_per_pixel),
    ensures
        !supported_depth(16),
        decodable(bytes),
        decode_fault(bytes) == Some(BmpErrorKind::UnsupportedBitsPerPixel),
{
}

/// With a palette that has an entry for every value of an index, every
/// pixel's index has an entry, whatever the buffer holds.
pub proof fn lemma_full_palette_fits(
    bytes: Seq<u8>,
    palette_len: int,
    width: int,
    height: int,
    bpp: int,
    offset: int,
)
    requires
        0 <= width,
        0 <= height,
        bpp == 1 || bpp == 4 || bpp == 8,
        palette_len >= (if bpp == 1 {
            2int
        } else if bpp == 4 {
            16int
        } else {
            256int
        }),
    ensures
        indexes_fit(bytes, palette_len, width, height, bpp, offset),
{
    let per_row = pixels_per_row(width, bpp);
    assert forall|k: int| 0 <= k < height * per_row implies 0 <= #[trigger] pixel_index(
        bytes,
        width,
        bpp,
        offset,
        k,
    ) < palette_len by {
        lemma_row_counts(width, bpp, 0);
        assert(per_row > 0) by (nonlinear_arith)
            requires
                0 <= k < height * per_row,
                0 <= per_row,
        ;
        let j = k % per_row;
        let row = row_bytes(bytes, width, bpp, offset, k / per_row);
        let p = (j * bpp) % 8;
        assert(0 <= p && p + bpp <= 8) by {
            if bpp == 4 {
                assert((j * 4) % 8 == 0 || (j * 4) % 8 == 4);
            }
        }
        lemma_index_value_bounded(row[j * bpp / 8], bpp as u8, p as u8);
    }
}

/// An image is decoded whole, with a pixel for every place of its grid, where
/// it has no palette, or no rows, or a width that fills whole bytes.
pub proof fn lemma_decoded_complete(bytes: Seq<u8>)
    requires
        decodable(bytes),
        decode_fault(bytes) is None,
        palette_entries(dib_header_of(bytes)) is None || decoded_height(bytes) == 0
            || decoded_width(bytes) % (8int / (dib_header_of(bytes).bits_per_pixel as int)) == 0,
    ensures
        decoded_image(bytes).data.len() == decoded_width(bytes) * decoded_height(bytes),
{
    let width = decoded_width(bytes);
    let height = decoded_height(bytes);
    let bpp = dib_header_of(bytes).bits_per_pixel as int;
    lemma_pixel_count_bounded(width, height);
    if palette_entries(dib_header_of(bytes)) is Some {
        lemma_rows_bounded(width, height, bpp);
        if height > 0 {
            let per_byte = 8int / bpp;
            assert(pixel_data_fits(bytes));
            assert(rows_fit(
                bytes.len() as int,
                width,
                height,
                bpp,
                header_of(bytes).pixel_offset as int,
            ));
            lemma_row_counts(width, bpp, 0);
            assert(pixels_per_row(width, bpp) == width) by {
                lemma_fundamental_div_mod(width, per_byte);
                assert(per_byte * (width / per_byte) == (width / per_byte) * per_byte)
                    by (nonlinear_arith);
            }
            assert(height * width == width * height) by (nonlinear_arith);
            assert(height * pixels_per_row(width, bpp) == width * height);
        }
        assert(decoded_palette(bytes) is Some);
        assert(decoded_pixels(bytes).len() == height * pixels_per_row(width, bpp));
    } else {
        assert(decoded_palette(bytes) is None);
        assert(decoded_pixels(bytes).len() == width * height);
    }
}

} // verus!
