//! Decoding of a buffer of which nothing is known: whether it holds all that
//! the decoder reads is found out first.

use vstd::prelude::*;
use vstd::arithmetic::div_mod::lemma_fundamental_div_mod_converse;
use vstd::slice::slice_subrange;
use crate::bits::{bit_index, index_at, packable};
use crate::decoder::{
    abs_field,
    bytes_per_row,
    decodable,
    decode_fault,
    decode_fault_details,
    decode_image,
    decoded_image,
    indexes_fit,
    lemma_row_counts,
    lemma_rows_bounded,
    pixel_index,
    pixels_per_row,
    read_bmp_dib_header,
    read_bmp_header,
    row_bytes,
    row_stride,
    rows_fit,
};
use crate::error::BmpResult;
use crate::header::{lemma_pixel_count_bounded, pixel_array_size, row_size};
use crate::image::Image;

verus! {

/// Tells whether every pixel's index has an entry in a palette of
/// `palette_len` entries.
pub fn check_indexes(
    bmp_data: &[u8],
    palette_len: usize,
    width: usize,
    height: usize,
    bpp: u16,
    offset: usize,
) -> (ok: bool)
    requires
        rows_fit(bmp_data@.len() as int, width as int, height as int, bpp as int, offset as int),
    ensures
        ok == indexes_fit(
            bmp_data@,
            palette_len as int,
            width as int,
            height as int,
            bpp as int,
            offset as int,
        ),
{
    if height == 0 {
        proof {
            lemma_rows_bounded(width as int, height as int, bpp as int);
        }
        return true;
    }
    let len: usize = bmp_data.len();
    let nbits: usize = bpp as usize;
    proof {
        lemma_row_counts(width as int, nbits as int, 0);
    }
    let per_byte: usize = 8 / nbits;
    let row_len: usize = width / per_byte;
    let rest: usize = row_len % 4;
    let padding: usize = if rest == 0 {
        0
    } else {
        4 - rest
    };
    let ghost stride = row_stride(width as int, bpp as int);
    let ghost per_row = pixels_per_row(width as int, bpp as int);
    let ghost count: int = 0;
    assert(stride == row_len + padding);
    let mut y: usize = 0;
    while y < height
        invariant
            y <= height,
            height > 0,
            len == bmp_data@.len(),
            nbits == bpp,
            packable(nbits as int),
            row_len == bytes_per_row(width as int, bpp as int),
            stride == row_stride(width as int, bpp as int),
            stride == row_len + padding,
            per_row == pixels_per_row(width as int, bpp as int),
            0 <= per_row <= width,
            offset + stride * (height - 1) + row_len <= bmp_data@.len(),
            count == y * per_row,
            forall|k: int|
                0 <= k < count ==> 0 <= #[trigger] pixel_index(
                    bmp_data@,
                    width as int,
                    bpp as int,
                    offset as int,
                    k,
                ) < palette_len,
        decreases height - y,
    {
        proof {
            assert(0 <= stride * y <= stride * (height - 1)) by (nonlinear_arith)
                requires
                    0 <= stride,
                    0 <= y <= height - 1,
            ;
            assert(y > 0 ==> stride <= stride * y) by (nonlinear_arith)
                requires
                    0 <= stride,
                    0 <= y,
            ;
            assert(y * per_row + per_row == (y + 1) * per_row) by (nonlinear_arith);
            assert((y + 1) * per_row <= height * per_row) by (nonlinear_arith)
                requires
                    0 <= per_row,
                    y + 1 <= height,
            ;
        }
        // The stride is needed from the second row on only.
        let start: usize = if y == 0 {
            offset
        } else {
            offset + (row_len + padding) * y
        };
        let bytes = slice_subrange(bmp_data, start, start + row_len);
        assert(bytes@ == row_bytes(bmp_data@, width as int, bpp as int, offset as int, y as int));

        let mut it = bit_index(bytes, nbits, width);
        let ghost mut j: int = 0;
        loop
            invariant_except_break
                it.cursor() == j * nbits,
                it.remaining() == width - j,
                count == y * per_row + j,
            invariant
                0 <= j <= per_row,
                it.wf(),
                it.bytes() == bytes@,
                it.nbits() == nbits,
                y < height,
                nbits == bpp,
                packable(nbits as int),
                bytes@.len() == row_len,
                row_len == bytes_per_row(width as int, bpp as int),
                per_row == pixels_per_row(width as int, bpp as int),
                0 <= per_row <= width,
                y * per_row + per_row == (y + 1) * per_row,
                (y + 1) * per_row <= height * per_row,
                bytes@ == row_bytes(bmp_data@, width as int, bpp as int, offset as int, y as int),
                forall|k: int|
                    0 <= k < count ==> 0 <= #[trigger] pixel_index(
                        bmp_data@,
                        width as int,
                        bpp as int,
                        offset as int,
                        k,
                    ) < palette_len,
            ensures
                count == (y + 1) * per_row,
            decreases it.remaining(),
        {
            proof {
                lemma_row_counts(width as int, nbits as int, j);
            }
            let ghost k = y * per_row + j;
            match it.next() {
                Some(i) => {
                    proof {
                        lemma_fundamental_div_mod_converse(k, per_row, y as int, j);
                        assert(pixel_index(
                            bmp_data@,
                            width as int,
                            bpp as int,
                            offset as int,
                            k,
                        ) == index_at(bytes@, nbits as int, j));
                    }
                    if i >= palette_len {
                        return false;
                    }
                    proof {
                        j = j + 1;
                        count = count + 1;
                    }
                },
                None => {
                    break ;
                },
            }
        }
        y += 1;
    }
    true
}

/// Tells whether the buffer can be handed to the decoder: whether it holds
/// all that decoding reads.
pub fn can_decode(bmp_data: &[u8]) -> (ok: bool)
    ensures
        ok == decodable(bmp_data@),
{
    let len: usize = bmp_data.len();
    if len < 2 {
        return false;
    }
    if !(bmp_data[0] == 66 && bmp_data[1] == 77) {
        return true;
    }
    if len < 54 {
        return false;
    }
    let header = match read_bmp_header(bmp_data) {
        Ok(header) => header,
        Err(_) => {
            return true;
        },
    };
    let dh = match read_bmp_dib_header(bmp_data) {
        Ok(dh) => dh,
        Err(_) => {
            return true;
        },
    };
    if dh.width == i32::MIN || dh.height == i32::MIN {
        return false;
    }
    let width: u32 = abs_field(dh.width);
    let height: u32 = abs_field(dh.height);
    let row: u64 = (24 * (width as u64) + 31) / 32 * 4;
    assert(row == row_size(24, width as int));
    assert((height as u64) * row <= 0x8000_0000 * 0x1_8000_0004) by (nonlinear_arith)
        requires
            height <= 0x8000_0000,
            row <= 0x1_8000_0004,
    ;
    let data_size: u64 = (height as u64) * row;
    assert(data_size == pixel_array_size(width as int, height as int));
    if data_size > 0xffff_ffff {
        return false;
    }
    proof {
        lemma_pixel_count_bounded(width as int, height as int);
    }
    let count: u64 = (width as u64) * (height as u64);
    let offset: u64 = header.pixel_offset as u64;
    let bpp: u16 = dh.bits_per_pixel;
    let entries: u64 = if dh.num_colors != 0 {
        dh.num_colors as u64
    } else if bpp == 1 {
        2
    } else if bpp == 4 {
        16
    } else if bpp == 8 {
        256
    } else {
        return count == 0 || offset + 4 * count - 1 <= len as u64;
    };
    if 14 + (dh.header_size as u64) + 4 * entries > len as u64 {
        return false;
    }
    if height == 0 {
        proof {
            lemma_rows_bounded(width as int, height as int, bpp as int);
        }
        return true;
    }
    if bpp == 24 {
        return false;
    }
    proof {
        lemma_row_counts(width as int, bpp as int, 0);
    }
    let per_byte: u64 = 8 / (bpp as u64);
    assert(per_byte == 8int / (bpp as int));
    let row_len: u64 = (width as u64) / per_byte;
    let rest: u64 = row_len % 4;
    let stride: u64 = if rest == 0 {
        row_len
    } else {
        row_len + (4 - rest)
    };
    assert(row_len == bytes_per_row(width as int, bpp as int));
    assert(stride == row_stride(width as int, bpp as int));
    assert(stride * (height - 1) <= 0x1_0000_0003 * 0x8000_0000) by (nonlinear_arith)
        requires
            0 <= stride <= 0x1_0000_0003,
            0 <= height - 1 <= 0x8000_0000,
    ;
    if offset + stride * ((height - 1) as u64) + row_len > len as u64 {
        return false;
    }
    assert(offset <= len);
    assert(entries <= len);
    check_indexes(
        bmp_data,
        entries as usize,
        width as usize,
        height as usize,
        bpp,
        offset as usize,
    )
}

/// Decodes the buffer where it can be handed to the decoder, and returns
/// nothing where it cannot.
pub fn decode_checked(bmp_data: &[u8]) -> (r: Option<BmpResult<Image>>)
    ensures
        r is Some <==> decodable(bmp_data@),
        r is Some ==> match r.unwrap() {
            Ok(img) => decode_fault(bmp_data@) is None && img@ == decoded_image(bmp_data@)
                && img.wf(),
            Err(e) => decode_fault(bmp_data@) == Some(e.kind) && e.details@
                == decode_fault_details(bmp_data@),
        },
{
    if can_decode(bmp_data) {
        Some(decode_image(bmp_data))
    } else {
        None
    }
}

} // verus!
