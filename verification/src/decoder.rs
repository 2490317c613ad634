//! Decoding of an image from the bytes of a BMP file.

use vstd::prelude::*;
use crate::bytes::{le_u16, le_u32, read_u16, read_u32, signed32, to_signed};
use crate::error::{BmpError, BmpErrorKind, BmpResult};
use crate::header::{BmpDibHeader, BmpHeader, BmpVersion, CompressionType};
use crate::header::{describable, lemma_pixel_count_bounded};
use crate::image::{Image, ImageView};
use crate::pixel::Pixel;
use crate::bits::{bit_index, index_at, packable};
use vstd::slice::slice_subrange;
use vstd::arithmetic::div_mod::lemma_fundamental_div_mod_converse;

verus! {

/// Whether the buffer starts with the two magic bytes, the letters B and M.
pub open spec fn has_magic(bytes: Seq<u8>) -> bool {
    bytes.len() >= 2 && bytes[0] == 66 && bytes[1] == 77
}

/// The file header that the first 14 bytes of the buffer hold.
pub open spec fn header_of(bytes: Seq<u8>) -> BmpHeader {
    BmpHeader {
        file_size: le_u32(bytes, 2) as u32,
        creator1: le_u16(bytes, 6) as u16,
        creator2: le_u16(bytes, 8) as u16,
        pixel_offset: le_u32(bytes, 10) as u32,
    }
}

/// The information header that the 40 bytes after the file header hold.
pub open spec fn dib_header_of(bytes: Seq<u8>) -> BmpDibHeader {
    BmpDibHeader {
        header_size: le_u32(bytes, 14) as u32,
        width: signed32(le_u32(bytes, 18)) as i32,
        height: signed32(le_u32(bytes, 22)) as i32,
        num_planes: le_u16(bytes, 26) as u16,
        bits_per_pixel: le_u16(bytes, 28) as u16,
        compress_type: le_u32(bytes, 30) as u32,
        data_size: le_u32(bytes, 34) as u32,
        hres: signed32(le_u32(bytes, 38)) as i32,
        vres: signed32(le_u32(bytes, 42)) as i32,
        num_colors: le_u32(bytes, 46) as u32,
        num_imp_colors: le_u32(bytes, 50) as u32,
    }
}

/// Whether pixels of this many bits are decoded.
pub open spec fn supported_depth(bits_per_pixel: u16) -> bool {
    bits_per_pixel == 1 || bits_per_pixel == 4 || bits_per_pixel == 8 || bits_per_pixel == 24
}

/// Why an information header is refused, if it is: the first of the four
/// checks that it fails, in the order unknown header size, version that is
/// not decoded, bit depth, compression.
pub open spec fn header_fault(dh: BmpDibHeader) -> Option<BmpErrorKind> {
    match BmpVersion::infer(dh.header_size, dh.compress_type) {
        None => Some(BmpErrorKind::UnsupportedHeader),
        Some(version) => if !version.supported() {
            Some(BmpErrorKind::UnsupportedBmpVersion)
        } else if !supported_depth(dh.bits_per_pixel) {
            Some(BmpErrorKind::UnsupportedBitsPerPixel)
        } else if dh.compress_type != 0 {
            Some(BmpErrorKind::UnsupportedCompressionType)
        } else {
            None
        },
    }
}

/// The details that go with each refusal of an information header.
pub open spec fn header_fault_details(dh: BmpDibHeader) -> Seq<char> {
    match header_fault(dh) {
        Some(BmpErrorKind::UnsupportedHeader) => "Only simple BMP images of version 3, 4, and 5 are currently supported. Connot decode the image for the following header: {:?}"@,
        Some(BmpErrorKind::UnsupportedBmpVersion) => BmpVersion::infer(
            dh.header_size,
            dh.compress_type,
        ).unwrap().text(),
        Some(BmpErrorKind::UnsupportedBitsPerPixel) => "Only 1, 4, 8, and 24 bits per pixel are currently supported, was: {}"@,
        Some(BmpErrorKind::UnsupportedCompressionType) => if 1 <= dh.compress_type <= 3 {
            CompressionType::of_code(dh.compress_type).text()
        } else {
            "Unknown compression type"@
        },
        _ => Seq::empty(),
    }
}

/// The details that go with a buffer that lacks the magic bytes.
pub open spec fn magic_fault_details() -> Seq<char> {
    "Expected [66, 77], but was {:?}"@
}

/// Checks that the buffer starts with the two magic bytes.
pub fn read_bmp_id(bmp_data: &[u8]) -> (r: BmpResult<()>)
    requires
        bmp_data@.len() >= 2,
    ensures
        r is Ok <==> has_magic(bmp_data@),
        r is Err ==> r->Err_0.kind == BmpErrorKind::WrongMagicNumbers && r->Err_0.details@
            == magic_fault_details(),
{
    if bmp_data[0] == 66 && bmp_data[1] == 77 {
        Ok(())
    } else {
        Err(BmpError::new(BmpErrorKind::WrongMagicNumbers, "Expected [66, 77], but was {:?}"))
    }
}

/// Reads the file header from the first 14 bytes. Nothing is checked here.
pub fn read_bmp_header(bmp_data: &[u8]) -> (r: BmpResult<BmpHeader>)
    requires
        bmp_data@.len() >= 14,
    ensures
        r is Ok,
        r->Ok_0 == header_of(bmp_data@),
{
    let header = BmpHeader {
        file_size: read_u32(bmp_data, 2),
        creator1: read_u16(bmp_data, 6),
        creator2: read_u16(bmp_data, 8),
        pixel_offset: read_u32(bmp_data, 10),
    };
    Ok(header)
}

/// Reads the information header from the 40 bytes after the file header, and
/// refuses it if its size is unknown, its version or bit depth is not
/// decoded, or its pixel data is compressed: the first of these that holds
/// decides the error.
pub fn read_bmp_dib_header(bmp_data: &[u8]) -> (r: BmpResult<BmpDibHeader>)
    requires
        bmp_data@.len() >= 54,
    ensures
        match header_fault(dib_header_of(bmp_data@)) {
            None => r is Ok && r->Ok_0 == dib_header_of(bmp_data@),
            Some(kind) => r is Err && r->Err_0.kind == kind && r->Err_0.details@
                == header_fault_details(dib_header_of(bmp_data@)),
        },
{
    let dib_header = BmpDibHeader {
        header_size: read_u32(bmp_data, 14),
        width: to_signed(read_u32(bmp_data, 18)),
        height: to_signed(read_u32(bmp_data, 22)),
        num_planes: read_u16(bmp_data, 26),
        bits_per_pixel: read_u16(bmp_data, 28),
        compress_type: read_u32(bmp_data, 30),
        data_size: read_u32(bmp_data, 34),
        hres: to_signed(read_u32(bmp_data, 38)),
        vres: to_signed(read_u32(bmp_data, 42)),
        num_colors: read_u32(bmp_data, 46),
        num_imp_colors: read_u32(bmp_data, 50),
    };
    assert(dib_header == dib_header_of(bmp_data@));

    match BmpVersion::from_dib_header(&dib_header) {
        Some(BmpVersion::Three) | Some(BmpVersion::Four) | Some(BmpVersion::Five) => (),
        Some(other) => {
            return Err(BmpError::new(BmpErrorKind::UnsupportedBmpVersion, other.as_str()));
        },
        None => {
            return Err(
                BmpError::new(
                    BmpErrorKind::UnsupportedHeader,
                    "Only simple BMP images of version 3, 4, and 5 are currently supported. Connot decode the image for the following header: {:?}",
                ),
            );
        },
    }

    let bpp: u16 = dib_header.bits_per_pixel;
    if !(bpp == 1 || bpp == 4 || bpp == 8 || bpp == 24) {
        return Err(
            BmpError::new(
                BmpErrorKind::UnsupportedBitsPerPixel,
                "Only 1, 4, 8, and 24 bits per pixel are currently supported, was: {}",
            ),
        );
    }

    if dib_header.compress_type != 0 {
        let details: &str = match CompressionType::from_u32(dib_header.compress_type) {
            CompressionType::Uncompressed => "Unknown compression type",
            other => other.as_str(),
        };
        return Err(BmpError::new(BmpErrorKind::UnsupportedCompressionType, details));
    }

    Ok(dib_header)
}

/// The pixels that `count` slots of four bytes hold, the first of them at
/// `offset`: of each slot the first three bytes are the blue, the green and
/// the red channel, and the fourth is passed over.
pub open spec fn bgr_entries(bytes: Seq<u8>, offset: int, count: int) -> Seq<Pixel> {
    Seq::new(count as nat, |k: int| Pixel::from_bgr(bytes, offset + 4 * k))
}

/// Reads `count` pixels from slots of four bytes, the first at `offset`.
pub fn read_bgr_entries(bmp_data: &[u8], offset: usize, count: usize) -> (entries: Vec<Pixel>)
    requires
        count > 0 ==> offset + 4 * count - 1 <= bmp_data@.len(),
    ensures
        entries@ == bgr_entries(bmp_data@, offset as int, count as int),
{
    let len: usize = bmp_data.len();
    let mut entries: Vec<Pixel> = Vec::with_capacity(count);
    let mut i: usize = 0;
    while i < count
        invariant
            i <= count,
            len == bmp_data@.len(),
            count > 0 ==> offset + 4 * count - 1 <= bmp_data@.len(),
            entries@ == bgr_entries(bmp_data@, offset as int, i as int),
        decreases count - i,
    {
        let at: usize = offset + 4 * i;
        entries.push(Pixel::new(bmp_data[at + 2], bmp_data[at + 1], bmp_data[at]));
        i += 1;
        assert(entries@ =~= bgr_entries(bmp_data@, offset as int, i as int));
    }
    entries
}

/// The number of palette entries that a header calls for: its colour count
/// where that is not zero, else two to the power of the bit depth for depths
/// up to eight, else none.
pub open spec fn palette_entries(dh: BmpDibHeader) -> Option<int> {
    if dh.num_colors != 0 {
        Some(dh.num_colors as int)
    } else if dh.bits_per_pixel == 1 {
        Some(2)
    } else if dh.bits_per_pixel == 4 {
        Some(16)
    } else if dh.bits_per_pixel == 8 {
        Some(256)
    } else {
        None
    }
}

/// Where the palette starts: behind the two headers.
pub open spec fn palette_offset(dh: BmpDibHeader) -> int {
    14 + dh.header_size
}

/// Whether the header is of the version whose palette entries take three
/// bytes, which is not read.
pub open spec fn short_palette(dh: BmpDibHeader) -> bool {
    BmpVersion::infer(dh.header_size, dh.compress_type) == Some(BmpVersion::Two)
}

/// Reads the palette, if the header calls for one. Each entry takes four
/// bytes, of which the fourth is passed over.
pub fn read_color_palette(bmp_data: &[u8], dh: &BmpDibHeader) -> (r: BmpResult<Option<Vec<Pixel>>>)
    requires
        palette_entries(*dh) is Some && !short_palette(*dh) ==> palette_offset(*dh) + 4
            * palette_entries(*dh).unwrap() <= bmp_data@.len(),
    ensures
        match palette_entries(*dh) {
            None => r is Ok && r->Ok_0 is None,
            Some(n) => if short_palette(*dh) {
                r is Err && r->Err_0.kind == BmpErrorKind::UnsupportedBmpVersion
                    && r->Err_0.details@ == BmpVersion::Two.text()
            } else {
                r is Ok && r->Ok_0 is Some && r->Ok_0.unwrap()@ == bgr_entries(
                    bmp_data@,
                    palette_offset(*dh),
                    n,
                )
            },
        },
{
    let bpp: u16 = dh.bits_per_pixel;
    let num_entries: usize = if dh.num_colors != 0 {
        dh.num_colors as usize
    } else if bpp == 1 {
        2
    } else if bpp == 4 {
        16
    } else if bpp == 8 {
        256
    } else {
        return Ok(None);
    };
    match BmpVersion::from_dib_header(dh) {
        Some(BmpVersion::Two) => {
            return Err(
                BmpError::new(BmpErrorKind::UnsupportedBmpVersion, BmpVersion::Two.as_str()),
            );
        },
        _ => {},
    }
    let len: usize = bmp_data.len();
    assert(palette_offset(*dh) <= len);
    let offset: usize = 14 + dh.header_size as usize;
    let color_palette = read_bgr_entries(bmp_data, offset, num_entries);
    Ok(Some(color_palette))
}

/// Reads the pixels of an image without a palette: one slot of four bytes
/// for each pixel, row after row with nothing between the rows.
pub fn read_pixels(bmp_data: &[u8], width: u32, height: u32, offset: u32) -> (r: BmpResult<
    Vec<Pixel>,
>)
    requires
        width * height <= u32::MAX,
        width * height > 0 ==> offset + 4 * (width * height) - 1 <= bmp_data@.len(),
    ensures
        r is Ok,
        r->Ok_0@ == bgr_entries(bmp_data@, offset as int, width * height),
{
    let count: u32 = width * height;
    let data = read_bgr_entries(bmp_data, offset as usize, count as usize);
    Ok(data)
}

/// The number of bytes of a row that hold indexes: only whole bytes count.
pub open spec fn bytes_per_row(width: int, bpp: int) -> int {
    width / (8int / bpp)
}

/// The number of bytes after a row of `row_bytes` bytes that bring it to a
/// multiple of four.
pub open spec fn row_padding(row_bytes: int) -> int {
    (4 - row_bytes % 4) % 4
}

/// The distance in bytes from one row's start to the next.
pub open spec fn row_stride(width: int, bpp: int) -> int {
    bytes_per_row(width, bpp) + row_padding(bytes_per_row(width, bpp))
}

/// The number of pixels that one row yields: those in its whole bytes.
pub open spec fn pixels_per_row(width: int, bpp: int) -> int {
    bytes_per_row(width, bpp) * (8int / bpp)
}

/// The bytes of row `y` that hold indexes.
pub open spec fn row_bytes(bytes: Seq<u8>, width: int, bpp: int, offset: int, y: int) -> Seq<u8> {
    bytes.subrange(
        offset + row_stride(width, bpp) * y,
        offset + row_stride(width, bpp) * y + bytes_per_row(width, bpp),
    )
}

/// The palette index of the `k`-th pixel, counted row after row.
pub open spec fn pixel_index(bytes: Seq<u8>, width: int, bpp: int, offset: int, k: int) -> int {
    index_at(
        row_bytes(bytes, width, bpp, offset, k / pixels_per_row(width, bpp)),
        bpp,
        k % pixels_per_row(width, bpp),
    )
}

/// The pixels of an image with a palette.
pub open spec fn indexed_pixels(
    bytes: Seq<u8>,
    palette: Seq<Pixel>,
    width: int,
    height: int,
    bpp: int,
    offset: int,
) -> Seq<Pixel> {
    Seq::new(
        (height * pixels_per_row(width, bpp)) as nat,
        |k: int| palette[pixel_index(bytes, width, bpp, offset, k)],
    )
}

/// Whether a buffer of `len` bytes holds every row of an image with a
/// palette, and the bit depth can be unpacked.
pub open spec fn rows_fit(len: int, width: int, height: int, bpp: int, offset: int) -> bool {
    height > 0 ==> packable(bpp) && offset + row_stride(width, bpp) * (height - 1)
        + bytes_per_row(width, bpp) <= len
}

/// Whether every pixel's index has an entry in a palette of `palette_len`
/// entries.
pub open spec fn indexes_fit(
    bytes: Seq<u8>,
    palette_len: int,
    width: int,
    height: int,
    bpp: int,
    offset: int,
) -> bool {
    forall|k: int|
        0 <= k < height * pixels_per_row(width, bpp) ==> 0 <= #[trigger] pixel_index(
            bytes,
            width,
            bpp,
            offset,
            k,
        ) < palette_len
}

/// How the indexes of one row are counted: a row of whole bytes never yields
/// more pixels than the image is wide, index `j` lies in the row's bytes
/// exactly if it is one of them, and it starts `j * nbits` bits into the row.
pub proof fn lemma_row_counts(width: int, nbits: int, j: int)
    requires
        packable(nbits),
        0 <= width,
        0 <= j,
    ensures
        0 <= pixels_per_row(width, nbits) <= width,
        0 <= bytes_per_row(width, nbits),
        (j * nbits) / 8 < bytes_per_row(width, nbits) <==> j < pixels_per_row(width, nbits),
        (j * nbits) / nbits == j,
        (j + 1) * nbits == j * nbits + nbits,
        8int / nbits > 0,
{
    if nbits == 1 {
        assert(8int / nbits == 8);
        assert((j * 1) / 1 == j);
    } else if nbits == 2 {
        assert(8int / nbits == 4);
        assert((j * 2) / 2 == j);
    } else if nbits == 4 {
        assert(8int / nbits == 2);
        assert((j * 4) / 4 == j);
    } else {
        assert(8int / nbits == 1);
        assert((j * 8) / 8 == j);
    }
}

/// Reads the pixels of an image with a palette. Each row's indexes are
/// packed into whole bytes, and rows start a multiple of four bytes apart;
/// each index is replaced by its palette entry.
pub fn read_indexes(
    bmp_data: &[u8],
    palette: &Vec<Pixel>,
    width: usize,
    height: usize,
    bpp: u16,
    offset: usize,
) -> (r: BmpResult<Vec<Pixel>>)
    requires
        rows_fit(bmp_data@.len() as int, width as int, height as int, bpp as int, offset as int),
        indexes_fit(
            bmp_data@,
            palette@.len() as int,
            width as int,
            height as int,
            bpp as int,
            offset as int,
        ),
    ensures
        r is Ok,
        r->Ok_0@ == indexed_pixels(
            bmp_data@,
            palette@,
            width as int,
            height as int,
            bpp as int,
            offset as int,
        ),
{
    let mut data: Vec<Pixel> = Vec::new();
    let ghost goal = indexed_pixels(
        bmp_data@,
        palette@,
        width as int,
        height as int,
        bpp as int,
        offset as int,
    );
    if height == 0 {
        assert(data@ =~= goal);
        return Ok(data);
    }
    let len: usize = bmp_data.len();
    let nbits: usize = bpp as usize;
    proof {
        lemma_row_counts(width as int, nbits as int, 0);
    }
    let per_byte: usize = 8 / nbits;
    let row_len: usize = width / per_byte;
    let rest: usize = row_len % 4;
    let padding: usize = if rest == 0 {
        0
    } else {
        4 - rest
    };
    let ghost stride = row_stride(width as int, bpp as int);
    let ghost per_row = pixels_per_row(width as int, bpp as int);
    assert(stride == row_len + padding);
    let mut y: usize = 0;
    while y < height
        invariant
            y <= height,
            height > 0,
            len == bmp_data@.len(),
            nbits == bpp,
            packable(nbits as int),
            row_len == bytes_per_row(width as int, bpp as int),
            stride == row_stride(width as int, bpp as int),
            stride == row_len + padding,
            per_row == pixels_per_row(width as int, bpp as int),
            0 <= per_row <= width,
            offset + stride * (height - 1) + row_len <= bmp_data@.len(),
            indexes_fit(
                bmp_data@,
                palette@.len() as int,
                width as int,
                height as int,
                bpp as int,
                offset as int,
            ),
            data@.len() == y * per_row,
            forall|k: int|
                0 <= k < data@.len() ==> data@[k] == palette@[pixel_index(
                    bmp_data@,
                    width as int,
                    bpp as int,
                    offset as int,
                    k,
                )],
        decreases height - y,
    {
        proof {
            assert(0 <= stride * y <= stride * (height - 1)) by (nonlinear_arith)
                requires
                    0 <= stride,
                    0 <= y <= height - 1,
            ;
            assert(y > 0 ==> stride <= stride * y) by (nonlinear_arith)
                requires
                    0 <= stride,
                    0 <= y,
            ;
            assert(y * per_row + per_row == (y + 1) * per_row) by (nonlinear_arith);
            assert((y + 1) * per_row <= height * per_row) by (nonlinear_arith)
                requires
                    0 <= per_row,
                    y + 1 <= height,
            ;
        }
        // The stride is needed from the second row on only.
        let start: usize = if y == 0 {
            offset
        } else {
            offset + (row_len + padding) * y
        };
        let bytes = slice_subrange(bmp_data, start, start + row_len);
        assert(bytes@ == row_bytes(bmp_data@, width as int, bpp as int, offset as int, y as int));

        let mut it = bit_index(bytes, nbits, width);
        let ghost mut j: int = 0;
        loop
            invariant_except_break
                it.cursor() == j * nbits,
                it.remaining() == width - j,
                data@.len() == y * per_row + j,
            invariant
                0 <= j <= per_row,
                it.wf(),
                it.bytes() == bytes@,
                it.nbits() == nbits,
                y < height,
                nbits == bpp,
                packable(nbits as int),
                bytes@.len() == row_len,
                row_len == bytes_per_row(width as int, bpp as int),
                per_row == pixels_per_row(width as int, bpp as int),
                0 <= per_row <= width,
                y * per_row + per_row == (y + 1) * per_row,
                (y + 1) * per_row <= height * per_row,
                bytes@ == row_bytes(bmp_data@, width as int, bpp as int, offset as int, y as int),
                indexes_fit(
                    bmp_data@,
                    palette@.len() as int,
                    width as int,
                    height as int,
                    bpp as int,
                    offset as int,
                ),
                forall|k: int|
                    0 <= k < data@.len() ==> data@[k] == palette@[pixel_index(
                        bmp_data@,
                        width as int,
                        bpp as int,
                        offset as int,
                        k,
                    )],
            ensures
                data@.len() == (y + 1) * per_row,
            decreases it.remaining(),
        {
            proof {
                lemma_row_counts(width as int, nbits as int, j);
            }
            let ghost k = y * per_row + j;
            match it.next() {
                Some(i) => {
                    proof {
                        assert(j < per_row);
                        lemma_fundamental_div_mod_converse(k, per_row, y as int, j);
                        assert(pixel_index(
                            bmp_data@,
                            width as int,
                            bpp as int,
                            offset as int,
                            k,
                        ) == index_at(bytes@, nbits as int, j));
                    }
                    data.push(palette[i]);
                    proof {
                        j = j + 1;
                    }
                },
                None => {
                    assert(j == per_row);
                    break ;
                },
            }
        }
        y += 1;
    }
    assert(data@.len() == height * per_row);
    assert(data@ =~= goal);
    Ok(data)
}

/// The size that a signed header field gives: the field without its sign.
pub open spec fn magnitude(v: i32) -> int {
    if v < 0 {
        -(v as int)
    } else {
        v as int
    }
}

/// The width of the image that the buffer holds.
pub open spec fn decoded_width(bytes: Seq<u8>) -> int {
    magnitude(dib_header_of(bytes).width)
}

/// The height of the image that the buffer holds.
pub open spec fn decoded_height(bytes: Seq<u8>) -> int {
    magnitude(dib_header_of(bytes).height)
}

/// Why a buffer is refused, if it is: for the missing magic bytes, or else
/// for what its information header says.
pub open spec fn decode_fault(bytes: Seq<u8>) -> Option<BmpErrorKind> {
    if !has_magic(bytes) {
        Some(BmpErrorKind::WrongMagicNumbers)
    } else {
        header_fault(dib_header_of(bytes))
    }
}

/// The details that go with each refusal of a buffer.
pub open spec fn decode_fault_details(bytes: Seq<u8>) -> Seq<char> {
    if !has_magic(bytes) {
        magic_fault_details()
    } else {
        header_fault_details(dib_header_of(bytes))
    }
}

/// The palette that the buffer holds, if its header calls for one.
pub open spec fn decoded_palette(bytes: Seq<u8>) -> Option<Seq<Pixel>> {
    let dh = dib_header_of(bytes);
    match palette_entries(dh) {
        Some(n) => Some(bgr_entries(bytes, palette_offset(dh), n)),
        None => None,
    }
}

/// The pixels that the buffer holds, in the order of the file: looked up in
/// the palette where there is one, else read channel by channel.
pub open spec fn decoded_pixels(bytes: Seq<u8>) -> Seq<Pixel> {
    let dh = dib_header_of(bytes);
    let offset = header_of(bytes).pixel_offset as int;
    match decoded_palette(bytes) {
        Some(palette) => indexed_pixels(
            bytes,
            palette,
            decoded_width(bytes),
            decoded_height(bytes),
            dh.bits_per_pixel as int,
            offset,
        ),
        None => bgr_entries(bytes, offset, decoded_width(bytes) * decoded_height(bytes)),
    }
}

/// The image that the buffer holds. Its information header is made anew from
/// the width and the height.
pub open spec fn decoded_image(bytes: Seq<u8>) -> ImageView {
    ImageView {
        header: header_of(bytes),
        dib_header: BmpDibHeader::describing(decoded_width(bytes), decoded_height(bytes)),
        palette: decoded_palette(bytes),
        width: decoded_width(bytes),
        height: decoded_height(bytes),
        padding: decoded_width(bytes) % 4,
        data: decoded_pixels(bytes),
    }
}

/// Whether the buffer holds all that its headers announce: a width and a
/// height that have a magnitude and can be described, the whole palette,
/// every row or slot of the pixel data and, with a palette, an entry for
/// every pixel's index.
pub open spec fn pixel_data_fits(bytes: Seq<u8>) -> bool {
    let dh = dib_header_of(bytes);
    let offset = header_of(bytes).pixel_offset as int;
    let width = decoded_width(bytes);
    let height = decoded_height(bytes);
    &&& dh.width != i32::MIN
    &&& dh.height != i32::MIN
    &&& describable(width, height)
    &&& match palette_entries(dh) {
        Some(n) => {
            &&& palette_offset(dh) + 4 * n <= bytes.len()
            &&& rows_fit(bytes.len() as int, width, height, dh.bits_per_pixel as int, offset)
            &&& indexes_fit(bytes, n, width, height, dh.bits_per_pixel as int, offset)
        },
        None => width * height > 0 ==> offset + 4 * (width * height) - 1 <= bytes.len(),
    }
}

/// Whether the buffer can be decoded or refused without reading behind its
/// end: it holds the magic bytes' places; with the magic bytes, both headers;
/// and with headers that are not refused, all that they announce.
pub open spec fn decodable(bytes: Seq<u8>) -> bool {
    &&& bytes.len() >= 2
    &&& has_magic(bytes) ==> bytes.len() >= 54
    &&& decode_fault(bytes) is None ==> pixel_data_fits(bytes)
}

/// Returns the magnitude of a signed header field.
pub fn abs_field(v: i32) -> (m: u32)
    requires
        v != i32::MIN,
    ensures
        m == magnitude(v),
{
    if v < 0 {
        (0 - v) as u32
    } else {
        v as u32
    }
}

/// Decodes an image: checks the magic bytes, reads the two headers, refuses
/// what is not decoded, reads the palette where the header calls for one, and
/// reads the pixels, by palette index or channel by channel. Either the whole
/// image is returned or the first fault found.
pub fn decode_image(bmp_data: &[u8]) -> (r: BmpResult<Image>)
    requires
        decodable(bmp_data@),
    ensures
        match r {
            Ok(img) => decode_fault(bmp_data@) is None && img@ == decoded_image(bmp_data@)
                && img.wf(),
            Err(e) => decode_fault(bmp_data@) == Some(e.kind) && e.details@
                == decode_fault_details(bmp_data@),
        },
{
    match read_bmp_id(bmp_data) {
        Ok(_) => {},
        Err(e) => {
            return Err(e);
        },
    }
    let header = match read_bmp_header(bmp_data) {
        Ok(header) => header,
        Err(e) => {
            return Err(e);
        },
    };
    let dib_header = match read_bmp_dib_header(bmp_data) {
        Ok(dib_header) => dib_header,
        Err(e) => {
            return Err(e);
        },
    };
    let color_palette = match read_color_palette(bmp_data, &dib_header) {
        Ok(color_palette) => color_palette,
        Err(e) => {
            return Err(e);
        },
    };

    let width: u32 = abs_field(dib_header.width);
    let height: u32 = abs_field(dib_header.height);
    proof {
        lemma_pixel_count_bounded(width as int, height as int);
    }

    let data = match &color_palette {
        Some(palette) => {
            proof {
                lemma_rows_bounded(width as int, height as int, dib_header.bits_per_pixel as int);
            }
            match read_indexes(
                bmp_data,
                palette,
                width as usize,
                height as usize,
                dib_header.bits_per_pixel,
                header.pixel_offset as usize,
            ) {
                Ok(data) => data,
                Err(e) => {
                    return Err(e);
                },
            }
        },
        None => match read_pixels(bmp_data, width, height, header.pixel_offset) {
            Ok(data) => data,
            Err(e) => {
                return Err(e);
            },
        },
    };

    let image = Image::assemble(
        header,
        BmpDibHeader::new(width as i32, height as i32),
        color_palette,
        width,
        height,
        data,
    );
    Ok(image)
}

/// The rows of an image with a palette never hold more pixels than its grid
/// has places.
pub proof fn lemma_rows_bounded(width: int, height: int, bpp: int)
    requires
        0 <= width,
        0 <= height,
        height > 0 ==> packable(bpp),
    ensures
        0 <= height * pixels_per_row(width, bpp) <= width * height,
        height == 0 ==> height * pixels_per_row(width, bpp) == 0 && width * height == 0,
{
    if height > 0 {
        lemma_row_counts(width, bpp, 0);
        let per_row = pixels_per_row(width, bpp);
        assert(0 <= height * per_row <= width * height) by (nonlinear_arith)
            requires
                0 <= per_row <= width,
                0 <= height,
        ;
    } else {
        assert(height * pixels_per_row(width, bpp) == 0) by (nonlinear_arith)
            requires
                height == 0,
        ;
        assert(width * height == 0) by (nonlinear_arith)
            requires
                height == 0,
        ;
    }
}

/// Attempts to decode an image from the bytes of a BMP file.
pub fn from_bytes(bytes: &[u8]) -> (r: BmpResult<Image>)
    requires
        decodable(bytes@),
    ensures
        match r {
            Ok(img) => decode_fault(bytes@) is None && img@ == decoded_image(bytes@) && img.wf(),
            Err(e) => decode_fault(bytes@) == Some(e.kind) && e.details@ == decode_fault_details(
                bytes@,
            ),
        },
{
    decode_image(bytes)
}

} // verus!
