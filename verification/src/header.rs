//! The two headers of a BMP file, and what is inferred from them.

use vstd::prelude::*;

verus! {

/// The size in bytes of the file header.
pub const BMP_HEADER_SIZE: u32 = 14;

/// The size in bytes of the smallest information header that is decoded.
pub const DIB_HEADER_SIZE: u32 = 40;

/// The versions of the format, told apart by the information header.
#[derive(Clone, Copy, Debug, PartialEq, Eq, Structural)]
pub enum BmpVersion {
    Two,
    Three,
    ThreeNT,
    Four,
    Five,
}

impl BmpVersion {
    /// The version that a header size and a compression code stand for, if
    /// any.
    pub open spec fn infer(header_size: u32, compress_type: u32) -> Option<BmpVersion> {
        if header_size == 12 {
            Some(BmpVersion::Two)
        } else if header_size == 40 && compress_type == 3 {
            Some(BmpVersion::ThreeNT)
        } else if header_size == 40 {
            Some(BmpVersion::Three)
        } else if header_size == 108 {
            Some(BmpVersion::Four)
        } else if header_size == 124 {
            Some(BmpVersion::Five)
        } else {
            None
        }
    }

    /// Whether images of this version are decoded.
    pub open spec fn supported(self) -> bool {
        self == BmpVersion::Three || self == BmpVersion::Four || self == BmpVersion::Five
    }

    /// The name of each version.
    pub open spec fn text(self) -> Seq<char> {
        match self {
            BmpVersion::Two => "BMP Version 2"@,
            BmpVersion::Three => "BMP Version 3"@,
            BmpVersion::ThreeNT => "BMP Version 3 NT"@,
            BmpVersion::Four => "BMP Version 4"@,
            BmpVersion::Five => "BMP Version 5"@,
        }
    }

    /// Infers the version from the header's size and, for a size of 40, its
    /// compression code.
    pub fn from_dib_header(dib_header: &BmpDibHeader) -> (v: Option<BmpVersion>)
        ensures
            v == Self::infer(dib_header.header_size, dib_header.compress_type),
    {
        if dib_header.header_size == 12 {
            Some(BmpVersion::Two)
        } else if dib_header.header_size == 40 {
            if dib_header.compress_type == 3 {
                Some(BmpVersion::ThreeNT)
            } else {
                Some(BmpVersion::Three)
            }
        } else if dib_header.header_size == 108 {
            Some(BmpVersion::Four)
        } else if dib_header.header_size == 124 {
            Some(BmpVersion::Five)
        } else {
            None
        }
    }

    /// Returns the name of this version.
    pub fn as_str(&self) -> (s: &'static str)
        ensures
            s@ == self.text(),
    {
        match self {
            BmpVersion::Two => "BMP Version 2",
            BmpVersion::Three => "BMP Version 3",
            BmpVersion::ThreeNT => "BMP Version 3 NT",
            BmpVersion::Four => "BMP Version 4",
            BmpVersion::Five => "BMP Version 5",
        }
    }
}

/// The ways in which pixel data can be stored.
#[derive(Clone, Copy, Debug, PartialEq, Eq, Structural)]
pub enum CompressionType {
    Uncompressed,
    Rle8bit,
    Rle4bit,
    BitfieldsEncoding,
}

impl CompressionType {
    /// The kind of storage that a compression code names; a code without a
    /// name counts as uncompressed.
    pub open spec fn of_code(val: u32) -> CompressionType {
        if val == 1 {
            CompressionType::Rle8bit
        } else if val == 2 {
            CompressionType::Rle4bit
        } else if val == 3 {
            CompressionType::BitfieldsEncoding
        } else {
            CompressionType::Uncompressed
        }
    }

    /// The name of each kind of storage.
    pub open spec fn text(self) -> Seq<char> {
        match self {
            CompressionType::Rle8bit => "RLE 8-bit"@,
            CompressionType::Rle4bit => "RLE 4-bit"@,
            CompressionType::BitfieldsEncoding => "Bitfields Encoding"@,
            CompressionType::Uncompressed => "Uncompressed"@,
        }
    }

    /// Maps a compression code to the kind of storage it names.
    pub fn from_u32(val: u32) -> (c: CompressionType)
        ensures
            c == Self::of_code(val),
    {
        if val == 1 {
            CompressionType::Rle8bit
        } else if val == 2 {
            CompressionType::Rle4bit
        } else if val == 3 {
            CompressionType::BitfieldsEncoding
        } else {
            CompressionType::Uncompressed
        }
    }

    /// Returns the name of this kind of storage.
    pub fn as_str(&self) -> (s: &'static str)
        ensures
            s@ == self.text(),
    {
        match self {
            CompressionType::Rle8bit => "RLE 8-bit",
            CompressionType::Rle4bit => "RLE 4-bit",
            CompressionType::BitfieldsEncoding => "Bitfields Encoding",
            CompressionType::Uncompressed => "Uncompressed",
        }
    }
}

/// The file header: the first 14 bytes, without the two magic bytes.
#[derive(Clone, Copy, Debug, PartialEq, Eq, Structural)]
pub struct BmpHeader {
    pub file_size: u32,
    pub creator1: u16,
    pub creator2: u16,
    pub pixel_offset: u32,
}

impl BmpHeader {
    /// The header of a file whose headers take `header_size` bytes and whose
    /// pixel data takes `data_size` bytes.
    pub fn new(header_size: u32, data_size: u32) -> (h: BmpHeader)
        requires
            header_size + data_size <= u32::MAX,
        ensures
            h == (BmpHeader {
                file_size: (header_size + data_size) as u32,
                creator1: 0,
                creator2: 0,
                pixel_offset: header_size,
            }),
    {
        BmpHeader {
            file_size: header_size + data_size,
            creator1: 0,
            creator2: 0,
            pixel_offset: header_size,
        }
    }
}

/// The number of bytes that one row of `width` pixels of `bpp` bits takes in a
/// file: the row's bits rounded up to a multiple of four bytes.
pub open spec fn row_size(bpp: int, width: int) -> int {
    (bpp * width + 31) / 32 * 4
}

/// The number of bytes that the pixel data of a 24-bit image takes in a file.
pub open spec fn pixel_array_size(width: int, height: int) -> int {
    height * row_size(24, width)
}

/// Whether an information header can describe an image of this width and
/// height: both fit a signed field, and the size of the pixel data fits an
/// unsigned one.
pub open spec fn describable(width: int, height: int) -> bool {
    &&& 0 <= width <= i32::MAX
    &&& 0 <= height <= i32::MAX
    &&& pixel_array_size(width, height) <= u32::MAX
}

/// Whether a new image can have this width and height: an information header
/// can describe it, and the size of the whole file fits an unsigned field.
pub open spec fn valid_dimensions(width: int, height: int) -> bool {
    &&& describable(width, height)
    &&& BMP_HEADER_SIZE + DIB_HEADER_SIZE + pixel_array_size(width, height) <= u32::MAX
}

/// An image that can be described has no more pixels than its data has
/// bytes.
pub proof fn lemma_pixel_count_bounded(width: int, height: int)
    requires
        describable(width, height),
    ensures
        0 <= width * height <= pixel_array_size(width, height),
        pixel_array_size(width, height) <= u32::MAX,
{
    assert(row_size(24, width) >= width);
    assert(width * height <= height * row_size(24, width)) by (nonlinear_arith)
        requires
            0 <= width <= row_size(24, width),
            0 <= height,
    ;
    assert(0 <= width * height) by (nonlinear_arith)
        requires
            0 <= width,
            0 <= height,
    ;
}

/// Computes `pixel_array_size`.
pub fn data_size_for(width: u32, height: u32) -> (n: u32)
    requires
        describable(width as int, height as int),
    ensures
        n == pixel_array_size(width as int, height as int),
{
    let bits: u64 = 24 * (width as u64) + 31;
    let row: u64 = bits / 32 * 4;
    assert(row == row_size(24, width as int));
    assert((height as int) * (row as int) == pixel_array_size(width as int, height as int));
    let total: u64 = (height as u64) * row;
    total as u32
}

/// The information header.
#[derive(Clone, Copy, Debug, PartialEq, Eq, Structural)]
pub struct BmpDibHeader {
    pub header_size: u32,
    pub width: i32,
    pub height: i32,
    pub num_planes: u16,
    pub bits_per_pixel: u16,
    pub compress_type: u32,
    pub data_size: u32,
    pub hres: i32,
    pub vres: i32,
    pub num_colors: u32,
    pub num_imp_colors: u32,
}

impl BmpDibHeader {
    /// The header that describes an uncompressed 24-bit image of the given
    /// width and height.
    pub open spec fn describing(width: int, height: int) -> BmpDibHeader {
        BmpDibHeader {
            header_size: 40,
            width: width as i32,
            height: height as i32,
            num_planes: 1,
            bits_per_pixel: 24,
            compress_type: 0,
            data_size: pixel_array_size(width, height) as u32,
            hres: 1000,
            vres: 1000,
            num_colors: 0,
            num_imp_colors: 0,
        }
    }

    /// Creates the header of an uncompressed 24-bit image without a palette.
    pub fn new(width: i32, height: i32) -> (h: BmpDibHeader)
        requires
            describable(width as int, height as int),
        ensures
            h == Self::describing(width as int, height as int),
    {
        let data_size: u32 = data_size_for(width as u32, height as u32);
        BmpDibHeader {
            header_size: 40,
            width,
            height,
            num_planes: 1,
            bits_per_pixel: 24,
            compress_type: 0,
            data_size,
            hres: 1000,
            vres: 1000,
            num_colors: 0,
            num_imp_colors: 0,
        }
    }
}

} // verus!
