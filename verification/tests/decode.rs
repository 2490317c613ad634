use bmp::bits::bit_index;
use bmp::bytes::{to_signed, u16_from_slice, u32_from_slice};
use bmp::checked::{can_decode, check_indexes, decode_checked};
use bmp::decoder::{
    read_bmp_dib_header, read_bmp_header, read_bmp_id, read_color_palette, read_indexes,
    read_pixels,
};
use bmp::header::{BmpDibHeader, BmpVersion};
use bmp::{decode_image, from_bytes, BmpErrorKind, Pixel};

const BLACK: Pixel = Pixel { r: 0, g: 0, b: 0 };
const WHITE: Pixel = Pixel { r: 255, g: 255, b: 255 };

fn put_u16(buf: &mut Vec<u8>, v: u16) {
    buf.push((v & 0xff) as u8);
    buf.push((v >> 8) as u8);
}

fn put_u32(buf: &mut Vec<u8>, v: u32) {
    put_u16(buf, (v & 0xffff) as u16);
    put_u16(buf, (v >> 16) as u16);
}

/// Builds a file: both headers, the palette, and the pixel data right behind.
fn bmp_file(
    header_size: u32,
    width: i32,
    height: i32,
    bpp: u16,
    compression: u32,
    num_colors: u32,
    palette: &[u8],
    pixels: &[u8],
) -> Vec<u8> {
    let mut buf: Vec<u8> = Vec::new();
    let tail = if header_size > 40 { header_size - 40 } else { 0 };
    let offset = 14 + 40 + tail + palette.len() as u32;
    buf.push(b'B');
    buf.push(b'M');
    put_u32(&mut buf, offset + pixels.len() as u32);
    put_u16(&mut buf, 0);
    put_u16(&mut buf, 0);
    put_u32(&mut buf, offset);
    put_u32(&mut buf, header_size);
    put_u32(&mut buf, width as u32);
    put_u32(&mut buf, height as u32);
    put_u16(&mut buf, 1);
    put_u16(&mut buf, bpp);
    put_u32(&mut buf, compression);
    put_u32(&mut buf, pixels.len() as u32);
    put_u32(&mut buf, 1000);
    put_u32(&mut buf, 1000);
    put_u32(&mut buf, num_colors);
    put_u32(&mut buf, 0);
    for _ in 0..tail {
        buf.push(0);
    }
    buf.extend_from_slice(palette);
    buf.extend_from_slice(pixels);
    buf
}

fn two_colors() -> Vec<u8> {
    vec![0, 0, 0, 0, 255, 255, 255, 0]
}

fn kind_of(bytes: &[u8]) -> BmpErrorKind {
    match decode_image(bytes) {
        Ok(_) => panic!("decoded"),
        Err(e) => e.kind,
    }
}

#[test]
fn integers_are_little_endian() {
    assert_eq!(u32_from_slice(&[0x78, 0x56, 0x34, 0x12]), 0x1234_5678);
    assert_eq!(u32_from_slice(&[1, 0, 0, 0, 9, 9]), 1);
    assert_eq!(u32_from_slice(&[255, 255, 255, 255]), u32::MAX);
    assert_eq!(u16_from_slice(&[0x34, 0x12]), 0x1234);
    assert_eq!(u16_from_slice(&[255, 255, 7]), u16::MAX);
}

#[test]
fn signed_fields_are_twos_complement() {
    assert_eq!(to_signed(0), 0);
    assert_eq!(to_signed(0x7fff_ffff), i32::MAX);
    assert_eq!(to_signed(0x8000_0000), i32::MIN);
    assert_eq!(to_signed(0xffff_ffff), -1);
    assert_eq!(to_signed(0xffff_fffe), -2);
}

#[test]
fn wrong_magic_is_refused_whatever_follows() {
    assert_eq!(kind_of(&[0, 0]), BmpErrorKind::WrongMagicNumbers);
    assert_eq!(kind_of(b"MB"), BmpErrorKind::WrongMagicNumbers);
    assert_eq!(kind_of(b"BX and then anything at all"), BmpErrorKind::WrongMagicNumbers);
    let mut file = bmp_file(40, 1, 1, 24, 0, 0, &[], &[1, 2, 3, 0]);
    file[0] = b'b';
    assert_eq!(kind_of(&file), BmpErrorKind::WrongMagicNumbers);
    let e = from_bytes(&file).err().unwrap();
    assert_eq!(e.details, "Expected [66, 77], but was {:?}");
    assert_eq!(e.kind.as_str(), "Wrong magic numbers");
}

#[test]
fn magic_check_alone() {
    assert!(read_bmp_id(b"BM").is_ok());
    assert!(read_bmp_id(b"BMP").is_ok());
    assert_eq!(read_bmp_id(b"BN").err().unwrap().kind, BmpErrorKind::WrongMagicNumbers);
    assert_eq!(read_bmp_id(b"AM").err().unwrap().kind, BmpErrorKind::WrongMagicNumbers);
}

#[test]
fn sixteen_bits_per_pixel_are_refused() {
    let file = bmp_file(40, 1, 1, 16, 0, 0, &[], &[0, 0, 0, 0]);
    let e = decode_image(&file).err().unwrap();
    assert_eq!(e.kind, BmpErrorKind::UnsupportedBitsPerPixel);
    assert_eq!(e.details, "Only 1, 4, 8, and 24 bits per pixel are currently supported, was: {}");
    assert_eq!(e.kind.as_str(), "Unsupported bits per pixel");
    assert_eq!(kind_of(&bmp_file(124, 1, 1, 32, 0, 0, &[], &[])), BmpErrorKind::UnsupportedBitsPerPixel);
    assert_eq!(kind_of(&bmp_file(108, 1, 1, 2, 0, 0, &[], &[])), BmpErrorKind::UnsupportedBitsPerPixel);
}

#[test]
fn version_two_is_refused() {
    let file = bmp_file(12, 1, 1, 24, 0, 0, &[], &[0, 0, 0, 0]);
    let e = decode_image(&file).err().unwrap();
    assert_eq!(e.kind, BmpErrorKind::UnsupportedBmpVersion);
    assert_eq!(e.details, "BMP Version 2");
    assert_eq!(e.kind.as_str(), "Unsupported BMP version");
}

#[test]
fn version_three_nt_is_refused() {
    let file = bmp_file(40, 1, 1, 24, 3, 0, &[], &[0, 0, 0, 0]);
    let e = decode_image(&file).err().unwrap();
    assert_eq!(e.kind, BmpErrorKind::UnsupportedBmpVersion);
    assert_eq!(e.details, "BMP Version 3 NT");
}

#[test]
fn unknown_header_size_is_refused() {
    let file = bmp_file(50, 1, 1, 24, 0, 0, &[], &[0, 0, 0, 0]);
    let e = decode_image(&file).err().unwrap();
    assert_eq!(e.kind, BmpErrorKind::UnsupportedHeader);
    assert_eq!(e.kind.as_str(), "BMP Error");
    assert_eq!(
        e.details,
        "Only simple BMP images of version 3, 4, and 5 are currently supported. Connot decode the image for the following header: {:?}"
    );
}

#[test]
fn compressed_data_is_refused() {
    let e = decode_image(&bmp_file(40, 1, 1, 8, 1, 0, &[], &[])).err().unwrap();
    assert_eq!(e.kind, BmpErrorKind::UnsupportedCompressionType);
    assert_eq!(e.details, "RLE 8-bit");
    assert_eq!(e.kind.as_str(), "Unsupported compression type");
    let e = decode_image(&bmp_file(40, 1, 1, 4, 2, 0, &[], &[])).err().unwrap();
    assert_eq!(e.kind, BmpErrorKind::UnsupportedCompressionType);
    assert_eq!(e.details, "RLE 4-bit");
    let e = decode_image(&bmp_file(108, 1, 1, 24, 3, 0, &[], &[])).err().unwrap();
    assert_eq!(e.kind, BmpErrorKind::UnsupportedCompressionType);
    assert_eq!(e.details, "Bitfields Encoding");
    let e = decode_image(&bmp_file(124, 1, 1, 24, 7, 0, &[], &[])).err().unwrap();
    assert_eq!(e.kind, BmpErrorKind::UnsupportedCompressionType);
    assert_eq!(e.details, "Unknown compression type");
}

#[test]
fn first_failing_check_decides() {
    // unknown size comes before bit depth and compression
    assert_eq!(kind_of(&bmp_file(41, 1, 1, 16, 1, 0, &[], &[])), BmpErrorKind::UnsupportedHeader);
    // version comes before bit depth
    assert_eq!(kind_of(&bmp_file(12, 1, 1, 16, 1, 0, &[], &[])), BmpErrorKind::UnsupportedBmpVersion);
    // bit depth comes before compression
    assert_eq!(kind_of(&bmp_file(40, 1, 1, 16, 1, 0, &[], &[])), BmpErrorKind::UnsupportedBitsPerPixel);
}

#[test]
fn headers_are_read_field_by_field() {
    let file = bmp_file(40, 3, -2, 24, 0, 0, &[], &[0; 24]);
    let header = read_bmp_header(&file).ok().unwrap();
    assert_eq!(header.file_size, 78);
    assert_eq!(header.creator1, 0);
    assert_eq!(header.creator2, 0);
    assert_eq!(header.pixel_offset, 54);
    let dib = read_bmp_dib_header(&file).ok().unwrap();
    assert_eq!(dib.header_size, 40);
    assert_eq!(dib.width, 3);
    assert_eq!(dib.height, -2);
    assert_eq!(dib.num_planes, 1);
    assert_eq!(dib.bits_per_pixel, 24);
    assert_eq!(dib.compress_type, 0);
    assert_eq!(dib.data_size, 24);
    assert_eq!(dib.hres, 1000);
    assert_eq!(dib.vres, 1000);
    assert_eq!(dib.num_colors, 0);
    assert_eq!(dib.num_imp_colors, 0);
    assert_eq!(BmpVersion::from_dib_header(&dib), Some(BmpVersion::Three));
}

#[test]
fn bit_index_of_four_bits() {
    let row = [0b1011_0100u8];
    let mut it = bit_index(&row, 4, 2);
    assert_eq!(it.next(), Some(0b1011));
    assert_eq!(it.next(), Some(0b0100));
    assert_eq!(it.next(), None);
    assert_eq!(it.next(), None);
}

#[test]
fn bit_index_of_one_bit() {
    let row = [0b1000_0000u8];
    let mut it = bit_index(&row, 1, 8);
    let mut got: Vec<usize> = Vec::new();
    while let Some(i) = it.next() {
        got.push(i);
    }
    assert_eq!(got, vec![1, 0, 0, 0, 0, 0, 0, 0]);
}

#[test]
fn bit_index_of_eight_bits() {
    let row = [7u8, 200, 0];
    let mut it = bit_index(&row, 8, 3);
    assert_eq!(it.next(), Some(7));
    assert_eq!(it.next(), Some(200));
    assert_eq!(it.next(), Some(0));
    assert_eq!(it.next(), None);
}

#[test]
fn bit_index_of_two_bits() {
    let row = [0b11_10_01_00u8];
    let mut it = bit_index(&row, 2, 4);
    assert_eq!(it.next(), Some(3));
    assert_eq!(it.next(), Some(2));
    assert_eq!(it.next(), Some(1));
    assert_eq!(it.next(), Some(0));
    assert_eq!(it.next(), None);
}

#[test]
fn bit_index_stops_at_the_count() {
    let row = [0b0101_0101u8, 0xff];
    let mut it = bit_index(&row, 1, 3);
    assert_eq!(it.next(), Some(0));
    assert_eq!(it.next(), Some(1));
    assert_eq!(it.next(), Some(0));
    assert_eq!(it.next(), None);
}

#[test]
fn bit_index_yields_nothing_behind_the_row() {
    let row = [0xf0u8];
    let mut it = bit_index(&row, 4, 5);
    assert_eq!(it.next(), Some(15));
    assert_eq!(it.next(), Some(0));
    assert_eq!(it.next(), None);
    assert_eq!(it.next(), None);
    let empty: [u8; 0] = [];
    let mut none = bit_index(&empty, 1, 2);
    assert_eq!(none.next(), None);
    let mut zero = bit_index(&row, 8, 0);
    assert_eq!(zero.next(), None);
}

#[test]
fn palette_of_two_colors() {
    let file = bmp_file(40, 8, 1, 1, 0, 0, &two_colors(), &[0, 0, 0, 0]);
    let dib = read_bmp_dib_header(&file).ok().unwrap();
    let palette = read_color_palette(&file, &dib).ok().unwrap();
    assert_eq!(palette, Some(vec![BLACK, WHITE]));
}

#[test]
fn palette_channels_are_reordered() {
    let file = bmp_file(40, 1, 1, 8, 0, 3, &[1, 2, 3, 99, 4, 5, 6, 99, 7, 8, 9, 99], &[0, 0, 0, 0]);
    let dib = read_bmp_dib_header(&file).ok().unwrap();
    let palette = read_color_palette(&file, &dib).ok().unwrap().unwrap();
    assert_eq!(
        palette,
        vec![Pixel::new(3, 2, 1), Pixel::new(6, 5, 4), Pixel::new(9, 8, 7)]
    );
}

#[test]
fn no_palette_for_direct_color() {
    let file = bmp_file(40, 1, 1, 24, 0, 0, &[], &[1, 2, 3, 0]);
    let dib = read_bmp_dib_header(&file).ok().unwrap();
    assert_eq!(read_color_palette(&file, &dib).ok().unwrap(), None);
}

#[test]
fn palette_of_version_two_is_refused() {
    let dib = BmpDibHeader {
        header_size: 12,
        width: 1,
        height: 1,
        num_planes: 1,
        bits_per_pixel: 8,
        compress_type: 0,
        data_size: 0,
        hres: 0,
        vres: 0,
        num_colors: 0,
        num_imp_colors: 0,
    };
    let e = read_color_palette(&[0u8; 4], &dib).err().unwrap();
    assert_eq!(e.kind, BmpErrorKind::UnsupportedBmpVersion);
    assert_eq!(e.details, "BMP Version 2");
    let direct = BmpDibHeader { bits_per_pixel: 24, ..dib };
    assert_eq!(read_color_palette(&[0u8; 4], &direct).ok().unwrap(), None);
}

#[test]
fn direct_color_single_pixel() {
    let file = bmp_file(40, 1, 1, 24, 0, 0, &[], &[10, 20, 30, 0]);
    let img = decode_image(&file).ok().unwrap();
    assert_eq!(img.get_width(), 1);
    assert_eq!(img.get_height(), 1);
    assert_eq!(img.pixel_count(), 1);
    assert_eq!(img.get_pixel(0, 0), Pixel { r: 30, g: 20, b: 10 });
}

#[test]
fn direct_color_last_slot_needs_three_bytes() {
    let file = bmp_file(40, 1, 1, 24, 0, 0, &[], &[10, 20, 30]);
    let img = from_bytes(&file).ok().unwrap();
    assert_eq!(img.get_pixel(0, 0), Pixel::new(30, 20, 10));
}

#[test]
fn direct_color_slots_of_four_bytes() {
    let pixels = [1, 2, 3, 0, 4, 5, 6, 0, 7, 8, 9, 0, 10, 11, 12, 0];
    let file = bmp_file(108, 2, 2, 24, 0, 0, &[], &pixels);
    let img = decode_image(&file).ok().unwrap();
    assert_eq!(img.pixel_count(), 4);
    // the first row of the file is the bottom row of the image
    assert_eq!(img.get_pixel(0, 1), Pixel::new(3, 2, 1));
    assert_eq!(img.get_pixel(1, 1), Pixel::new(6, 5, 4));
    assert_eq!(img.get_pixel(0, 0), Pixel::new(9, 8, 7));
    assert_eq!(img.get_pixel(1, 0), Pixel::new(12, 11, 10));
    let data = read_pixels(&file, 2, 2, 14 + 108).ok().unwrap();
    assert_eq!(
        data,
        vec![Pixel::new(3, 2, 1), Pixel::new(6, 5, 4), Pixel::new(9, 8, 7), Pixel::new(12, 11, 10)]
    );
}

#[test]
fn negative_height_keeps_the_row_order() {
    let pixels = [1, 2, 3, 0, 4, 5, 6, 0];
    let file = bmp_file(40, 1, -2, 24, 0, 0, &[], &pixels);
    let img = decode_image(&file).ok().unwrap();
    assert_eq!(img.get_width(), 1);
    assert_eq!(img.get_height(), 2);
    assert_eq!(img.get_pixel(0, 1), Pixel::new(3, 2, 1));
    assert_eq!(img.get_pixel(0, 0), Pixel::new(6, 5, 4));
}

#[test]
fn indexed_rows_of_one_bit() {
    // two rows of eight pixels, each row padded to four bytes
    let pixels = [0b1000_0001u8, 9, 9, 9, 0b0111_1110, 9, 9, 9];
    let file = bmp_file(40, 8, 2, 1, 0, 2, &two_colors(), &pixels);
    let img = decode_image(&file).ok().unwrap();
    assert_eq!(img.get_width(), 8);
    assert_eq!(img.get_height(), 2);
    assert_eq!(img.pixel_count(), 16);
    let bottom = [WHITE, BLACK, BLACK, BLACK, BLACK, BLACK, BLACK, WHITE];
    let top = [BLACK, WHITE, WHITE, WHITE, WHITE, WHITE, WHITE, BLACK];
    for x in 0..8u32 {
        assert_eq!(img.get_pixel(x, 1), bottom[x as usize]);
        assert_eq!(img.get_pixel(x, 0), top[x as usize]);
    }
}

#[test]
fn indexed_rows_narrower_than_a_byte_yield_nothing() {
    // Two pixels of one bit do not fill a byte: no byte of such a row is read.
    let pixels = [0b1000_0000u8, 0, 0, 0, 0b0100_0000, 0, 0, 0];
    let file = bmp_file(40, 2, 2, 1, 0, 2, &two_colors(), &pixels);
    let img = decode_image(&file).ok().unwrap();
    assert_eq!(img.get_width(), 2);
    assert_eq!(img.get_height(), 2);
    assert_eq!(img.pixel_count(), 0);
}

#[test]
fn indexed_rows_keep_whole_bytes_only() {
    // ten pixels of one bit: one whole byte a row, so eight pixels a row
    let pixels = [0xffu8, 0xc0, 0, 0, 0x00, 0xc0, 0, 0];
    let file = bmp_file(40, 10, 2, 1, 0, 0, &two_colors(), &pixels);
    let img = decode_image(&file).ok().unwrap();
    assert_eq!(img.get_width(), 10);
    assert_eq!(img.pixel_count(), 16);
}

#[test]
fn indexed_rows_of_four_bits() {
    let mut palette: Vec<u8> = Vec::new();
    for i in 0..16u8 {
        palette.extend_from_slice(&[i, i + 100, i + 200, 0]);
    }
    let pixels = [0x01u8, 0x2f, 0, 0];
    let file = bmp_file(40, 4, 1, 4, 0, 0, &palette, &pixels);
    let img = decode_image(&file).ok().unwrap();
    assert_eq!(img.pixel_count(), 4);
    assert_eq!(img.get_pixel(0, 0), Pixel::new(200, 100, 0));
    assert_eq!(img.get_pixel(1, 0), Pixel::new(201, 101, 1));
    assert_eq!(img.get_pixel(2, 0), Pixel::new(202, 102, 2));
    assert_eq!(img.get_pixel(3, 0), Pixel::new(215, 115, 15));
}

#[test]
fn indexed_rows_of_eight_bits_with_padding() {
    let palette = [0u8, 0, 0, 0, 10, 20, 30, 0, 40, 50, 60, 0];
    // three bytes a row and one byte of padding
    let pixels = [0u8, 1, 2, 77, 2, 1, 0, 77];
    let file = bmp_file(124, 3, 2, 8, 0, 3, &palette, &pixels);
    let img = decode_image(&file).ok().unwrap();
    assert_eq!(img.pixel_count(), 6);
    assert_eq!(img.get_pixel(0, 1), BLACK);
    assert_eq!(img.get_pixel(1, 1), Pixel::new(30, 20, 10));
    assert_eq!(img.get_pixel(2, 1), Pixel::new(60, 50, 40));
    assert_eq!(img.get_pixel(0, 0), Pixel::new(60, 50, 40));
    assert_eq!(img.get_pixel(1, 0), Pixel::new(30, 20, 10));
    assert_eq!(img.get_pixel(2, 0), BLACK);
}

#[test]
fn indexes_are_looked_up_in_the_palette() {
    let palette = vec![Pixel::new(1, 1, 1), Pixel::new(2, 2, 2)];
    let bytes = [0b1010_0000u8, 0, 0, 0, 0b0101_1111, 0, 0, 0];
    let data = read_indexes(&bytes, &palette, 8, 2, 1, 0).ok().unwrap();
    let one = Pixel::new(1, 1, 1);
    let two = Pixel::new(2, 2, 2);
    assert_eq!(
        data,
        vec![two, one, two, one, one, one, one, one, one, two, one, two, two, two, two, two]
    );
    let none = read_indexes(&bytes, &palette, 8, 0, 1, 0).ok().unwrap();
    assert!(none.is_empty());
}

#[test]
fn image_without_rows() {
    let file = bmp_file(40, 4, 0, 24, 0, 0, &[], &[]);
    let img = decode_image(&file).ok().unwrap();
    assert_eq!(img.get_width(), 4);
    assert_eq!(img.get_height(), 0);
    assert_eq!(img.pixel_count(), 0);
}

#[test]
fn short_buffers_cannot_be_decoded() {
    assert!(!can_decode(&[]));
    assert!(!can_decode(b"B"));
    assert!(can_decode(b"XY"));
    assert!(!can_decode(b"BM"));
    assert!(!can_decode(b"BM and fewer than fifty-four bytes"));
    let file = bmp_file(40, 2, 2, 24, 0, 0, &[], &[0; 15]);
    assert!(can_decode(&file));
    assert!(!can_decode(&file[..file.len() - 1]));
    assert!(decode_checked(&file[..file.len() - 1]).is_none());
    assert!(decode_checked(&file).unwrap().is_ok());
    // refused files need no data
    assert!(can_decode(&bmp_file(12, 9, 9, 24, 0, 0, &[], &[])));
    assert_eq!(
        decode_checked(&bmp_file(12, 9, 9, 24, 0, 0, &[], &[])).unwrap().err().unwrap().kind,
        BmpErrorKind::UnsupportedBmpVersion
    );
    // a palette that is cut short
    assert!(!can_decode(&bmp_file(40, 8, 1, 1, 0, 0, &[0, 0, 0, 0], &[])));
    // rows that are cut short
    let indexed = bmp_file(40, 8, 2, 1, 0, 0, &two_colors(), &[0, 0, 0, 0, 0xff]);
    assert!(can_decode(&indexed));
    assert!(!can_decode(&indexed[..indexed.len() - 1]));
    // an index without an entry in the palette
    let small = bmp_file(40, 1, 1, 8, 0, 2, &two_colors(), &[1]);
    assert!(can_decode(&small));
    let beyond = bmp_file(40, 1, 1, 8, 0, 2, &two_colors(), &[2]);
    assert!(!can_decode(&beyond));
    assert!(check_indexes(&[0u8, 1, 1, 0], 2, 4, 1, 8, 0));
    assert!(!check_indexes(&[0u8, 1, 2, 0], 2, 4, 1, 8, 0));
    // a palette beside 24 bits per pixel cannot be unpacked
    assert!(!can_decode(&bmp_file(40, 1, 1, 24, 0, 1, &[0, 0, 0, 0], &[0, 0, 0, 0])));
    assert!(can_decode(&bmp_file(40, 1, 0, 24, 0, 1, &[0, 0, 0, 0], &[])));
    // a width without a magnitude
    assert!(!can_decode(&bmp_file(40, i32::MIN, 1, 24, 0, 0, &[], &[0; 8])));
    // a size that the headers cannot describe
    assert!(!can_decode(&bmp_file(40, i32::MAX, i32::MAX, 24, 0, 0, &[], &[0; 8])));
}

#[test]
fn bit_index_collects_what_is_left() {
    let row = [0b1011_0100u8];
    assert_eq!(bit_index(&row, 4, 2).to_vec(), vec![11, 4]);
    let row = [0b1000_0000u8];
    assert_eq!(bit_index(&row, 1, 8).to_vec(), vec![1, 0, 0, 0, 0, 0, 0, 0]);
    let row = [0x12u8, 0x34, 0x56];
    assert_eq!(bit_index(&row, 4, 5).to_vec(), vec![1, 2, 3, 4, 5]);
    assert_eq!(bit_index(&row, 4, 9).to_vec(), vec![1, 2, 3, 4, 5, 6]);
    assert_eq!(bit_index(&row, 8, 2).to_vec(), vec![0x12, 0x34]);
    let mut it = bit_index(&row, 4, 4);
    assert_eq!(it.next(), Some(1));
    assert_eq!(it.to_vec(), vec![2, 3, 4]);
    assert!(bit_index(&row, 2, 0).to_vec().is_empty());
}
