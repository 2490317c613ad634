use bmp::bits::BITS;
use bmp::header::{
    data_size_for, BmpDibHeader, BmpHeader, BmpVersion, CompressionType, BMP_HEADER_SIZE,
    DIB_HEADER_SIZE,
};
use bmp::{BmpError, BmpErrorKind, Image, ImageData, ImageIndex, Pixel};

#[test]
fn new_image_is_black() {
    let img = Image::new(3, 2);
    assert_eq!(img.get_width(), 3);
    assert_eq!(img.get_height(), 2);
    assert_eq!(img.pixel_count(), 6);
    for y in 0..2u32 {
        for x in 0..3u32 {
            assert_eq!(img.get_pixel(x, y), Pixel { r: 0, g: 0, b: 0 });
        }
    }
}

#[test]
fn new_image_without_pixels() {
    let img = Image::new(0, 5);
    assert_eq!(img.get_width(), 0);
    assert_eq!(img.get_height(), 5);
    assert_eq!(img.pixel_count(), 0);
    let mut it = img.coordinates();
    assert_eq!(it.next(), None);
    let mut it = Image::new(5, 0).coordinates();
    assert_eq!(it.next(), None);
}

#[test]
fn set_pixel_changes_one_pixel() {
    let mut img = Image::new(4, 3);
    let red = Pixel::new(255, 0, 0);
    img.set_pixel(1, 2, red);
    for y in 0..3u32 {
        for x in 0..4u32 {
            let expected = if x == 1 && y == 2 { red } else { Pixel::new(0, 0, 0) };
            assert_eq!(img.get_pixel(x, y), expected);
        }
    }
    assert_eq!(img.get_width(), 4);
    assert_eq!(img.get_height(), 3);
    img.set_pixel(1, 2, Pixel::new(1, 2, 3));
    assert_eq!(img.get_pixel(1, 2), Pixel::new(1, 2, 3));
}

#[test]
fn every_pixel_has_its_own_place() {
    let mut img = Image::new(5, 4);
    for y in 0..4u32 {
        for x in 0..5u32 {
            img.set_pixel(x, y, Pixel::new(x as u8, y as u8, 9));
        }
    }
    for y in 0..4u32 {
        for x in 0..5u32 {
            assert_eq!(img.get_pixel(x, y), Pixel::new(x as u8, y as u8, 9));
        }
    }
}

#[test]
fn images_compare_by_content() {
    let mut a = Image::new(2, 2);
    let b = Image::new(2, 2);
    assert!(a == b);
    a.set_pixel(0, 0, Pixel::new(1, 1, 1));
    assert!(a != b);
    assert!(a.clone() == a);
}

#[test]
fn coordinates_walk_row_by_row() {
    let img = Image::new(3, 2);
    let mut it = img.coordinates();
    let mut got: Vec<(u32, u32)> = Vec::new();
    while let Some(pair) = it.next() {
        got.push(pair);
    }
    assert_eq!(got, vec![(0, 0), (1, 0), (2, 0), (0, 1), (1, 1), (2, 1)]);
    assert_eq!(it.next(), None);
    assert_eq!(img.coordinates().to_vec(), got);
}

#[test]
fn coordinates_cover_the_grid_once() {
    let img = Image::new(7, 5);
    let pairs = img.coordinates().to_vec();
    assert_eq!(pairs.len(), 35);
    for y in 0..5u32 {
        for x in 0..7u32 {
            assert_eq!(pairs.iter().filter(|p| **p == (x, y)).count(), 1);
            assert_eq!(pairs[(y * 7 + x) as usize], (x, y));
        }
    }
}

#[test]
fn walk_of_a_given_size() {
    let mut it = ImageIndex::new(1, 2);
    assert_eq!(it.next(), Some((0, 0)));
    assert_eq!(it.to_vec(), vec![(0, 1)]);
    assert_eq!(it.next(), Some((0, 1)));
    assert_eq!(it.next(), None);
    assert!(it.to_vec().is_empty());
}

#[test]
fn row_size_is_rounded_up_to_four_bytes() {
    assert_eq!(data_size_for(1, 1), 4);
    assert_eq!(data_size_for(3, 2), 24);
    assert_eq!(data_size_for(4, 1), 12);
    assert_eq!(data_size_for(5, 3), 48);
    assert_eq!(data_size_for(100, 80), 24000);
    assert_eq!(data_size_for(0, 9), 0);
    assert_eq!(data_size_for(9, 0), 0);
}

#[test]
fn headers_of_a_new_image() {
    assert_eq!(BMP_HEADER_SIZE + DIB_HEADER_SIZE, 54);
    assert_eq!(BITS, 8);
    let header = BmpHeader::new(54, 24);
    assert_eq!(
        header,
        BmpHeader { file_size: 78, creator1: 0, creator2: 0, pixel_offset: 54 }
    );
    let dib = BmpDibHeader::new(3, 2);
    assert_eq!(
        dib,
        BmpDibHeader {
            header_size: 40,
            width: 3,
            height: 2,
            num_planes: 1,
            bits_per_pixel: 24,
            compress_type: 0,
            data_size: 24,
            hres: 1000,
            vres: 1000,
            num_colors: 0,
            num_imp_colors: 0,
        }
    );
}

#[test]
fn version_is_inferred_from_size_and_compression() {
    let dib = BmpDibHeader::new(1, 1);
    let with = |header_size: u32, compress_type: u32| {
        BmpVersion::from_dib_header(&BmpDibHeader { header_size, compress_type, ..dib })
    };
    assert_eq!(with(12, 0), Some(BmpVersion::Two));
    assert_eq!(with(12, 3), Some(BmpVersion::Two));
    assert_eq!(with(40, 3), Some(BmpVersion::ThreeNT));
    assert_eq!(with(40, 0), Some(BmpVersion::Three));
    assert_eq!(with(40, 2), Some(BmpVersion::Three));
    assert_eq!(with(108, 3), Some(BmpVersion::Four));
    assert_eq!(with(124, 0), Some(BmpVersion::Five));
    assert_eq!(with(0, 0), None);
    assert_eq!(with(41, 3), None);
    assert_eq!(BmpVersion::Two.as_str(), "BMP Version 2");
    assert_eq!(BmpVersion::Three.as_str(), "BMP Version 3");
    assert_eq!(BmpVersion::ThreeNT.as_str(), "BMP Version 3 NT");
    assert_eq!(BmpVersion::Four.as_str(), "BMP Version 4");
    assert_eq!(BmpVersion::Five.as_str(), "BMP Version 5");
}

#[test]
fn compression_codes_have_names() {
    assert_eq!(CompressionType::from_u32(0), CompressionType::Uncompressed);
    assert_eq!(CompressionType::from_u32(1), CompressionType::Rle8bit);
    assert_eq!(CompressionType::from_u32(2), CompressionType::Rle4bit);
    assert_eq!(CompressionType::from_u32(3), CompressionType::BitfieldsEncoding);
    assert_eq!(CompressionType::from_u32(4), CompressionType::Uncompressed);
    assert_eq!(CompressionType::Uncompressed.as_str(), "Uncompressed");
    assert_eq!(CompressionType::Rle8bit.as_str(), "RLE 8-bit");
    assert_eq!(CompressionType::Rle4bit.as_str(), "RLE 4-bit");
    assert_eq!(CompressionType::BitfieldsEncoding.as_str(), "Bitfields Encoding");
}

#[test]
fn error_keeps_kind_and_details() {
    let e = BmpError::new(BmpErrorKind::UnsupportedHeader, "what was found");
    assert_eq!(e.kind, BmpErrorKind::UnsupportedHeader);
    assert_eq!(e.details, "what was found");
}

#[test]
fn image_data_holds_rows() {
    let data = ImageData { width: 2, height: 1, pixels: vec![vec![1, 2]] };
    assert_eq!(data.clone(), data);
    assert_eq!(data.pixels[0][1], 2);
}
