use inkplate_comics::encoding::{inkplate_png, inkplate_raw, is_odd, pack_nibbles, png};
use inkplate_comics::raster::{ColorMode, GrayImage, Raster};

const PNG_SIGNATURE: [u8; 8] = [137, 80, 78, 71, 13, 10, 26, 10];

#[test]
fn packs_two_pixels_into_one_byte() {
    let img = GrayImage { width: 2, height: 1, pixels: vec![0xff, 0x00] };
    assert_eq!(pack_nibbles(&img), vec![0xf0]);
}

#[test]
fn odd_row_ends_in_padding_byte() {
    let img = GrayImage { width: 3, height: 1, pixels: vec![0xff, 0x00, 0x80] };
    assert_eq!(pack_nibbles(&img), vec![0xf0, 0x80]);
}

#[test]
fn rows_do_not_share_bytes() {
    let img = GrayImage { width: 3, height: 2, pixels: vec![0x12, 0x34, 0x56, 0x78, 0x9a, 0xbc] };
    assert_eq!(pack_nibbles(&img), vec![0x13, 0x50, 0x79, 0xb0]);
}

#[test]
fn empty_raster_packs_to_nothing() {
    let img = GrayImage { width: 0, height: 0, pixels: vec![] };
    assert_eq!(pack_nibbles(&img), Vec::<u8>::new());
}

#[test]
fn oddness() {
    assert!(is_odd(1));
    assert!(is_odd(825));
    assert!(!is_odd(0));
    assert!(!is_odd(1200));
}

#[test]
fn inkplate_raw_quantizes_then_packs() {
    let raster = Raster { width: 2, height: 1, color: ColorMode::L8, data: vec![0xff, 0x00] };
    assert_eq!(inkplate_raw(&raster), vec![0xe0]);
    let raster = Raster {
        width: 4,
        height: 3,
        color: ColorMode::L8,
        data: vec![200, 13, 77, 255, 31, 128, 64, 190, 5, 250, 99, 160],
    };
    assert_eq!(inkplate_raw(&raster), vec![0xc0, 0x4e, 0x28, 0x4c, 0x0e, 0x6a]);
}

#[test]
fn png_encodes_a_png_file() {
    let raster = Raster { width: 2, height: 2, color: ColorMode::Rgba8, data: vec![9; 16] };
    let bytes = png(&raster).expect("encodes");
    assert_eq!(&bytes[..8], &PNG_SIGNATURE);
    let gray = inkplate_png(&raster).expect("encodes");
    assert_eq!(&gray[..8], &PNG_SIGNATURE);
}

#[test]
fn png_refuses_an_empty_raster() {
    let raster = Raster { width: 0, height: 0, color: ColorMode::Rgba8, data: vec![] };
    assert!(png(&raster).is_none());
}
