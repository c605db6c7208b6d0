use inkplate_comics::dithering::{
    apply_error_diffusion, atkinson, clamp, floyd_steinberg, get_pixel, jarvis_judice_ninke, none,
    quantize_to_3bit, Dithering,
};
use inkplate_comics::raster::{ColorMode, GrayImage, Raster};

fn gray(width: u32, height: u32, pixels: Vec<u8>) -> GrayImage {
    GrayImage { width, height, pixels }
}

fn weight_sum(d: &Dithering) -> u32 {
    let mut sum = 0;
    for row in 0..5 {
        for col in 0..5 {
            sum += d.weight_at(row, col);
        }
    }
    sum
}

#[test]
fn kernel_normalizations() {
    assert_eq!(jarvis_judice_ninke().normalization(), 48);
    assert_eq!(floyd_steinberg().normalization(), 16);
    assert_eq!(none().normalization(), 1);
    assert_eq!(atkinson().normalization(), 6);
    for d in [jarvis_judice_ninke(), floyd_steinberg(), atkinson(), none()] {
        assert_eq!(weight_sum(&d), d.normalization());
    }
}

#[test]
fn kernel_methods_match_free_functions() {
    let pairs = [
        (Dithering::jarvis_judice_ninke(), jarvis_judice_ninke()),
        (Dithering::floyd_steinberg(), floyd_steinberg()),
        (Dithering::atkinson(), atkinson()),
        (Dithering::none(), none()),
    ];
    for (a, b) in pairs {
        assert_eq!(a.normalization(), b.normalization());
        for row in 0..5 {
            for col in 0..5 {
                assert_eq!(a.weight_at(row, col), b.weight_at(row, col));
            }
        }
    }
}

#[test]
fn floyd_steinberg_weights() {
    let d = floyd_steinberg();
    assert_eq!(d.weight_at(2, 3), 7);
    assert_eq!(d.weight_at(3, 1), 3);
    assert_eq!(d.weight_at(3, 2), 5);
    assert_eq!(d.weight_at(3, 3), 1);
    assert_eq!(d.weight_at(2, 2), 0);
    assert_eq!(d.weight_at(4, 2), 0);
}

#[test]
fn jarvis_judice_ninke_weights() {
    let d = jarvis_judice_ninke();
    let expected = [
        [0, 0, 0, 0, 0],
        [0, 0, 0, 0, 0],
        [0, 0, 0, 7, 5],
        [3, 5, 7, 5, 3],
        [1, 3, 5, 3, 1],
    ];
    for row in 0..5 {
        for col in 0..5 {
            assert_eq!(d.weight_at(row, col), expected[row][col]);
        }
    }
}

#[test]
fn atkinson_and_none_weights() {
    let a = atkinson();
    assert_eq!(a.weight_at(2, 3), 1);
    assert_eq!(a.weight_at(2, 4), 1);
    assert_eq!(a.weight_at(4, 2), 1);
    assert_eq!(a.weight_at(4, 3), 0);
    let n = none();
    assert_eq!(n.weight_at(2, 2), 1);
    assert_eq!(n.weight_at(2, 3), 0);
}

#[test]
fn clamp_limits() {
    assert_eq!(clamp(300, 0, 255), 255);
    assert_eq!(clamp(3, 5, 255), 5);
    assert_eq!(clamp(17, 0, 255), 17);
}

#[test]
fn get_pixel_is_row_major() {
    let img = gray(3, 2, vec![1, 2, 3, 4, 5, 6]);
    assert_eq!(get_pixel(&img, 0, 0), 1);
    assert_eq!(get_pixel(&img, 2, 0), 3);
    assert_eq!(get_pixel(&img, 1, 1), 5);
}

#[test]
fn none_kernel_keeps_every_pixel() {
    let out = apply_error_diffusion(gray(2, 2, vec![0x1f, 0xff, 0x80, 0x37]), none());
    assert_eq!(out.pixels, vec![0x1f, 0xff, 0x80, 0x37]);
}

#[test]
fn jarvis_judice_ninke_two_pixels() {
    let out = apply_error_diffusion(gray(2, 1, vec![0xff, 0x00]), jarvis_judice_ninke());
    assert_eq!(out.pixels, vec![224, 0]);
}

#[test]
fn jarvis_judice_ninke_three_by_three() {
    let out = apply_error_diffusion(
        gray(3, 3, vec![10, 20, 30, 40, 50, 60, 70, 80, 90]),
        jarvis_judice_ninke(),
    );
    assert_eq!(out.pixels, vec![0, 0, 32, 32, 32, 64, 64, 64, 96]);
    assert_eq!((out.width, out.height), (3, 3));
}

#[test]
fn atkinson_spreads_error() {
    let out = apply_error_diffusion(gray(3, 2, vec![31; 6]), atkinson());
    assert_eq!(out.pixels, vec![0, 32, 32, 32, 32, 0]);
}

#[test]
fn floyd_steinberg_uniform_block() {
    let out = apply_error_diffusion(gray(2, 2, vec![100; 4]), floyd_steinberg());
    assert_eq!(out.pixels, vec![96; 4]);
}

#[test]
fn jarvis_judice_ninke_four_by_three() {
    let px = vec![200, 13, 77, 255, 31, 128, 64, 190, 5, 250, 99, 160];
    let out = apply_error_diffusion(gray(4, 3, px), jarvis_judice_ninke());
    assert_eq!(out.pixels, vec![192, 0, 64, 224, 32, 128, 64, 192, 0, 224, 96, 160]);
    assert!(out.pixels.iter().all(|p| p % 32 == 0));
}

#[test]
fn quantization_is_deterministic() {
    let raster = Raster {
        width: 4,
        height: 3,
        color: ColorMode::L8,
        data: vec![200, 13, 77, 255, 31, 128, 64, 190, 5, 250, 99, 160],
    };
    let first = quantize_to_3bit(&raster, jarvis_judice_ninke());
    let second = quantize_to_3bit(&raster, jarvis_judice_ninke());
    assert_eq!(first.pixels, second.pixels);
    assert_eq!(first.pixels, vec![192, 0, 64, 224, 32, 128, 64, 192, 0, 224, 96, 160]);
}

#[test]
fn quantize_converts_color_to_luma() {
    let raster = Raster { width: 1, height: 1, color: ColorMode::Rgb8, data: vec![0, 255, 0] };
    let out = quantize_to_3bit(&raster, floyd_steinberg());
    assert_eq!((out.width, out.height), (1, 1));
    assert_eq!(out.pixels, vec![160]);
}
