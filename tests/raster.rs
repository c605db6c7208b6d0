use inkplate_comics::raster::{ColorMode, GrayImage, Raster};

#[test]
fn well_formed_rasters_hold_every_pixel() {
    let r = Raster { width: 2, height: 3, color: ColorMode::Rgb8, data: vec![0; 18] };
    assert!(r.is_well_formed());
    let r = Raster { width: 2, height: 3, color: ColorMode::Rgba8, data: vec![0; 18] };
    assert!(!r.is_well_formed());
    assert_eq!(ColorMode::La8.channels(), 2);
}

#[test]
fn gray_image_becomes_single_channel_raster() {
    let g = GrayImage { width: 2, height: 1, pixels: vec![3, 4] };
    let r = g.into_raster();
    assert_eq!((r.width, r.height, r.color), (2, 1, ColorMode::L8));
    assert_eq!(r.data, vec![3, 4]);
    assert!(r.is_well_formed());
}
