use inkplate_comics::comic_image::ComicImage;
use inkplate_comics::filter::{HttpClassifierFilter, ImageFilter};
use inkplate_comics::raster::{ColorMode, Raster};

#[test]
fn stored_image_decodes_to_the_same_raster() {
    let data: Vec<u8> = (0..24).collect();
    let raster = Raster { width: 4, height: 2, color: ColorMode::Rgb8, data: data.clone() };
    let stored = ComicImage::from(&raster).expect("encodes");
    assert_eq!(stored.dimensions(), (4, 2));
    assert_eq!(stored.width(), 4);
    assert_eq!(stored.height(), 2);
    assert_eq!(stored.color(), ColorMode::Rgb8);
    let decoded = stored.dynamic_image().expect("decodes");
    assert_eq!((decoded.width, decoded.height, decoded.color), (4, 2, ColorMode::Rgb8));
    assert_eq!(decoded.data, data);
    let again = stored.dynamic_image().expect("decodes");
    assert_eq!(again.data, decoded.data);
}

#[test]
fn stored_bytes_are_a_png() {
    let raster = Raster { width: 1, height: 1, color: ColorMode::L8, data: vec![7] };
    let stored = ComicImage::from(&raster).expect("encodes");
    assert_eq!(&stored.png_image()[..4], &[137, 80, 78, 71]);
}

#[test]
fn every_nonempty_raster_is_stored() {
    for (w, h, color, channels) in [(1u32, 1u32, ColorMode::L8, 1usize), (3, 2, ColorMode::La8, 2), (2, 5, ColorMode::Rgba8, 4)] {
        let raster = Raster { width: w, height: h, color, data: vec![77; w as usize * h as usize * channels] };
        let stored = ComicImage::from(&raster).expect("a raster with pixels is always stored");
        assert_eq!((stored.width(), stored.height(), stored.color()), (w, h, color));
    }
}

#[test]
fn empty_raster_is_not_stored() {
    let raster = Raster { width: 0, height: 3, color: ColorMode::L8, data: vec![] };
    assert!(ComicImage::from(&raster).is_none());
}

#[test]
fn stored_image_renders_for_the_display() {
    let raster = Raster { width: 2, height: 1, color: ColorMode::L8, data: vec![0xff, 0x00] };
    let stored = ComicImage::from(&raster).expect("encodes");
    assert_eq!(stored.inkplate_image(), Some(vec![0xe0]));
    let dithered = stored.dithered_png_image().expect("encodes");
    assert_eq!(&dithered[..4], &[137, 80, 78, 71]);
}

#[test]
fn classifier_keeps_comics_only() {
    let filter = HttpClassifierFilter::new("http://localhost:5000/classify".to_string());
    assert_eq!(filter.url(), "http://localhost:5000/classify");
    let comic = "comic".to_string();
    let other = "photo".to_string();
    assert!(filter.accepts(Some(&comic)));
    assert!(!filter.accepts(Some(&other)));
    assert!(!filter.accepts(None));
    let image_filter = ImageFilter::from(filter);
    assert!(image_filter.accepts(Some(&comic)));
    assert!(!image_filter.accepts(None));
}
