use vstd::prelude::*;

use crate::raster::{ColorMode, GrayImage, Raster};
use image::{DynamicImage, GenericImageView};

verus! {

#[verifier::external_type_specification]
#[verifier::external_body]
pub struct ExDynamicImage(image::DynamicImage);

/// The luma bytes that the image crate's grayscale conversion gives a raster.
pub uninterp spec fn luma_of(color: ColorMode, width: u32, height: u32, data: Seq<u8>) -> Seq<u8>;

/// The PNG file that the image crate writes for a raster with default settings.
pub uninterp spec fn png_of(color: ColorMode, width: u32, height: u32, data: Seq<u8>) -> Option<Seq<u8>>;

/// The PNG file that the image crate writes for a raster with fast
/// compression and the `Sub` filter.
pub uninterp spec fn fast_png_of(color: ColorMode, width: u32, height: u32, data: Seq<u8>) -> Option<Seq<u8>>;

/// The raster that the image crate decodes from PNG bytes: colour mode,
/// width, height and pixel bytes.
pub uninterp spec fn png_decoded_of(data: Seq<u8>) -> Option<(ColorMode, u32, u32, Seq<u8>)>;

/// The RGBA bytes of a raster resampled with a Lanczos filter to
/// `new_width` x `new_height`.
pub uninterp spec fn resized_of(
    color: ColorMode,
    width: u32,
    height: u32,
    data: Seq<u8>,
    new_width: u32,
    new_height: u32,
) -> Seq<u8>;

/// The RGBA bytes of a `width` x `height` canvas after an RGBA layer is
/// blended onto it with its top left corner at `(x, y)`, cropped to the canvas.
pub uninterp spec fn overlaid_of(
    width: u32,
    height: u32,
    data: Seq<u8>,
    top_width: u32,
    top_height: u32,
    top_data: Seq<u8>,
    x: u32,
    y: u32,
) -> Seq<u8>;

/// Relies on image::ImageBuffer::from_raw, which accepts a buffer of
/// `width * height` pixels of the layout: the image crate's value of a raster.
/// Called from the bodies below only.
#[verifier::external_body]
fn as_dynamic(image: &Raster) -> DynamicImage
    requires
        image.wf(),
{
    let (w, h, data) = (image.width, image.height, image.data.clone());
    match image.color {
        ColorMode::L8 => DynamicImage::ImageLuma8(image::ImageBuffer::from_raw(w, h, data).unwrap()),
        ColorMode::La8 => DynamicImage::ImageLumaA8(image::ImageBuffer::from_raw(w, h, data).unwrap()),
        ColorMode::Rgb8 => DynamicImage::ImageRgb8(image::ImageBuffer::from_raw(w, h, data).unwrap()),
        ColorMode::Rgba8 => DynamicImage::ImageRgba8(image::ImageBuffer::from_raw(w, h, data).unwrap()),
    }
}

/// Relies on image::ImageBuffer::into_raw: the pixel bytes of a decoded
/// image, row-major, for the 8-bit layouts. Called from `decode_png` only.
#[verifier::external_body]
fn raster_of(d: DynamicImage) -> Option<Raster> {
    let (width, height) = (d.width(), d.height());
    match d {
        DynamicImage::ImageLuma8(b) => Some(Raster { width, height, color: ColorMode::L8, data: b.into_raw() }),
        DynamicImage::ImageLumaA8(b) => Some(Raster { width, height, color: ColorMode::La8, data: b.into_raw() }),
        DynamicImage::ImageRgb8(b) => Some(Raster { width, height, color: ColorMode::Rgb8, data: b.into_raw() }),
        DynamicImage::ImageRgba8(b) => Some(Raster { width, height, color: ColorMode::Rgba8, data: b.into_raw() }),
        _ => None,
    }
}

/// Relies on image::DynamicImage::grayscale and to_luma8: a luma raster of
/// the same size, whose bytes depend on the source alone.
#[verifier::external_body]
pub(crate) fn to_luma8(image: &Raster) -> (r: GrayImage)
    requires
        image.wf(),
    ensures
        r.wf(),
        r.width == image.width,
        r.height == image.height,
        r.pixels@ == luma_of(image.color, image.width, image.height, image.data@),
{
    let gray = as_dynamic(image).grayscale().to_luma8();
    GrayImage { width: gray.width(), height: gray.height(), pixels: gray.into_raw() }
}

/// Relies on image::DynamicImage::write_to with the PNG format: the encoded
/// file; the encoder refuses only a raster with no pixels, and writing to a
/// vector cannot fail.
#[verifier::external_body]
pub(crate) fn encode_png(image: &Raster) -> (r: Option<Vec<u8>>)
    requires
        image.wf(),
    ensures
        match r {
            Some(bytes) => png_of(image.color, image.width, image.height, image.data@) == Some(bytes@),
            None => png_of(image.color, image.width, image.height, image.data@) is None,
        },
        image.width > 0 && image.height > 0 ==> r is Some,
{
    let mut out: Vec<u8> = Vec::new();
    match as_dynamic(image).write_to(&mut out, image::ImageOutputFormat::Png) {
        Ok(()) => Some(out),
        Err(_) => None,
    }
}

/// Relies on image::png::PngEncoder::new_with_quality and encode with fast
/// compression and the `Sub` filter: the encoded file; the encoder refuses
/// only a raster with no pixels, and writing to a vector cannot fail.
#[verifier::external_body]
pub(crate) fn encode_png_fast(image: &Raster) -> (r: Option<Vec<u8>>)
    requires
        image.wf(),
    ensures
        match r {
            Some(bytes) => fast_png_of(image.color, image.width, image.height, image.data@) == Some(bytes@),
            None => fast_png_of(image.color, image.width, image.height, image.data@) is None,
        },
        image.width > 0 && image.height > 0 ==> r is Some,
{
    let d = as_dynamic(image);
    let mut data: Vec<u8> = Vec::new();
    let encoder = image::png::PngEncoder::new_with_quality(
        &mut data, image::png::CompressionType::Fast, image::png::FilterType::Sub);
    match encoder.encode(d.as_bytes(), d.width(), d.height(), d.color()) {
        Ok(()) => Some(data),
        Err(_) => None,
    }
}

/// Relies on image::io::Reader::decode with the PNG format: the decoded
/// raster, whose buffer holds `width * height` pixels, or an error.
#[verifier::external_body]
pub(crate) fn decode_png(data: &Vec<u8>) -> (r: Option<Raster>)
    ensures
        match r {
            Some(img) => img.wf() && png_decoded_of(data@) == Some((img.color, img.width, img.height, img.data@)),
            None => png_decoded_of(data@) is None,
        },
{
    let mut reader = image::io::Reader::new(std::io::Cursor::new(data));
    reader.set_format(image::ImageFormat::Png);
    match reader.decode() {
        Ok(d) => raster_of(d),
        Err(_) => None,
    }
}

/// Relies on image::imageops::resize with the Lanczos3 filter: an RGBA
/// raster of exactly `width` x `height`.
#[verifier::external_body]
pub(crate) fn resize_rgba(image: &Raster, width: u32, height: u32) -> (r: Raster)
    requires
        image.wf(),
        image.width > 0,
        image.height > 0,
    ensures
        r.wf(),
        r.color == ColorMode::Rgba8,
        r.width == width,
        r.height == height,
        r.data@ == resized_of(image.color, image.width, image.height, image.data@, width, height),
{
    let resized = image::imageops::resize(
        &as_dynamic(image), width, height, image::imageops::FilterType::Lanczos3);
    Raster { width: resized.width(), height: resized.height(), color: ColorMode::Rgba8, data: resized.into_raw() }
}

/// Whether pixel `(px, py)` lies in the `w` x `h` area whose top left
/// corner is `(x, y)`.
pub open spec fn in_area(px: int, py: int, x: int, y: int, w: int, h: int) -> bool {
    x <= px < x + w && y <= py < y + h
}

/// Relies on image::imageops::overlay: blends `top` onto `bottom` at
/// `(x, y)`, cropped to `bottom`, which keeps its size; only pixels under
/// `top` are written.
#[verifier::external_body]
pub(crate) fn overlay_rgba(bottom: &mut Raster, top: &Raster, x: u32, y: u32)
    requires
        old(bottom).wf(),
        old(bottom).color == ColorMode::Rgba8,
        top.wf(),
        top.color == ColorMode::Rgba8,
    ensures
        final(bottom).wf(),
        final(bottom).color == ColorMode::Rgba8,
        final(bottom).width == old(bottom).width,
        final(bottom).height == old(bottom).height,
        final(bottom).data@ == overlaid_of(
            old(bottom).width,
            old(bottom).height,
            old(bottom).data@,
            top.width,
            top.height,
            top.data@,
            x,
            y,
        ),
        forall|i: int|
            0 <= i < old(bottom).data@.len() && !in_area(
                (i / 4) % (old(bottom).width as int),
                (i / 4) / (old(bottom).width as int),
                x as int,
                y as int,
                top.width as int,
                top.height as int,
            ) ==> #[trigger] final(bottom).data@[i] == old(bottom).data@[i],
{
    let mut canvas = image::RgbaImage::from_raw(bottom.width, bottom.height, bottom.data.clone()).unwrap();
    let layer = image::RgbaImage::from_raw(top.width, top.height, top.data.clone()).unwrap();
    image::imageops::overlay(&mut canvas, &layer, x, y);
    bottom.data = canvas.into_raw();
}

} // verus!
