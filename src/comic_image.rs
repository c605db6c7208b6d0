use vstd::prelude::*;

use crate::dithering::{quantized_3bit, spec_floyd_steinberg, spec_jarvis_judice_ninke};
use crate::encoding::{inkplate_png, inkplate_raw, packed};
use crate::imaging::{decode_png, encode_png_fast, fast_png_of, png_decoded_of, png_of};
use crate::raster::{ColorMode, Raster};

verus! {

/// A source image held as a compact PNG, decoded again on each use.
#[derive(Debug, Clone)]
pub struct ComicImage {
    data: Vec<u8>,
    width: u32,
    height: u32,
    color: ColorMode,
}

/// The single-channel PNG of a stored image after 3-bit quantization with
/// Floyd-Steinberg diffusion, where it decodes.
pub open spec fn dithered_png_of(stored: Seq<u8>) -> Option<Seq<u8>> {
    match png_decoded_of(stored) {
        Some((c, w, h, d)) => png_of(ColorMode::L8, w, h, quantized_3bit(c, w, h, d, spec_floyd_steinberg())),
        None => None,
    }
}

/// The packed display bytes of a stored image after 3-bit quantization with
/// Jarvis-Judice-Ninke diffusion, where it decodes.
pub open spec fn packed_of(stored: Seq<u8>) -> Option<Seq<u8>> {
    match png_decoded_of(stored) {
        Some((c, w, h, d)) => Some(packed(quantized_3bit(c, w, h, d, spec_jarvis_judice_ninke()), w as nat, h as nat)),
        None => None,
    }
}

impl ComicImage {
    /// The stored PNG bytes.
    pub closed spec fn stored(&self) -> Seq<u8> {
        self.data@
    }

    pub closed spec fn spec_width(&self) -> u32 {
        self.width
    }

    pub closed spec fn spec_height(&self) -> u32 {
        self.height
    }

    pub closed spec fn spec_color(&self) -> ColorMode {
        self.color
    }

    /// Stores a raster, encoded once as PNG with fast compression; `None`
    /// where the encoder refuses it, which it does only for a raster without
    /// pixels.
    pub fn from(image: &Raster) -> (r: Option<ComicImage>)
        requires
            image.wf(),
        ensures
            match r {
                Some(c) => {
                    &&& c.spec_width() == image.width
                    &&& c.spec_height() == image.height
                    &&& c.spec_color() == image.color
                    &&& fast_png_of(image.color, image.width, image.height, image.data@) == Some(c.stored())
                },
                None => fast_png_of(image.color, image.width, image.height, image.data@) is None,
            },
            image.width > 0 && image.height > 0 ==> r is Some,
    {
        match encode_png_fast(image) {
            Some(data) => Some(ComicImage { data, width: image.width, height: image.height, color: image.color }),
            None => None,
        }
    }

    /// Decodes the stored PNG afresh.
    pub fn dynamic_image(&self) -> (r: Option<Raster>)
        ensures
            match r {
                Some(img) => img.wf() && png_decoded_of(self.stored()) == Some(
                    (img.color, img.width, img.height, img.data@),
                ),
                None => png_decoded_of(self.stored()) is None,
            },
    {
        decode_png(&self.data)
    }

    /// The stored PNG bytes.
    pub fn png_image(&self) -> (r: Vec<u8>)
        ensures
            r@ == self.stored(),
    {
        let mut out: Vec<u8> = Vec::new();
        let mut i: usize = 0;
        while i < self.data.len()
            invariant
                i <= self.data@.len(),
                out@ == self.data@.take(i as int),
            decreases self.data@.len() - i,
        {
            out.push(self.data[i]);
            assert(out@ =~= self.data@.take(i + 1));
            i = i + 1;
        }
        assert(out@ =~= self.data@);
        out
    }

    /// The image quantized with Floyd-Steinberg diffusion, as a
    /// single-channel PNG.
    pub fn dithered_png_image(&self) -> (r: Option<Vec<u8>>)
        ensures
            match r {
                Some(bytes) => dithered_png_of(self.stored()) == Some(bytes@),
                None => dithered_png_of(self.stored()) is None,
            },
    {
        match self.dynamic_image() {
            Some(img) => inkplate_png(&img),
            None => None,
        }
    }

    /// The image quantized with Jarvis-Judice-Ninke diffusion, in the
    /// display's packed layout.
    pub fn inkplate_image(&self) -> (r: Option<Vec<u8>>)
        ensures
            match r {
                Some(bytes) => packed_of(self.stored()) == Some(bytes@),
                None => packed_of(self.stored()) is None,
            },
    {
        match self.dynamic_image() {
            Some(img) => Some(inkplate_raw(&img)),
            None => None,
        }
    }

    pub fn width(&self) -> (r: u32)
        ensures
            r == self.spec_width(),
    {
        self.width
    }

    pub fn height(&self) -> (r: u32)
        ensures
            r == self.spec_height(),
    {
        self.height
    }

    pub fn dimensions(&self) -> (r: (u32, u32))
        ensures
            r == (self.spec_width(), self.spec_height()),
    {
        (self.width, self.height)
    }

    pub fn color(&self) -> (r: ColorMode)
        ensures
            r == self.spec_color(),
    {
        self.color
    }
}

} // verus!
