use vstd::prelude::*;

verus! {

/// Channel layout of an 8-bit raster.
#[derive(Debug, Copy, Clone, PartialEq, Eq, Structural)]
pub enum ColorMode {
    /// One luma byte per pixel.
    L8,
    /// Luma and alpha.
    La8,
    /// Red, green, blue.
    Rgb8,
    /// Red, green, blue, alpha.
    Rgba8,
}

impl ColorMode {
    pub open spec fn spec_channels(self) -> nat {
        match self {
            ColorMode::L8 => 1,
            ColorMode::La8 => 2,
            ColorMode::Rgb8 => 3,
            ColorMode::Rgba8 => 4,
        }
    }

    /// Bytes per pixel.
    pub fn channels(&self) -> (r: u32)
        ensures
            r as nat == self.spec_channels(),
    {
        match self {
            ColorMode::L8 => 1,
            ColorMode::La8 => 2,
            ColorMode::Rgb8 => 3,
            ColorMode::Rgba8 => 4,
        }
    }
}

/// A decoded raster: `width * height` pixels in row-major order, each pixel
/// `color.channels()` bytes.
#[derive(Debug, Clone)]
pub struct Raster {
    pub width: u32,
    pub height: u32,
    pub color: ColorMode,
    pub data: Vec<u8>,
}

impl Raster {
    pub open spec fn wf(&self) -> bool {
        self.data@.len() == self.width as nat * self.height as nat * self.color.spec_channels()
    }

    /// Whether the buffer holds exactly `width * height` pixels of the layout.
    pub fn is_well_formed(&self) -> (r: bool)
        ensures
            r == self.wf(),
    {
        let channels = self.color.channels();
        assert(self.width as nat * self.height as nat * channels as nat <= 0xffff_ffffu128 * 0xffff_ffffu128 * 4)
            by (nonlinear_arith)
            requires
                self.width <= 0xffff_ffffu32,
                self.height <= 0xffff_ffffu32,
                channels <= 4,
        ;
        let expected = self.width as u128 * self.height as u128 * channels as u128;
        self.data.len() as u128 == expected
    }
}

/// An 8-bit grayscale raster, one byte per pixel in row-major order.
#[derive(Debug, Clone)]
pub struct GrayImage {
    pub width: u32,
    pub height: u32,
    pub pixels: Vec<u8>,
}

impl GrayImage {
    pub open spec fn wf(&self) -> bool {
        self.pixels@.len() == self.width as nat * self.height as nat
    }

    /// The same pixels as a single-channel raster.
    pub fn into_raster(self) -> (r: Raster)
        ensures
            r.width == self.width,
            r.height == self.height,
            r.color == ColorMode::L8,
            r.data@ == self.pixels@,
            self.wf() ==> r.wf(),
    {
        assert(self.width as nat * self.height as nat * 1 == self.width as nat * self.height as nat);
        Raster { width: self.width, height: self.height, color: ColorMode::L8, data: self.pixels }
    }
}

/// Position of pixel `(x, y)` in a row-major buffer of rows `width` long.
pub open spec fn pixel_index(x: int, y: int, width: int) -> int {
    y * width + x
}

pub proof fn lemma_pixel_index_bounds(x: int, y: int, width: int, height: int)
    requires
        0 <= x < width,
        0 <= y < height,
    ensures
        0 <= pixel_index(x, y, width) < width * height,
        pixel_index(x, y, width) / width == y,
        pixel_index(x, y, width) % width == x,
{
    assert(0 <= y * width + x < width * height) by (nonlinear_arith)
        requires
            0 <= x < width,
            0 <= y < height,
    ;
    vstd::arithmetic::div_mod::lemma_fundamental_div_mod_converse(y * width + x, width, y, x);
}

} // verus!
