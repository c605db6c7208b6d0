use vstd::prelude::*;

use crate::dithering::{
    floyd_steinberg, get_pixel, jarvis_judice_ninke, quantize_to_3bit, quantized_3bit,
    spec_floyd_steinberg, spec_jarvis_judice_ninke,
};
use crate::imaging::{encode_png, png_of};
use crate::raster::{ColorMode, GrayImage, Raster, lemma_pixel_index_bounds, pixel_index};

verus! {

/// Bytes per row of the packed layout: two pixels per byte, the last byte of
/// an odd-width row half used.
pub open spec fn packed_row_len(width: nat) -> nat {
    (width + 1) / 2
}

/// Byte `i` of packed row `y`: the high nibble of pixel `2i`, and in the low
/// nibble the high nibble of pixel `2i + 1` where the row has one.
pub open spec fn packed_byte(px: Seq<u8>, width: nat, y: nat, i: nat) -> u8 {
    let high = px[pixel_index(2 * i as int, y as int, width as int)] & 0xf0;
    if 2 * i + 1 < width {
        high | (px[pixel_index(2 * i as int + 1, y as int, width as int)] >> 4)
    } else {
        high
    }
}

/// The packed layout of a grayscale raster: rows top to bottom, each row
/// `packed_row_len(width)` bytes, with no header.
pub open spec fn packed(px: Seq<u8>, width: nat, height: nat) -> Seq<u8> {
    let row_len = packed_row_len(width);
    Seq::new(height * row_len, |k: int| packed_byte(px, width, (k / row_len as int) as nat, (k % row_len as int) as nat))
}

/// Whether `value` is odd.
pub fn is_odd(value: u32) -> (r: bool)
    ensures
        r == (value % 2 == 1),
{
    assert(value & 0x1 == 0x1 <==> value % 2 == 1) by (bit_vector);
    value & 0x1 == 0x1
}

/// Packs a grayscale raster two pixels per byte, row by row; a row of odd
/// width ends in a byte whose low nibble is zero.
pub fn pack_nibbles(image: &GrayImage) -> (r: Vec<u8>)
    requires
        image.wf(),
    ensures
        r@ == packed(image.pixels@, image.width as nat, image.height as nat),
{
    let ghost px = image.pixels@;
    let ghost w = image.width as nat;
    let ghost rl = packed_row_len(w);
    let width = image.width;
    let height = image.height;
    let mut out_bytes: Vec<u8> = Vec::new();
    let odd_width = is_odd(width);
    let mut y: u32 = 0;
    while y < height
        invariant
            image.wf(),
            width == image.width,
            height == image.height,
            px == image.pixels@,
            w == width,
            rl == packed_row_len(w),
            odd_width == (width % 2 == 1),
            y <= height,
            out_bytes@.len() == y * rl,
            forall|k: int| 0 <= k < out_bytes@.len() ==> #[trigger] out_bytes@[k] == packed_byte(px, w, (k / rl as int) as nat, (k % rl as int) as nat),
        decreases height - y,
    {
        let mut current_byte: u8 = 0;
        let mut x: u32 = 0;
        while x < width
            invariant
                image.wf(),
                width == image.width,
                height == image.height,
                px == image.pixels@,
                w == width,
                rl == packed_row_len(w),
                odd_width == (width % 2 == 1),
                y < height,
                x <= width,
                out_bytes@.len() == y * rl + (if x == width { rl as int } else { x as int / 2 }),
                x % 2 == 1 && x < width ==> current_byte == px[pixel_index(x - 1, y as int, w as int)] & 0xf0,
                forall|k: int| 0 <= k < out_bytes@.len() ==> #[trigger] out_bytes@[k] == packed_byte(px, w, (k / rl as int) as nat, (k % rl as int) as nat),
            decreases width - x,
        {
            let p = get_pixel(image, x, y);
            let ghost j = x as int / 2;
            let ghost k = y * rl + j;
            proof {
                assert(j < rl);
                vstd::arithmetic::div_mod::lemma_fundamental_div_mod_converse(k, rl as int, y as int, j);
            }
            if !is_odd(x) {
                current_byte = p & 0xf0;
            } else {
                current_byte = current_byte | (p >> 4);
                out_bytes.push(current_byte);
                assert(out_bytes@[k] == packed_byte(px, w, (k / rl as int) as nat, (k % rl as int) as nat));
            }
            if odd_width && x == width - 1 {
                out_bytes.push(current_byte);
                assert(out_bytes@[k] == packed_byte(px, w, (k / rl as int) as nat, (k % rl as int) as nat));
            }
            x = x + 1;
        }
        assert(y * rl + rl == (y + 1) * rl) by (nonlinear_arith);
        y = y + 1;
    }
    assert(out_bytes@ =~= packed(px, w, height as nat));
    out_bytes
}

/// The image encoded as PNG without quantization.
pub fn png(image: &Raster) -> (r: Option<Vec<u8>>)
    requires
        image.wf(),
    ensures
        match r {
            Some(bytes) => png_of(image.color, image.width, image.height, image.data@) == Some(bytes@),
            None => png_of(image.color, image.width, image.height, image.data@) is None,
        },
{
    encode_png(image)
}

/// The image quantized to 3-bit grayscale with Floyd-Steinberg diffusion and
/// encoded as a single-channel PNG.
pub fn inkplate_png(image: &Raster) -> (r: Option<Vec<u8>>)
    requires
        image.wf(),
    ensures
        match r {
            Some(bytes) => png_of(ColorMode::L8, image.width, image.height, quantized_3bit(image.color, image.width, image.height, image.data@, spec_floyd_steinberg())) == Some(bytes@),
            None => png_of(ColorMode::L8, image.width, image.height, quantized_3bit(image.color, image.width, image.height, image.data@, spec_floyd_steinberg())) is None,
        },
{
    let dithered = quantize_to_3bit(image, floyd_steinberg());
    let gray = dithered.into_raster();
    encode_png(&gray)
}

/// The image quantized to 3-bit grayscale with Jarvis-Judice-Ninke diffusion
/// in the display's packed layout.
pub fn inkplate_raw(image: &Raster) -> (r: Vec<u8>)
    requires
        image.wf(),
    ensures
        r@ == packed(quantized_3bit(image.color, image.width, image.height, image.data@, spec_jarvis_judice_ninke()), image.width as nat, image.height as nat),
{
    let dithered = quantize_to_3bit(image, jarvis_judice_ninke());
    pack_nibbles(&dithered)
}

} // verus!
