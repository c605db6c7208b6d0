use vstd::prelude::*;

use crate::imaging::{luma_of, to_luma8};
use crate::raster::{ColorMode, GrayImage, Raster, lemma_pixel_index_bounds, pixel_index};

verus! {

/// A 5x5 error-diffusion kernel, indexed `[row][col]`; the pixel being
/// processed sits at the centre cell `(2, 2)`.
pub type Kernel5x5 = [[u32; 5]; 5];

/// Weight of kernel cell number `n` in row-major order (`n` in `0..25`).
pub open spec fn cell_weight(kernel: Kernel5x5, n: int) -> nat {
    kernel[n / 5][n % 5] as nat
}

/// Sum of the first `n` kernel cells in row-major order.
pub open spec fn kernel_sum_upto(kernel: Kernel5x5, n: nat) -> nat
    decreases n,
{
    if n == 0 {
        0
    } else {
        kernel_sum_upto(kernel, (n - 1) as nat) + cell_weight(kernel, n - 1)
    }
}

/// Sum of all 25 weights of a kernel.
pub open spec fn kernel_sum(kernel: Kernel5x5) -> nat {
    kernel_sum_upto(kernel, 25)
}

proof fn lemma_kernel_sum_monotonic(kernel: Kernel5x5, n: nat, m: nat)
    requires
        n <= m,
    ensures
        kernel_sum_upto(kernel, n) <= kernel_sum_upto(kernel, m),
    decreases m - n,
{
    if n < m {
        lemma_kernel_sum_monotonic(kernel, n, (m - 1) as nat);
    }
}

/// Weights of the Jarvis-Judice-Ninke kernel.
pub open spec fn jarvis_judice_ninke_weight(row: int, col: int) -> nat {
    if row == 2 && col == 3 {
        7
    } else if row == 2 && col == 4 {
        5
    } else if row == 3 && col == 0 {
        3
    } else if row == 3 && col == 1 {
        5
    } else if row == 3 && col == 2 {
        7
    } else if row == 3 && col == 3 {
        5
    } else if row == 3 && col == 4 {
        3
    } else if row == 4 && col == 0 {
        1
    } else if row == 4 && col == 1 {
        3
    } else if row == 4 && col == 2 {
        5
    } else if row == 4 && col == 3 {
        3
    } else if row == 4 && col == 4 {
        1
    } else {
        0
    }
}

/// Weights of the Floyd-Steinberg kernel.
pub open spec fn floyd_steinberg_weight(row: int, col: int) -> nat {
    if row == 2 && col == 3 {
        7
    } else if row == 3 && col == 1 {
        3
    } else if row == 3 && col == 2 {
        5
    } else if row == 3 && col == 3 {
        1
    } else {
        0
    }
}

/// Weights of the Atkinson kernel.
pub open spec fn atkinson_weight(row: int, col: int) -> nat {
    if row == 2 && col == 3 {
        1
    } else if row == 2 && col == 4 {
        1
    } else if row == 3 && col == 1 {
        1
    } else if row == 3 && col == 2 {
        1
    } else if row == 3 && col == 3 {
        1
    } else if row == 4 && col == 2 {
        1
    } else {
        0
    }
}

/// Weights of the kernel that diffuses nothing.
pub open spec fn none_weight(row: int, col: int) -> nat {
    if row == 2 && col == 2 {
        1
    } else {
        0
    }
}

/// An error-diffusion kernel together with its normalization.
#[derive(Debug, Copy, Clone)]
pub struct Dithering {
    normalization: u32,
    kernel: Kernel5x5,
}

/// The Jarvis-Judice-Ninke kernel as a value.
pub closed spec fn spec_jarvis_judice_ninke() -> Dithering {
    Dithering {
        normalization: 48,
        kernel: [
            [0, 0, 0, 0, 0],
            [0, 0, 0, 0, 0],
            [0, 0, 0, 7, 5],
            [3, 5, 7, 5, 3],
            [1, 3, 5, 3, 1],
        ],
    }
}

/// The Floyd-Steinberg kernel as a value.
pub closed spec fn spec_floyd_steinberg() -> Dithering {
    Dithering {
        normalization: 16,
        kernel: [
            [0, 0, 0, 0, 0],
            [0, 0, 0, 0, 0],
            [0, 0, 0, 7, 0],
            [0, 3, 5, 1, 0],
            [0, 0, 0, 0, 0],
        ],
    }
}

/// The Atkinson kernel as a value.
pub closed spec fn spec_atkinson() -> Dithering {
    Dithering {
        normalization: 6,
        kernel: [
            [0, 0, 0, 0, 0],
            [0, 0, 0, 0, 0],
            [0, 0, 0, 1, 1],
            [0, 1, 1, 1, 0],
            [0, 0, 1, 0, 0],
        ],
    }
}

/// The kernel that diffuses nothing, as a value.
pub closed spec fn spec_none() -> Dithering {
    Dithering {
        normalization: 1,
        kernel: [
            [0, 0, 0, 0, 0],
            [0, 0, 0, 0, 0],
            [0, 0, 1, 0, 0],
            [0, 0, 0, 0, 0],
            [0, 0, 0, 0, 0],
        ],
    }
}

impl Dithering {
    /// The normalization the error is divided by before it is spread.
    pub closed spec fn spec_normalization(&self) -> u32 {
        self.normalization
    }

    /// The weight matrix.
    pub closed spec fn spec_kernel(&self) -> Kernel5x5 {
        self.kernel
    }

    /// Weight at `(row, col)` of the 5x5 window.
    pub open spec fn weight(&self, row: int, col: int) -> nat {
        self.spec_kernel()[row][col] as nat
    }

    /// The normalization equals the sum of the weights, and is positive.
    pub open spec fn wf(&self) -> bool {
        &&& self.spec_normalization() as nat == kernel_sum(self.spec_kernel())
        &&& self.spec_normalization() > 0
    }

    /// The normalization the error is divided by before it is spread.
    pub fn normalization(&self) -> (r: u32)
        ensures
            r == self.spec_normalization(),
    {
        self.normalization
    }

    /// Weight at `(row, col)` of the 5x5 window.
    pub fn weight_at(&self, row: usize, col: usize) -> (r: u32)
        requires
            row < 5,
            col < 5,
        ensures
            r == self.weight(row as int, col as int),
    {
        self.kernel[row][col]
    }

    fn new(kernel: Kernel5x5) -> (r: Self)
        requires
            kernel_sum(kernel) <= u32::MAX,
        ensures
            r.spec_kernel() == kernel,
            r.spec_normalization() as nat == kernel_sum(kernel),
    {
        let mut normalization: u32 = 0;
        let mut row: usize = 0;
        while row < 5
            invariant
                row <= 5,
                normalization as nat == kernel_sum_upto(kernel, (row * 5) as nat),
                kernel_sum(kernel) <= u32::MAX,
            decreases 5 - row,
        {
            let mut col: usize = 0;
            while col < 5
                invariant
                    row < 5,
                    col <= 5,
                    normalization as nat == kernel_sum_upto(kernel, (row * 5 + col) as nat),
                    kernel_sum(kernel) <= u32::MAX,
                decreases 5 - col,
            {
                proof {
                    lemma_kernel_sum_monotonic(kernel, (row * 5 + col + 1) as nat, 25);
                    assert((row * 5 + col) / 5 == row as int && (row * 5 + col) % 5 == col as int);
                }
                normalization = normalization + kernel[row][col];
                col = col + 1;
            }
            row = row + 1;
        }
        Dithering { kernel, normalization }
    }

    /// Kernel of Jarvis, Judice and Ninke.
    pub fn jarvis_judice_ninke() -> (r: Self)
        ensures
            r == spec_jarvis_judice_ninke(),
            r.wf(),
            r.spec_normalization() == 48,
            kernel_sum(r.spec_kernel()) == 48,
            forall|row: int, col: int|
                0 <= row < 5 && 0 <= col < 5 ==> #[trigger] r.weight(row, col) == jarvis_judice_ninke_weight(row, col),
    {
        let k: Kernel5x5 = [
            [0, 0, 0, 0, 0],
            [0, 0, 0, 0, 0],
            [0, 0, 0, 7, 5],
            [3, 5, 7, 5, 3],
            [1, 3, 5, 3, 1],
        ];
        assert(kernel_sum(k) == 48) by {
            reveal_with_fuel(kernel_sum_upto, 26);
        }
        Dithering::new(k)
    }

    /// Kernel of Floyd and Steinberg.
    pub fn floyd_steinberg() -> (r: Self)
        ensures
            r == spec_floyd_steinberg(),
            r.wf(),
            r.spec_normalization() == 16,
            kernel_sum(r.spec_kernel()) == 16,
            forall|row: int, col: int|
                0 <= row < 5 && 0 <= col < 5 ==> #[trigger] r.weight(row, col) == floyd_steinberg_weight(row, col),
    {
        let k: Kernel5x5 = [
            [0, 0, 0, 0, 0],
            [0, 0, 0, 0, 0],
            [0, 0, 0, 7, 0],
            [0, 3, 5, 1, 0],
            [0, 0, 0, 0, 0],
        ];
        assert(kernel_sum(k) == 16) by {
            reveal_with_fuel(kernel_sum_upto, 26);
        }
        Dithering::new(k)
    }

    /// Kernel of Atkinson; like the others it is normalized by the sum of its
    /// weights, here six.
    pub fn atkinson() -> (r: Self)
        ensures
            r == spec_atkinson(),
            r.wf(),
            r.spec_normalization() == 6,
            kernel_sum(r.spec_kernel()) == 6,
            forall|row: int, col: int|
                0 <= row < 5 && 0 <= col < 5 ==> #[trigger] r.weight(row, col) == atkinson_weight(row, col),
    {
        let k: Kernel5x5 = [
            [0, 0, 0, 0, 0],
            [0, 0, 0, 0, 0],
            [0, 0, 0, 1, 1],
            [0, 1, 1, 1, 0],
            [0, 0, 1, 0, 0],
        ];
        assert(kernel_sum(k) == 6) by {
            reveal_with_fuel(kernel_sum_upto, 26);
        }
        Dithering::new(k)
    }

    /// Kernel with no diffusion: the centre cell gives each pixel its own error back.
    pub fn none() -> (r: Self)
        ensures
            r == spec_none(),
            r.wf(),
            r.spec_normalization() == 1,
            kernel_sum(r.spec_kernel()) == 1,
            forall|row: int, col: int|
                0 <= row < 5 && 0 <= col < 5 ==> #[trigger] r.weight(row, col) == none_weight(row, col),
    {
        let k: Kernel5x5 = [
            [0, 0, 0, 0, 0],
            [0, 0, 0, 0, 0],
            [0, 0, 1, 0, 0],
            [0, 0, 0, 0, 0],
            [0, 0, 0, 0, 0],
        ];
        assert(kernel_sum(k) == 1) by {
            reveal_with_fuel(kernel_sum_upto, 26);
        }
        Dithering::new(k)
    }
}

/// Same as `Dithering::jarvis_judice_ninke`.
pub fn jarvis_judice_ninke() -> (r: Dithering)
    ensures
        r == spec_jarvis_judice_ninke(),
        r.wf(),
        r.spec_normalization() == 48,
        kernel_sum(r.spec_kernel()) == 48,
        forall|row: int, col: int|
            0 <= row < 5 && 0 <= col < 5 ==> #[trigger] r.weight(row, col) == jarvis_judice_ninke_weight(row, col),
{
    Dithering::jarvis_judice_ninke()
}

/// Same as `Dithering::floyd_steinberg`.
pub fn floyd_steinberg() -> (r: Dithering)
    ensures
        r == spec_floyd_steinberg(),
        r.wf(),
        r.spec_normalization() == 16,
        kernel_sum(r.spec_kernel()) == 16,
        forall|row: int, col: int|
            0 <= row < 5 && 0 <= col < 5 ==> #[trigger] r.weight(row, col) == floyd_steinberg_weight(row, col),
{
    Dithering::floyd_steinberg()
}

/// Same as `Dithering::atkinson`.
pub fn atkinson() -> (r: Dithering)
    ensures
        r == spec_atkinson(),
        r.wf(),
        r.spec_normalization() == 6,
        kernel_sum(r.spec_kernel()) == 6,
        forall|row: int, col: int|
            0 <= row < 5 && 0 <= col < 5 ==> #[trigger] r.weight(row, col) == atkinson_weight(row, col),
{
    Dithering::atkinson()
}

/// Same as `Dithering::none`.
pub fn none() -> (r: Dithering)
    ensures
        r == spec_none(),
        r.wf(),
        r.spec_normalization() == 1,
        kernel_sum(r.spec_kernel()) == 1,
        forall|row: int, col: int|
            0 <= row < 5 && 0 <= col < 5 ==> #[trigger] r.weight(row, col) == none_weight(row, col),
{
    Dithering::none()
}


/// The quantized value of a pixel: its top three bits.
pub open spec fn quantize_3bit(p: u8) -> u8 {
    p & 0xe0
}

/// What quantization drops from a pixel: its low five bits.
pub open spec fn quantization_error(p: u8) -> u8 {
    (p - (p & 0xe0)) as u8
}

/// `value` plus its share `floor(error * weight / normalization)` of a
/// neighbour's error, clamped to 255.
pub open spec fn corrected(value: u8, error: u8, weight: nat, normalization: nat) -> u8 {
    let v = value as nat + (error as nat * weight) / normalization;
    if v > 255 {
        255
    } else {
        v as u8
    }
}

/// `px` after the first `c` cells (row-major) of the kernel window centred
/// on `(x, y)` have received their share of `error`.
pub open spec fn spread(
    px: Seq<u8>,
    width: int,
    height: int,
    d: Dithering,
    x: int,
    y: int,
    error: u8,
    c: nat,
) -> Seq<u8>
    decreases c,
{
    if c == 0 {
        px
    } else {
        let prev = spread(px, width, height, d, x, y, error, (c - 1) as nat);
        let row = (c - 1) / 5;
        let col = (c - 1) % 5;
        let tx = x + col - 2;
        let ty = y + row - 2;
        if d.weight(row, col) != 0 && 0 <= tx < width && 0 <= ty < height {
            let i = pixel_index(tx, ty, width);
            prev.update(
                i,
                corrected(prev[i], error, d.weight(row, col), d.spec_normalization() as nat),
            )
        } else {
            prev
        }
    }
}

/// `px` after pixel number `i` (row-major) is quantized and its error spread.
pub open spec fn diffuse_pixel(px: Seq<u8>, width: int, height: int, d: Dithering, i: int) -> Seq<u8> {
    let p = px[i];
    spread(
        px.update(i, quantize_3bit(p)),
        width,
        height,
        d,
        i % width,
        i / width,
        quantization_error(p),
        25,
    )
}

/// `px` after the first `n` pixels in row-major order have been processed.
pub open spec fn diffused_prefix(px: Seq<u8>, width: int, height: int, d: Dithering, n: nat) -> Seq<u8>
    decreases n,
{
    if n == 0 {
        px
    } else {
        diffuse_pixel(diffused_prefix(px, width, height, d, (n - 1) as nat), width, height, d, n - 1)
    }
}

/// A raster after error diffusion with `d` over all of its pixels.
pub open spec fn error_diffused(px: Seq<u8>, width: int, height: int, d: Dithering) -> Seq<u8> {
    diffused_prefix(px, width, height, d, (width * height) as nat)
}

/// `value` limited to `[min, max]`.
pub fn clamp(value: u64, min: u64, max: u64) -> (r: u64)
    requires
        min <= max,
    ensures
        r == if value < min {
            min
        } else if value > max {
            max
        } else {
            value
        },
{
    if value < min {
        min
    } else if value > max {
        max
    } else {
        value
    }
}

/// Whether `(x, y)` names a pixel of `image`.
fn is_inside_image(image: &GrayImage, x: i64, y: i64) -> (r: bool)
    ensures
        r == (0 <= x < image.width && 0 <= y < image.height),
{
    !(x < 0 || y < 0 || x > image.width as i64 - 1 || y > image.height as i64 - 1)
}

/// Kernel weight at offset `(dx, dy)` from the centre cell.
fn kernel_by_delta(kernel: &Kernel5x5, dx: i64, dy: i64) -> (r: u32)
    requires
        -2 <= dx <= 2,
        -2 <= dy <= 2,
    ensures
        r == kernel[dy + 2][dx + 2],
{
    let vx = (dx + 2) as usize;
    let vy = (dy + 2) as usize;
    kernel[vy][vx]
}

/// Splits a pixel into its quantized value and the quantization error.
fn quantize_pixel_3bit(pixel: u8) -> (r: (u8, u8))
    ensures
        r.0 == quantize_3bit(pixel),
        r.1 == quantization_error(pixel),
        r.1 < 32,
{
    let quantized_pixel = pixel & 0xe0;
    assert(pixel & 0xe0 <= pixel && pixel - (pixel & 0xe0) < 32) by (bit_vector);
    let quantization_error = pixel - quantized_pixel;
    (quantized_pixel, quantization_error)
}

/// The value of pixel `(x, y)`.
pub fn get_pixel(image: &GrayImage, x: u32, y: u32) -> (r: u8)
    requires
        image.wf(),
        x < image.width,
        y < image.height,
    ensures
        r == image.pixels@[pixel_index(x as int, y as int, image.width as int)],
{
    proof {
        lemma_pixel_index_bounds(x as int, y as int, image.width as int, image.height as int);
        assert(y * image.width <= pixel_index(x as int, y as int, image.width as int));
    }
    let n = image.pixels.len();
    image.pixels[y as usize * image.width as usize + x as usize]
}

/// Sets pixel `(x, y)` to `value`.
fn set_pixel(image: &mut GrayImage, x: u32, y: u32, value: u8)
    requires
        old(image).wf(),
        x < old(image).width,
        y < old(image).height,
    ensures
        final(image).wf(),
        final(image).width == old(image).width,
        final(image).height == old(image).height,
        final(image).pixels@ == old(image).pixels@.update(
            pixel_index(x as int, y as int, old(image).width as int),
            value,
        ),
{
    proof {
        lemma_pixel_index_bounds(x as int, y as int, image.width as int, image.height as int);
        assert(y * image.width <= pixel_index(x as int, y as int, image.width as int));
    }
    let n = image.pixels.len();
    let i = y as usize * image.width as usize + x as usize;
    image.pixels.set(i, value);
}

/// Quantizes every pixel to its top three bits in row-major order, spreading
/// each pixel's error over the not yet visited neighbours weighted by `dither`.
/// Later pixels see the corrections made by earlier ones.
pub fn apply_error_diffusion(image: GrayImage, dither: Dithering) -> (r: GrayImage)
    requires
        image.wf(),
        dither.wf(),
    ensures
        r.wf(),
        r.width == image.width,
        r.height == image.height,
        r.pixels@ == error_diffused(image.pixels@, image.width as int, image.height as int, dither),
{
    let ghost input = image.pixels@;
    let ghost w = image.width as int;
    let ghost h = image.height as int;
    let mut image = image;
    let mut y: u32 = 0;
    while y < image.height
        invariant
            image.wf(),
            image.width == w,
            image.height == h,
            dither.wf(),
            y <= h,
            image.pixels@ == diffused_prefix(input, w, h, dither, (y * w) as nat),
        decreases h - y,
    {
        let mut x: u32 = 0;
        while x < image.width
            invariant
                image.wf(),
                image.width == w,
                image.height == h,
                dither.wf(),
                y < h,
                x <= w,
                image.pixels@ == diffused_prefix(input, w, h, dither, (y * w + x) as nat),
            decreases w - x,
        {
            let ghost n = y * w + x;
            let ghost before = image.pixels@;
            proof {
                lemma_pixel_index_bounds(x as int, y as int, w, h);
            }
            let (quantized_pixel, quantization_error) = quantize_pixel_3bit(get_pixel(&image, x, y));
            set_pixel(&mut image, x, y, quantized_pixel);
            let ghost base = image.pixels@;
            let mut dy: i64 = -2;
            while dy <= 2
                invariant
                    image.wf(),
                    image.width == w,
                    image.height == h,
                    dither.wf(),
                    x < w,
                    y < h,
                    -2 <= dy <= 3,
                    quantization_error < 32,
                    image.pixels@ == spread(base, w, h, dither, x as int, y as int, quantization_error, ((dy + 2) * 5) as nat),
                decreases 3 - dy,
            {
                let mut dx: i64 = -2;
                while dx <= 2
                    invariant
                        image.wf(),
                        image.width == w,
                        image.height == h,
                        dither.wf(),
                        x < w,
                        y < h,
                        -2 <= dy <= 2,
                        -2 <= dx <= 3,
                        quantization_error < 32,
                        image.pixels@ == spread(base, w, h, dither, x as int, y as int, quantization_error, ((dy + 2) * 5 + dx + 2) as nat),
                    decreases 3 - dx,
                {
                    let ghost c = ((dy + 2) * 5 + dx + 2) as nat;
                    assert((c + 1 - 1) / 5 == dy + 2 && (c + 1 - 1) % 5 == dx + 2);
                    let kernel_value = kernel_by_delta(&dither.kernel, dx, dy);
                    let kx = x as i64 + dx;
                    let ky = y as i64 + dy;
                    if kernel_value != 0 && is_inside_image(&image, kx, ky) {
                        let neighbour = get_pixel(&image, kx as u32, ky as u32);
                        assert(quantization_error as u64 * kernel_value as u64 <= 32 * 0xffff_ffffu64) by (nonlinear_arith)
                            requires
                                quantization_error < 32,
                        ;
                        let correction = (quantization_error as u64 * kernel_value as u64)
                            / dither.normalization as u64;
                        let value = clamp(neighbour as u64 + correction, 0, 255);
                        set_pixel(&mut image, kx as u32, ky as u32, value as u8);
                    }
                    dx = dx + 1;
                }
                dy = dy + 1;
            }
            proof {
                assert(n % w == x && n / w == y);
                assert(image.pixels@ == diffused_prefix(input, w, h, dither, (n + 1) as nat));
            }
            x = x + 1;
        }
        assert((y + 1) * w == y * w + w) by (nonlinear_arith);
        y = y + 1;
    }
    assert(h * w == w * h) by (nonlinear_arith);
    image
}

/// The 3-bit grayscale raster of a raster under kernel `d`: its luma, error
/// diffused.
pub open spec fn quantized_3bit(color: ColorMode, width: u32, height: u32, data: Seq<u8>, d: Dithering) -> Seq<u8> {
    error_diffused(luma_of(color, width, height, data), width as int, height as int, d)
}

/// Converts `image` to 8-bit luma and reduces it to 3 bits per pixel by
/// error diffusion with `dithering`.
pub fn quantize_to_3bit(image: &Raster, dithering: Dithering) -> (r: GrayImage)
    requires
        image.wf(),
        dithering.wf(),
    ensures
        r.wf(),
        r.width == image.width,
        r.height == image.height,
        r.pixels@ == quantized_3bit(image.color, image.width, image.height, image.data@, dithering),
{
    let grayscale = to_luma8(image);
    apply_error_diffusion(grayscale, dithering)
}

/// Quantization is deterministic: rasters with equal size, layout and bytes
/// quantize to the same bytes under the same kernel.
pub proof fn lemma_quantization_deterministic(a: Raster, b: Raster, d: Dithering)
    requires
        a.color == b.color,
        a.width == b.width,
        a.height == b.height,
        a.data@ == b.data@,
    ensures
        quantized_3bit(a.color, a.width, a.height, a.data@, d) == quantized_3bit(
            b.color,
            b.width,
            b.height,
            b.data@,
            d,
        ),
{
}

} // verus!
