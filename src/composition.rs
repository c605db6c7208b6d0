use vstd::prelude::*;

use crate::comic_image::ComicImage;
use crate::imaging::{in_area, overlaid_of, png_decoded_of, resize_rgba, resized_of, overlay_rgba};
use crate::raster::{ColorMode, Raster};
use crate::layout::{
    ColumnLayout, MAX_HEIGHT, MAX_WIDTH, MINIMUM_IMAGES_IN_SPLIT, Rectangle, RowLayout,
    SingleLayout, best_fit_for_dimensions, column_areas, column_band_width, column_lengths,
    column_space, free_space, lemma_column_areas, lemma_fit_preserves_aspect, lemma_row_areas,
    lemma_single_areas, lemma_strip_offsets, placed_apart, positive_sizes, primary_area, row_areas,
    row_band_height, row_lengths, row_space, single_areas,
};

verus! {

/// Canvas width in pixels.
pub const COMPOSITION_WIDTH: u32 = MAX_WIDTH;

/// Canvas height in pixels.
pub const COMPOSITION_HEIGHT: u32 = MAX_HEIGHT;

/// Space kept between images and around the canvas border.
pub const COMPOSITION_MARGIN: u32 = 8;

/// A band left over by the primary image is filled only when it is larger
/// than this share of the canvas, in percent.
pub const COMPOSITION_SPLIT_MIN_PERCENT: u32 = 30;

/// How the images of a composition are arranged.
#[derive(Debug, Copy, Clone, PartialEq, Eq, Structural)]
pub enum Arrangement {
    /// The primary image alone, centred.
    Single,
    /// The primary on top, a row of further images below it.
    Row,
    /// The primary on the left, a column of further images to its right.
    Column,
}

/// An 8-bit RGBA colour.
#[derive(Debug, Copy, Clone, PartialEq, Eq, Structural)]
pub struct Rgba {
    pub r: u8,
    pub g: u8,
    pub b: u8,
    pub a: u8,
}

/// Background behind a row or column arrangement: opaque black.
pub open spec fn spec_split_background() -> Rgba {
    Rgba { r: 0, g: 0, b: 0, a: 255 }
}

/// Background behind a single image: opaque white.
pub open spec fn spec_single_background() -> Rgba {
    Rgba { r: 255, g: 255, b: 255, a: 255 }
}

impl Rgba {
    pub fn split_background() -> (r: Rgba)
        ensures
            r == spec_split_background(),
    {
        Rgba { r: 0, g: 0, b: 0, a: 255 }
    }

    pub fn single_background() -> (r: Rgba)
        ensures
            r == spec_single_background(),
    {
        Rgba { r: 255, g: 255, b: 255, a: 255 }
    }
}

/// Where each image of a composition goes: `areas[0]` takes the primary
/// image, `areas[i]` for `i >= 1` the first image of candidate `i`.
#[derive(Debug, Clone)]
pub struct Composition {
    pub arrangement: Arrangement,
    pub background: Rgba,
    pub areas: Vec<Rectangle>,
}

/// The least band size worth filling on an axis `total` pixels long.
pub open spec fn split_min(total: int) -> int {
    total * COMPOSITION_SPLIT_MIN_PERCENT / 100
}

/// Whether the primary spans the free width, leaving a band below it.
pub open spec fn width_filled(p: Rectangle) -> bool {
    p.w == free_space(COMPOSITION_MARGIN).w
}

/// The areas of the split that is tried for candidates of `sizes`: a row
/// below a primary that spans the width, else a column to its right, where
/// that band is large enough; empty where none is tried.
pub open spec fn split_areas(sizes: Seq<(u32, u32)>) -> Seq<Rectangle> {
    let p = primary_area(sizes[0], COMPOSITION_MARGIN);
    let rest = sizes.subrange(1, sizes.len() as int);
    if width_filled(p) {
        if row_band_height(p, COMPOSITION_MARGIN) > split_min(COMPOSITION_HEIGHT as int) {
            row_areas(sizes[0], rest, COMPOSITION_MARGIN)
        } else {
            seq![]
        }
    } else {
        if column_band_width(p, COMPOSITION_MARGIN) > split_min(COMPOSITION_WIDTH as int) {
            column_areas(sizes[0], rest, COMPOSITION_MARGIN)
        } else {
            seq![]
        }
    }
}

/// A split is used where it places the primary and at least
/// `MINIMUM_IMAGES_IN_SPLIT` further images.
pub open spec fn split_taken(sizes: Seq<(u32, u32)>) -> bool {
    split_areas(sizes).len() > MINIMUM_IMAGES_IN_SPLIT
}

pub open spec fn planned_arrangement(sizes: Seq<(u32, u32)>) -> Arrangement {
    if !split_taken(sizes) {
        Arrangement::Single
    } else if width_filled(primary_area(sizes[0], COMPOSITION_MARGIN)) {
        Arrangement::Row
    } else {
        Arrangement::Column
    }
}

pub open spec fn planned_background(sizes: Seq<(u32, u32)>) -> Rgba {
    if split_taken(sizes) {
        spec_split_background()
    } else {
        spec_single_background()
    }
}

pub open spec fn planned_areas(sizes: Seq<(u32, u32)>) -> Seq<Rectangle> {
    if split_taken(sizes) {
        split_areas(sizes)
    } else {
        single_areas(sizes[0], COMPOSITION_MARGIN)
    }
}

/// Chooses the arrangement for candidates whose first images measure
/// `sizes` (primary first) and places every image that takes part.
pub fn plan_composition(sizes: &Vec<(u32, u32)>) -> (r: Composition)
    requires
        sizes@.len() >= 1,
        positive_sizes(sizes@),
    ensures
        r.arrangement == planned_arrangement(sizes@),
        r.background == planned_background(sizes@),
        r.areas@ == planned_areas(sizes@),
        r.background == spec_single_background() <==> r.areas@.len() == 1,
        1 <= r.areas@.len() <= sizes@.len(),
{
    let free = Rectangle {
        x: COMPOSITION_MARGIN,
        y: COMPOSITION_MARGIN,
        w: COMPOSITION_WIDTH - 2 * COMPOSITION_MARGIN,
        h: COMPOSITION_HEIGHT - 2 * COMPOSITION_MARGIN,
    };
    let primary_size = sizes[0];
    assert(sizes@[0].0 > 0);
    let primary = best_fit_for_dimensions(free, primary_size.0, primary_size.1);
    proof {
        lemma_fit_preserves_aspect(free, primary_size.0, primary_size.1);
        lemma_split_count(sizes@);
    }
    let mut rest: Vec<(u32, u32)> = Vec::new();
    let mut i: usize = 1;
    while i < sizes.len()
        invariant
            1 <= i <= sizes@.len(),
            rest@ == sizes@.subrange(1, i as int),
        decreases sizes@.len() - i,
    {
        rest.push(sizes[i]);
        assert(rest@ =~= sizes@.subrange(1, i + 1));
        i = i + 1;
    }
    assert(positive_sizes(rest@));
    if primary.w == free.w {
        let band = COMPOSITION_HEIGHT as i64 - primary.y as i64 - primary.h as i64 - 2
            * COMPOSITION_MARGIN as i64;
        if band > (COMPOSITION_HEIGHT * COMPOSITION_SPLIT_MIN_PERCENT / 100) as i64 {
            let areas = RowLayout::new_with_margin(primary_size, rest, COMPOSITION_MARGIN).calculate();
            if areas.len() > MINIMUM_IMAGES_IN_SPLIT {
                return Composition {
                    arrangement: Arrangement::Row,
                    background: Rgba::split_background(),
                    areas,
                };
            }
        }
    } else {
        let band = COMPOSITION_WIDTH as i64 - primary.x as i64 - primary.w as i64 - 2
            * COMPOSITION_MARGIN as i64;
        if band > (COMPOSITION_WIDTH * COMPOSITION_SPLIT_MIN_PERCENT / 100) as i64 {
            let areas = ColumnLayout::new_with_margin(primary_size, rest, COMPOSITION_MARGIN).calculate();
            if areas.len() > MINIMUM_IMAGES_IN_SPLIT {
                return Composition {
                    arrangement: Arrangement::Column,
                    background: Rgba::split_background(),
                    areas,
                };
            }
        }
    }
    let areas = SingleLayout::new_with_margin(primary_size, COMPOSITION_MARGIN).calculate();
    Composition { arrangement: Arrangement::Single, background: Rgba::single_background(), areas }
}

proof fn lemma_split_count(sizes: Seq<(u32, u32)>)
    requires
        sizes.len() >= 1,
        positive_sizes(sizes),
    ensures
        split_areas(sizes).len() <= sizes.len(),
{
    let p = primary_area(sizes[0], COMPOSITION_MARGIN);
    let rest = sizes.subrange(1, sizes.len() as int);
    lemma_row_areas(sizes[0], rest, COMPOSITION_MARGIN);
    lemma_column_areas(sizes[0], rest, COMPOSITION_MARGIN);
    lemma_strip_offsets(
        row_lengths(rest, row_space(p, COMPOSITION_MARGIN)),
        COMPOSITION_MARGIN as nat,
        row_space(p, COMPOSITION_MARGIN).w as nat,
    );
    lemma_strip_offsets(
        column_lengths(rest, column_space(p, COMPOSITION_MARGIN)),
        COMPOSITION_MARGIN as nat,
        column_space(p, COMPOSITION_MARGIN).h as nat,
    );
}

/// Every area of a composition lies within the canvas, at least the margin
/// from its top and left edges, and no two areas overlap.
pub proof fn lemma_areas_within_canvas_and_disjoint(sizes: Seq<(u32, u32)>)
    requires
        sizes.len() >= 1,
        positive_sizes(sizes),
    ensures
        placed_apart(planned_areas(sizes), COMPOSITION_MARGIN),
        forall|i: int|
            0 <= i < planned_areas(sizes).len() ==> (#[trigger] planned_areas(sizes)[i]).within(
                COMPOSITION_WIDTH as int,
                COMPOSITION_HEIGHT as int,
            ),
        forall|i: int, j: int|
            0 <= i < j < planned_areas(sizes).len() ==> (#[trigger] planned_areas(sizes)[i]).disjoint(
                #[trigger] planned_areas(sizes)[j],
            ),
{
    let rest = sizes.subrange(1, sizes.len() as int);
    lemma_single_areas(sizes[0], COMPOSITION_MARGIN);
    lemma_row_areas(sizes[0], rest, COMPOSITION_MARGIN);
    lemma_column_areas(sizes[0], rest, COMPOSITION_MARGIN);
}

/// Within a row or column, neighbouring areas are exactly the margin apart
/// along its axis, and the band starts exactly the margin past the primary.
pub proof fn lemma_areas_margin_apart(sizes: Seq<(u32, u32)>)
    requires
        sizes.len() >= 1,
        positive_sizes(sizes),
    ensures
        planned_arrangement(sizes) == Arrangement::Row ==> {
            &&& planned_areas(sizes)[1].y == planned_areas(sizes)[0].bottom() + COMPOSITION_MARGIN
            &&& forall|i: int|
                1 <= i < planned_areas(sizes).len() - 1 ==> (#[trigger] planned_areas(sizes)[i
                    + 1]).x == planned_areas(sizes)[i].right() + COMPOSITION_MARGIN
        },
        planned_arrangement(sizes) == Arrangement::Column ==> {
            &&& planned_areas(sizes)[1].x == planned_areas(sizes)[0].right() + COMPOSITION_MARGIN
            &&& forall|i: int|
                1 <= i < planned_areas(sizes).len() - 1 ==> (#[trigger] planned_areas(sizes)[i
                    + 1]).y == planned_areas(sizes)[i].bottom() + COMPOSITION_MARGIN
        },
{
    let rest = sizes.subrange(1, sizes.len() as int);
    lemma_row_areas(sizes[0], rest, COMPOSITION_MARGIN);
    lemma_column_areas(sizes[0], rest, COMPOSITION_MARGIN);
}

/// The single-image background is used exactly when one area is drawn.
pub proof fn lemma_background_follows_count(sizes: Seq<(u32, u32)>)
    requires
        sizes.len() >= 1,
        positive_sizes(sizes),
    ensures
        planned_areas(sizes).len() == 1 ==> planned_background(sizes) == spec_single_background(),
        planned_areas(sizes).len() != 1 ==> planned_background(sizes) == spec_split_background(),
{
}

/// Byte `i % 4` of a colour in RGBA order.
pub open spec fn channel(c: Rgba, k: int) -> u8 {
    if k == 0 {
        c.r
    } else if k == 1 {
        c.g
    } else if k == 2 {
        c.b
    } else {
        c.a
    }
}

/// RGBA bytes of a `width` x `height` canvas of one colour.
pub open spec fn canvas_fill(width: nat, height: nat, c: Rgba) -> Seq<u8> {
    Seq::new(width * height * 4, |i: int| channel(c, i % 4))
}

/// An RGBA canvas of one colour.
pub fn filled_canvas(width: u32, height: u32, color: Rgba) -> (r: Raster)
    requires
        width * height * 4 <= usize::MAX,
    ensures
        r.wf(),
        r.color == ColorMode::Rgba8,
        r.width == width,
        r.height == height,
        r.data@ == canvas_fill(width as nat, height as nat, color),
{
    let n = width as usize * height as usize;
    let mut data: Vec<u8> = Vec::new();
    let mut p: usize = 0;
    while p < n
        invariant
            n == width * height,
            n * 4 <= usize::MAX,
            p <= n,
            data@ =~= canvas_fill(width as nat, height as nat, color).take(4 * p),
        decreases n - p,
    {
        data.push(color.r);
        data.push(color.g);
        data.push(color.b);
        data.push(color.a);
        assert(data@ =~= canvas_fill(width as nat, height as nat, color).take(4 * (p + 1)));
        p = p + 1;
    }
    assert(data@ =~= canvas_fill(width as nat, height as nat, color));
    Raster { width, height, color: ColorMode::Rgba8, data }
}

/// An image paired with the area of the canvas it is drawn into.
pub struct DrawingInstruction<'a> {
    pub image: &'a ComicImage,
    pub area: Rectangle,
}

impl<'a> DrawingInstruction<'a> {
    pub fn new(image: &'a ComicImage, area: Rectangle) -> (r: Self)
        ensures
            *r.image == *image,
            r.area == area,
    {
        DrawingInstruction { image, area }
    }
}

/// Pairs each area with the candidate of the same position.
pub fn drawing_instructions<'a>(candidates: &'a Vec<ComicImage>, areas: &Vec<Rectangle>) -> (r: Vec<
    DrawingInstruction<'a>,
>)
    requires
        areas@.len() <= candidates@.len(),
    ensures
        r@.len() == areas@.len(),
        forall|i: int|
            0 <= i < r@.len() ==> *(#[trigger] r@[i]).image == candidates@[i] && r@[i].area
                == areas@[i],
{
    let mut out: Vec<DrawingInstruction<'a>> = Vec::new();
    let mut i: usize = 0;
    while i < areas.len()
        invariant
            areas@.len() <= candidates@.len(),
            i <= areas@.len(),
            out@.len() == i,
            forall|k: int|
                0 <= k < i ==> *(#[trigger] out@[k]).image == candidates@[k] && out@[k].area
                    == areas@[k],
        decreases areas@.len() - i,
    {
        out.push(DrawingInstruction::new(&candidates[i], areas[i]));
        i = i + 1;
    }
    out
}

/// Sizes of the candidates' images, in order.
pub open spec fn candidate_sizes(images: Seq<ComicImage>) -> Seq<(u32, u32)> {
    Seq::new(images.len(), |i: int| (images[i].spec_width(), images[i].spec_height()))
}

/// The canvas after the first `n` images were decoded, resized to their
/// areas and blended on in order; `None` once one fails to decode or
/// decodes without pixels.
pub open spec fn drawn(canvas: Seq<u8>, images: Seq<ComicImage>, areas: Seq<Rectangle>, n: nat) -> Option<Seq<u8>>
    decreases n,
{
    if n == 0 {
        Some(canvas)
    } else {
        match drawn(canvas, images, areas, (n - 1) as nat) {
            None => None,
            Some(prev) => match png_decoded_of(images[n - 1].stored()) {
                None => None,
                Some((c, w, h, d)) => if w == 0 || h == 0 {
                    None
                } else {
                    let a = areas[n - 1];
                    Some(
                        overlaid_of(
                            COMPOSITION_WIDTH,
                            COMPOSITION_HEIGHT,
                            prev,
                            a.w,
                            a.h,
                            resized_of(c, w, h, d, a.w, a.h),
                            a.x,
                            a.y,
                        ),
                    )
                },
            },
        }
    }
}

/// The RGBA bytes of the composition of `images` (the first image of each
/// candidate, primary first), where it can be made.
pub open spec fn composed(images: Seq<ComicImage>) -> Option<Seq<u8>> {
    let sizes = candidate_sizes(images);
    if images.len() == 0 || !positive_sizes(sizes) {
        None
    } else {
        drawn(
            canvas_fill(COMPOSITION_WIDTH as nat, COMPOSITION_HEIGHT as nat, planned_background(sizes)),
            images,
            planned_areas(sizes),
            planned_areas(sizes).len(),
        )
    }
}

proof fn lemma_drawn_stays_none(canvas: Seq<u8>, images: Seq<ComicImage>, areas: Seq<Rectangle>, n: nat, m: nat)
    requires
        n <= m,
        drawn(canvas, images, areas, n) is None,
    ensures
        drawn(canvas, images, areas, m) is None,
    decreases m - n,
{
    if n < m {
        lemma_drawn_stays_none(canvas, images, areas, n, (m - 1) as nat);
    }
}

/// Composes the candidates' images onto the canvas: plans the arrangement,
/// fills the background, then resizes and blends each image onto its area,
/// primary first. `None` where there is no candidate, an image has no
/// pixels, or a stored image fails to decode.
pub fn create_composition_image(candidates: &Vec<ComicImage>) -> (r: Option<Raster>)
    ensures
        match r {
            Some(img) => {
                &&& img.wf()
                &&& img.color == ColorMode::Rgba8
                &&& img.width == COMPOSITION_WIDTH
                &&& img.height == COMPOSITION_HEIGHT
                &&& composed(candidates@) == Some(img.data@)
                &&& forall|c: int|
                    0 <= c < 4 ==> #[trigger] img.data@[c] == channel(
                        planned_background(candidate_sizes(candidates@)),
                        c,
                    )
            },
            None => composed(candidates@) is None,
        },
{
    if candidates.len() == 0 {
        return None;
    }
    let mut sizes: Vec<(u32, u32)> = Vec::new();
    let mut i: usize = 0;
    while i < candidates.len()
        invariant
            i <= candidates@.len(),
            sizes@ == candidate_sizes(candidates@).take(i as int),
            positive_sizes(sizes@),
        decreases candidates@.len() - i,
    {
        let (w, h) = candidates[i].dimensions();
        if w == 0 || h == 0 {
            assert(candidate_sizes(candidates@)[i as int] == (w, h));
            assert(!positive_sizes(candidate_sizes(candidates@)));
            return None;
        }
        sizes.push((w, h));
        assert(sizes@ =~= candidate_sizes(candidates@).take(i + 1));
        i = i + 1;
    }
    assert(sizes@ =~= candidate_sizes(candidates@));
    let plan = plan_composition(&sizes);
    let ghost areas = plan.areas@;
    let ghost start = canvas_fill(COMPOSITION_WIDTH as nat, COMPOSITION_HEIGHT as nat, plan.background);
    let mut canvas = filled_canvas(COMPOSITION_WIDTH, COMPOSITION_HEIGHT, plan.background);
    proof {
        lemma_areas_within_canvas_and_disjoint(sizes@);
    }
    let instructions = drawing_instructions(candidates, &plan.areas);
    let mut k: usize = 0;
    while k < instructions.len()
        invariant
            areas == plan.areas@,
            instructions@.len() == areas.len(),
            forall|i: int|
                0 <= i < instructions@.len() ==> *(#[trigger] instructions@[i]).image == candidates@[i]
                    && instructions@[i].area == areas[i],
            areas == planned_areas(candidate_sizes(candidates@)),
            start == canvas_fill(
                COMPOSITION_WIDTH as nat,
                COMPOSITION_HEIGHT as nat,
                planned_background(candidate_sizes(candidates@)),
            ),
            candidates@.len() > 0,
            positive_sizes(candidate_sizes(candidates@)),
            areas.len() <= candidates@.len(),
            k <= areas.len(),
            canvas.wf(),
            canvas.color == ColorMode::Rgba8,
            canvas.width == COMPOSITION_WIDTH,
            canvas.height == COMPOSITION_HEIGHT,
            drawn(start, candidates@, areas, k as nat) == Some(canvas.data@),
            forall|i: int| 0 <= i < areas.len() ==> (#[trigger] areas[i]).x >= COMPOSITION_MARGIN,
            forall|c: int|
                0 <= c < 4 ==> #[trigger] canvas.data@[c] == channel(
                    planned_background(candidate_sizes(candidates@)),
                    c,
                ),
        decreases areas.len() - k,
    {
        let instruction = &instructions[k];
        let area = instruction.area;
        match instruction.image.dynamic_image() {
            None => {
                proof {
                    lemma_drawn_stays_none(start, candidates@, areas, (k + 1) as nat, areas.len());
                }
                return None;
            },
            Some(img) => {
                if img.width == 0 || img.height == 0 {
                    proof {
                        lemma_drawn_stays_none(start, candidates@, areas, (k + 1) as nat, areas.len());
                    }
                    return None;
                }
                let resized = resize_rgba(&img, area.w, area.h);
                let ghost before = canvas.data@;
                assert(areas[k as int].x >= COMPOSITION_MARGIN);
                overlay_rgba(&mut canvas, &resized, area.x, area.y);
                assert forall|c: int| 0 <= c < 4 implies #[trigger] canvas.data@[c] == before[c] by {
                    assert(c / 4 == 0);
                    assert((c / 4) % (COMPOSITION_WIDTH as int) == 0);
                    assert((c / 4) / (COMPOSITION_WIDTH as int) == 0);
                    assert(area.x >= COMPOSITION_MARGIN);
                    assert(!in_area(0, 0, area.x as int, area.y as int, resized.width as int, resized.height as int));
                    assert(before.len() == 1200 * 825 * 4);
                    assert(c < before.len());
                }
            },
        }
        k = k + 1;
    }
    Some(canvas)
}

} // verus!
