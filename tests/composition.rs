use inkplate_comics::comic_image::ComicImage;
use inkplate_comics::composition::{
    create_composition_image, drawing_instructions, filled_canvas, plan_composition, Arrangement,
    DrawingInstruction, Rgba, COMPOSITION_HEIGHT, COMPOSITION_WIDTH,
};
use inkplate_comics::layout::Rectangle;
use inkplate_comics::raster::{ColorMode, Raster};

fn rect(x: u32, y: u32, w: u32, h: u32) -> Rectangle {
    Rectangle { x, y, w, h }
}

fn solid(width: u32, height: u32, rgba: [u8; 4]) -> ComicImage {
    let mut data = Vec::new();
    for _ in 0..width * height {
        data.extend_from_slice(&rgba);
    }
    let raster = Raster { width, height, color: ColorMode::Rgba8, data };
    ComicImage::from(&raster).expect("encodes")
}

fn pixel(img: &Raster, x: u32, y: u32) -> [u8; 4] {
    let i = ((y * img.width + x) * 4) as usize;
    [img.data[i], img.data[i + 1], img.data[i + 2], img.data[i + 3]]
}

#[test]
fn half_height_primary_with_two_candidates_makes_a_row() {
    let plan = plan_composition(&vec![(1184, 412), (400, 389), (400, 389)]);
    assert_eq!(plan.arrangement, Arrangement::Row);
    assert_eq!(plan.areas.len(), 3);
    assert_eq!(
        plan.areas,
        vec![rect(8, 8, 1184, 412), rect(196, 428, 400, 389), rect(604, 428, 400, 389)]
    );
    assert_eq!(plan.background, Rgba::split_background());
}

#[test]
fn lone_primary_is_centred() {
    let plan = plan_composition(&vec![(1184, 412)]);
    assert_eq!(plan.arrangement, Arrangement::Single);
    assert_eq!(plan.areas, vec![rect(8, 207, 1184, 412)]);
    assert_eq!(plan.background, Rgba::single_background());
}

#[test]
fn row_with_one_fitting_candidate_falls_back_to_single() {
    let plan = plan_composition(&vec![(1184, 412), (1000, 389), (1000, 389)]);
    assert_eq!(plan.arrangement, Arrangement::Single);
    assert_eq!(plan.areas.len(), 1);
    assert_eq!(plan.background, Rgba::single_background());
}

#[test]
fn small_band_is_not_split() {
    let plan = plan_composition(&vec![(1184, 700), (100, 100), (100, 100)]);
    assert_eq!(plan.arrangement, Arrangement::Single);
    assert_eq!(plan.areas, vec![rect(8, 63, 1184, 700)]);
}

#[test]
fn tall_primary_makes_a_column() {
    let plan = plan_composition(&vec![(400, 809), (200, 100), (400, 100)]);
    assert_eq!(plan.arrangement, Arrangement::Column);
    assert_eq!(plan.areas[0], rect(8, 8, 400, 809));
    assert_eq!(plan.areas[1], rect(416, 118, 776, 388));
    assert_eq!(plan.areas[2], rect(416, 514, 776, 194));
    assert_eq!(plan.background, Rgba::split_background());
}

#[test]
fn split_areas_do_not_overlap_and_stay_inside() {
    let plan = plan_composition(&vec![(1184, 300), (300, 400), (200, 400), (250, 400), (900, 100)]);
    assert_eq!(plan.arrangement, Arrangement::Row);
    let areas = &plan.areas;
    for a in areas {
        assert!(a.x + a.w <= COMPOSITION_WIDTH && a.y + a.h <= COMPOSITION_HEIGHT);
    }
    for i in 0..areas.len() {
        for j in i + 1..areas.len() {
            let (a, b) = (areas[i], areas[j]);
            assert!(a.x + a.w <= b.x || b.x + b.w <= a.x || a.y + a.h <= b.y || b.y + b.h <= a.y);
        }
    }
    for i in 1..areas.len() - 1 {
        assert_eq!(areas[i + 1].x, areas[i].x + areas[i].w + 8);
    }
    assert_eq!(areas[1].y, areas[0].y + areas[0].h + 8);
}

#[test]
fn canvas_is_filled_with_one_colour() {
    let c = filled_canvas(3, 2, Rgba { r: 1, g: 2, b: 3, a: 4 });
    assert_eq!((c.width, c.height, c.color), (3, 2, ColorMode::Rgba8));
    assert_eq!(c.data, [1, 2, 3, 4].repeat(6));
}

#[test]
fn single_composition_has_the_single_background() {
    let candidates = vec![solid(2, 1, [255, 0, 0, 255])];
    let img = create_composition_image(&candidates).expect("composes");
    assert_eq!((img.width, img.height), (1200, 825));
    assert_eq!(img.data.len(), 1200 * 825 * 4);
    assert_eq!(pixel(&img, 0, 0), [255, 255, 255, 255]);
    let centre = pixel(&img, 600, 412);
    assert!(centre[0] > 200 && centre[1] < 50 && centre[2] < 50);
}

#[test]
fn split_composition_has_the_split_background() {
    let candidates = vec![
        solid(3, 1, [0, 0, 255, 255]),
        solid(1, 1, [0, 255, 0, 255]),
        solid(1, 1, [0, 255, 0, 255]),
    ];
    let plan = plan_composition(&vec![(3, 1), (1, 1), (1, 1)]);
    assert_eq!(plan.arrangement, Arrangement::Row);
    let img = create_composition_image(&candidates).expect("composes");
    assert_eq!(pixel(&img, 0, 0), [0, 0, 0, 255]);
    let primary = pixel(&img, 600, 100);
    assert!(primary[2] > 200 && primary[0] < 50);
}

#[test]
fn empty_candidates_give_nothing() {
    assert!(create_composition_image(&vec![]).is_none());
}

#[test]
fn instructions_pair_areas_with_candidates() {
    let candidates = vec![solid(2, 1, [1, 2, 3, 255]), solid(1, 3, [4, 5, 6, 255])];
    let areas = vec![rect(0, 0, 4, 2)];
    let instructions = drawing_instructions(&candidates, &areas);
    assert_eq!(instructions.len(), 1);
    assert_eq!(instructions[0].area, rect(0, 0, 4, 2));
    assert_eq!(instructions[0].image.dimensions(), (2, 1));
    let single = DrawingInstruction::new(&candidates[1], rect(1, 1, 1, 3));
    assert_eq!(single.image.dimensions(), (1, 3));
    assert_eq!(single.area, rect(1, 1, 1, 3));
}
