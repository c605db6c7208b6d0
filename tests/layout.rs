use inkplate_comics::layout::{
    best_fit_for_dimensions, best_fit_for_height, best_fit_for_width, fill_column, fill_row,
    place_in_strip, ColumnLayout, Layout, Rectangle, RowLayout, SingleLayout,
};

fn rect(x: u32, y: u32, w: u32, h: u32) -> Rectangle {
    Rectangle { x, y, w, h }
}

#[test]
fn fit_binds_width_for_wide_sources() {
    let r = best_fit_for_dimensions(rect(8, 8, 1184, 809), 1184, 412);
    assert_eq!(r, rect(8, 8, 1184, 412));
    let r = best_fit_for_dimensions(rect(0, 0, 100, 100), 3, 2);
    assert_eq!(r, rect(0, 0, 100, 66));
}

#[test]
fn fit_binds_height_for_tall_sources() {
    let r = best_fit_for_dimensions(rect(8, 8, 1184, 809), 400, 800);
    assert_eq!(r, rect(8, 8, 404, 809));
    let r = best_fit_for_dimensions(rect(0, 0, 100, 100), 2, 3);
    assert_eq!(r, rect(0, 0, 66, 100));
}

#[test]
fn fit_keeps_aspect_within_a_pixel() {
    for (sw, sh) in [(1u32, 1u32), (7, 3), (3, 7), (1000, 999), (17, 1)] {
        let r = best_fit_for_dimensions(rect(0, 0, 500, 300), sw, sh);
        assert!(r.w <= 500 && r.h <= 300);
        let (w, h) = (r.w as u64, r.h as u64);
        let (sw, sh) = (sw as u64, sh as u64);
        if w == 500 {
            assert!(h * sw <= w * sh && w * sh < (h + 1) * sw);
        } else {
            assert_eq!(h, 300);
            assert!(w * sh <= h * sw && h * sw < (w + 1) * sh);
        }
    }
}

#[test]
fn fit_to_one_side() {
    assert_eq!(best_fit_for_height(rect(5, 6, 10, 100), 3, 2), rect(5, 6, 150, 100));
    assert_eq!(best_fit_for_width(rect(5, 6, 100, 10), 3, 2), rect(5, 6, 100, 66));
    assert_eq!(best_fit_for_height(rect(0, 0, 1, u32::MAX), u32::MAX, 1).w, u32::MAX);
}

#[test]
fn strip_centres_the_items_that_fit() {
    assert_eq!(place_in_strip(&vec![400, 400], 1184, 8), vec![188, 596]);
    assert_eq!(place_in_strip(&vec![10, 10, 100, 10], 40, 5), vec![8, 23]);
    assert_eq!(place_in_strip(&vec![10, 10], 30, 5), vec![3, 18]);
}

#[test]
fn strip_keeps_every_leading_item_that_fits() {
    assert_eq!(place_in_strip(&vec![400], 1184, 8), vec![392]);
    assert_eq!(place_in_strip(&vec![], 1184, 8), Vec::<u32>::new());
    assert_eq!(place_in_strip(&vec![2000, 10, 10], 1184, 8), Vec::<u32>::new());
}

#[test]
fn fill_needs_two_images() {
    assert!(fill_row(&vec![(100, 100)], rect(8, 416, 1184, 401), 8).is_empty());
    assert!(fill_column(&vec![(100, 100)], rect(416, 8, 776, 809), 8).is_empty());
}

#[test]
fn row_layout_keeps_a_lone_fitting_secondary() {
    let layout = RowLayout::new_with_margin((1184, 400), vec![(100, 100)], 8);
    assert_eq!(layout.calculate(), vec![rect(8, 8, 1184, 400), rect(400, 416, 401, 401)]);
}

#[test]
fn column_layout_keeps_a_lone_fitting_secondary() {
    let layout = ColumnLayout::new_with_margin((400, 809), vec![(100, 100)], 8);
    assert_eq!(layout.calculate(), vec![rect(8, 8, 400, 809), rect(416, 25, 776, 776)]);
}

#[test]
fn row_is_margin_separated_and_centred() {
    let rects = fill_row(&vec![(400, 389), (400, 389)], rect(8, 428, 1184, 389), 8);
    assert_eq!(rects, vec![rect(196, 428, 400, 389), rect(604, 428, 400, 389)]);
}

#[test]
fn row_stops_at_first_misfit() {
    let rects = fill_row(&vec![(100, 100), (100, 100), (1000, 100), (100, 100)], rect(0, 0, 250, 100), 10);
    assert_eq!(rects, vec![rect(20, 0, 100, 100), rect(130, 0, 100, 100)]);
    let rects = fill_row(&vec![(100, 100), (1000, 100), (100, 100)], rect(0, 0, 250, 100), 10);
    assert!(rects.is_empty());
}

#[test]
fn column_is_margin_separated_and_centred() {
    let rects = fill_column(&vec![(200, 100), (400, 100)], rect(600, 8, 400, 809), 8);
    assert_eq!(rects, vec![rect(600, 259, 400, 200), rect(600, 467, 400, 100)]);
}

#[test]
fn single_layout_is_centred() {
    assert_eq!(SingleLayout::new((1184, 412)).calculate(), vec![rect(0, 204, 1200, 417)]);
    let layout = Layout::from(SingleLayout::new_with_margin((1184, 412), 8));
    assert_eq!(layout.calculate(), vec![rect(8, 207, 1184, 412)]);
}

#[test]
fn row_layout_places_secondaries_below() {
    let layout = Layout::from(RowLayout::new_with_margin((1184, 412), vec![(400, 389), (400, 389)], 8));
    assert_eq!(
        layout.calculate(),
        vec![rect(8, 8, 1184, 412), rect(196, 428, 400, 389), rect(604, 428, 400, 389)]
    );
}

#[test]
fn row_layout_without_room_centres_the_primary() {
    let layout = RowLayout::new((1, 1), vec![(1, 1), (1, 1)]);
    assert_eq!(layout.calculate(), vec![rect(188, 0, 825, 825)]);
}

#[test]
fn column_layout_places_secondaries_right() {
    let layout = Layout::from(ColumnLayout::new_with_margin((400, 809), vec![(200, 100), (400, 100)], 8));
    assert_eq!(
        layout.calculate(),
        vec![rect(8, 8, 400, 809), rect(416, 118, 776, 388), rect(416, 514, 776, 194)]
    );
    let plain = ColumnLayout::new((400, 809), vec![(200, 100)]);
    assert_eq!(plain.calculate(), vec![rect(0, 0, 407, 825), rect(407, 215, 793, 396)]);
}
