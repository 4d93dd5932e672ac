use handtux::canvas::RgbCanvas;
use handtux::processing::painting_frame_to_image;
use handtux::raster::{Point, Segment};
use handtux::trocr_processor::ImageProcessor;

const BLACK: (u8, u8, u8) = (0, 0, 0);
const WHITE: (u8, u8, u8) = (255, 255, 255);

fn pt(x: i32, y: i32) -> Point {
    Point { x, y }
}

fn seg(x0: i32, y0: i32, x1: i32, y1: i32) -> Segment {
    [pt(x0, y0), pt(x1, y1)]
}

/// The black pixels of a canvas, row by row.
fn black_pixels(img: &RgbCanvas) -> Vec<(u32, u32)> {
    let (w, h) = img.dimensions();
    let mut out = Vec::new();
    for y in 0..h {
        for x in 0..w {
            let c = img.pixel(x, y).unwrap();
            if c == BLACK {
                out.push((x, y));
            } else {
                assert_eq!(c, WHITE, "pixel ({}, {}) is neither black nor white", x, y);
            }
        }
    }
    out
}

/// The pixels covered by two-by-two dots at the given line pixels.
fn dots(points: &[(u32, u32)], w: u32, h: u32) -> Vec<(u32, u32)> {
    let mut out = Vec::new();
    for y in 0..h {
        for x in 0..w {
            if points.iter().any(|&(px, py)| (x == px || x == px + 1) && (y == py || y == py + 1)) {
                out.push((x, y));
            }
        }
    }
    out
}

#[test]
fn empty_frame_gives_white_page() {
    let img = painting_frame_to_image(&vec![], 7, 5);
    assert_eq!(img.dimensions(), (7, 5));
    assert!(black_pixels(&img).is_empty());
    assert_eq!(img.pixel(6, 4), Some(WHITE));
    assert_eq!(img.pixel(7, 4), None);
    assert_eq!(img.pixel(6, 5), None);
}

#[test]
fn horizontal_segment_draws_a_band_two_pixels_high() {
    let img = painting_frame_to_image(&vec![seg(1, 1, 5, 1)], 10, 10);
    let pts = [(1, 1), (2, 1), (3, 1), (4, 1), (5, 1)];
    assert_eq!(black_pixels(&img), dots(&pts, 10, 10));
}

#[test]
fn shallow_segment_follows_the_line_walk() {
    // (0,0) -> (4,2): the walk goes (0,0) (1,1) (2,1) (3,2) (4,2)
    let img = painting_frame_to_image(&vec![seg(0, 0, 4, 2)], 10, 10);
    let pts = [(0, 0), (1, 1), (2, 1), (3, 2), (4, 2)];
    assert_eq!(black_pixels(&img), dots(&pts, 10, 10));
}

#[test]
fn reversed_steep_segment_follows_the_line_walk() {
    // (2,6) -> (1,1): a = 1, b = 5, error starts at -4
    // (2,6) (2,5) (2,4) (1,3) (1,2) (1,1)
    let img = painting_frame_to_image(&vec![seg(2, 6, 1, 1)], 10, 10);
    let pts = [(2, 6), (2, 5), (2, 4), (1, 3), (1, 2), (1, 1)];
    assert_eq!(black_pixels(&img), dots(&pts, 10, 10));
}

#[test]
fn single_point_segment_draws_one_dot() {
    let img = painting_frame_to_image(&vec![seg(3, 4, 3, 4)], 8, 8);
    assert_eq!(black_pixels(&img), vec![(3, 4), (4, 4), (3, 5), (4, 5)]);
}

#[test]
fn pixels_off_the_page_are_skipped() {
    // (-2,1) -> (2,1): only (0,1), (1,1), (2,1) lie on the page
    let img = painting_frame_to_image(&vec![seg(-2, 1, 2, 1)], 6, 6);
    assert_eq!(black_pixels(&img), dots(&[(0, 1), (1, 1), (2, 1)], 6, 6));
}

#[test]
fn segments_add_up_in_any_order() {
    let a = painting_frame_to_image(&vec![seg(0, 0, 3, 0), seg(1, 4, 1, 2)], 8, 8);
    let b = painting_frame_to_image(&vec![seg(1, 4, 1, 2), seg(0, 0, 3, 0)], 8, 8);
    let expected = dots(&[(0, 0), (1, 0), (2, 0), (3, 0), (1, 4), (1, 3), (1, 2)], 8, 8);
    assert_eq!(black_pixels(&a), expected);
    assert_eq!(black_pixels(&b), expected);
}

/// The pixels covered by two-by-two dots at the given line pixels, cut off
/// at the page's edges (`dots` already keeps to the page).
#[test]
fn dots_are_cut_off_at_the_last_row_and_column() {
    let img = painting_frame_to_image(&vec![seg(0, 9, 9, 9)], 10, 10);
    let row: Vec<(u32, u32)> = (0..10).map(|x| (x, 9)).collect();
    assert_eq!(black_pixels(&img), row);
    let corner = painting_frame_to_image(&vec![seg(9, 9, 9, 9)], 10, 10);
    assert_eq!(black_pixels(&corner), vec![(9, 9)]);
    let right = painting_frame_to_image(&vec![seg(9, 2, 9, 4)], 10, 10);
    assert_eq!(black_pixels(&right), vec![(9, 2), (9, 3), (9, 4), (9, 5)]);
}

#[test]
fn ink_at_the_page_corner_of_the_processor_is_drawn() {
    let p = ImageProcessor::new();
    let img = p.painting_frame_to_image(&vec![seg(383, 383, 383, 383)]);
    assert_eq!(black_pixels(&img), vec![(383, 383)]);
}

#[test]
fn samples_are_laid_out_row_by_row_in_rgb_order() {
    let img = painting_frame_to_image(&vec![seg(1, 0, 1, 0)], 3, 2);
    // black at (1,0), (2,0), (1,1), (2,1); white at (0,0) and (0,1)
    let w = 255u8;
    assert_eq!(
        img.samples(),
        vec![w, w, w, 0, 0, 0, 0, 0, 0, w, w, w, 0, 0, 0, 0, 0, 0]
    );
    let empty = painting_frame_to_image(&vec![], 0, 4);
    assert!(empty.samples().is_empty());
}

#[test]
fn image_processor_renders_at_384_square() {
    let p = ImageProcessor::new();
    assert_eq!(p.width(), 384);
    assert_eq!(p.height(), 384);
    let img = p.painting_frame_to_image(&vec![seg(10, 10, 20, 10)]);
    assert_eq!(img.dimensions(), (384, 384));
    assert_eq!(img.pixel(15, 11), Some(BLACK));
    assert_eq!(img.pixel(15, 12), Some(WHITE));
    assert_eq!(img.pixel(383, 383), Some(WHITE));
}

#[test]
fn processor_and_free_function_agree() {
    let frame = vec![seg(3, 100, 250, 40), seg(250, 40, 251, 300)];
    let p = ImageProcessor::new();
    let a = p.painting_frame_to_image(&frame);
    let b = painting_frame_to_image(&frame, 384, 384);
    assert_eq!(black_pixels(&a), black_pixels(&b));
    assert!(!black_pixels(&a).is_empty());
}
