use adaptive_fractal::canvas::Canvas;
use adaptive_fractal::color::Color;
use adaptive_fractal::geometry::PixelBox;
use adaptive_fractal::sampler::{render_point, sample_border, sample_pixel};
use std::cell::Cell;

fn shade(count: u32, _max_iter: u32) -> Color {
    Color::new(count as u8, 0, 0, 255)
}

fn slope(x: u32, y: u32, _max_iter: u32) -> u32 {
    10 + x + 2 * y
}

#[test]
fn pixel_box_knows_its_border() {
    let b = PixelBox::new(1, 1, 4);
    let mut border = 0;
    for y in 0..6 {
        for x in 0..6 {
            let expected = (1..=4).contains(&x) && (1..=4).contains(&y)
                && (x == 1 || x == 4 || y == 1 || y == 4);
            assert_eq!(b.is_border(x, y), expected);
            if expected {
                border += 1;
            }
        }
    }
    assert_eq!(border, 12);
}

#[test]
fn render_point_stores_the_colour_of_the_count() {
    let mut canvas = Canvas::new(4, 4);
    let count = render_point(&mut canvas, 3, 2, 100, &slope, &shade);
    assert_eq!(count, 17);
    assert_eq!(canvas.get_pixel(3, 2), Color::new(17, 0, 0, 255));
    assert_eq!(canvas.get_pixel(2, 3), Color::new(0, 0, 0, 0));
}

#[test]
fn render_point_hands_the_cap_to_both_collaborators() {
    let mut canvas = Canvas::new(2, 2);
    let kernel = |_x: u32, _y: u32, max_iter: u32| max_iter / 2;
    let colorize = |count: u32, max_iter: u32| Color::new(count as u8, max_iter as u8, 0, 255);
    let count = render_point(&mut canvas, 1, 1, 80, &kernel, &colorize);
    assert_eq!(count, 40);
    assert_eq!(canvas.get_pixel(1, 1), Color::new(40, 80, 0, 255));
}

#[test]
fn sample_pixel_evaluates_an_unset_pixel() {
    let mut canvas = Canvas::new(4, 4);
    let r = sample_pixel(&mut canvas, 1, 2, 100, &slope, &shade);
    assert_eq!(r, (15, false));
    assert_eq!(canvas.get_pixel(1, 2), Color::new(15, 0, 0, 255));
}

#[test]
fn sample_pixel_leaves_a_settled_pixel() {
    let mut canvas = Canvas::new(4, 4);
    canvas.put_pixel(1, 2, Color::new(7, 7, 7, 200));
    let calls = Cell::new(0u32);
    let kernel = |x: u32, y: u32, m: u32| {
        calls.set(calls.get() + 1);
        slope(x, y, m)
    };
    let r = sample_pixel(&mut canvas, 1, 2, 100, &kernel, &shade);
    assert_eq!(r, (0, true));
    assert_eq!(calls.get(), 0);
    assert_eq!(canvas.get_pixel(1, 2), Color::new(7, 7, 7, 200));
}

#[test]
fn sample_pixel_evaluates_a_white_marker() {
    let mut canvas = Canvas::new(4, 4);
    canvas.put_pixel(1, 2, Color::white());
    let r = sample_pixel(&mut canvas, 1, 2, 100, &slope, &shade);
    assert_eq!(r, (15, false));
    assert_eq!(canvas.get_pixel(1, 2), Color::new(15, 0, 0, 255));
}

#[test]
fn sample_border_writes_the_border_and_nothing_else() {
    let mut canvas = Canvas::new(6, 6);
    let calls = Cell::new(0u32);
    let kernel = |x: u32, y: u32, m: u32| {
        calls.set(calls.get() + 1);
        slope(x, y, m)
    };
    let b = PixelBox::new(1, 1, 4);
    let (least, memo) = sample_border(&mut canvas, b, 100, &kernel, &shade);
    assert_eq!(least, 13);
    assert!(!memo);
    assert_eq!(calls.get(), 12);
    for y in 0..6 {
        for x in 0..6 {
            let expected = if b.is_border(x, y) {
                Color::new((10 + x + 2 * y) as u8, 0, 0, 255)
            } else {
                Color::new(0, 0, 0, 0)
            };
            assert_eq!(canvas.get_pixel(x, y), expected, "at ({x}, {y})");
        }
    }
}

#[test]
fn border_is_computed_before_interior_is_touched() {
    let mut canvas = Canvas::new(8, 8);
    let b = PixelBox::new(0, 0, 8);
    sample_border(&mut canvas, b, 100, &slope, &shade);
    for y in 0..8 {
        for x in 0..8 {
            assert_eq!(canvas.get_pixel(x, y).computed(), b.is_border(x, y));
        }
    }
}

#[test]
fn sample_border_finds_the_minimum_anywhere_on_the_border() {
    // the least count sits in the bottom row, away from the corners
    let kernel = |x: u32, y: u32, _m: u32| if (x, y) == (3, 5) { 4 } else { 60 };
    let mut canvas = Canvas::new(6, 6);
    let (least, memo) = sample_border(&mut canvas, PixelBox::new(0, 0, 6), 100, &kernel, &shade);
    assert_eq!((least, memo), (4, false));
    // a low count in the interior is not seen
    let kernel = |x: u32, y: u32, _m: u32| if (x, y) == (3, 3) { 4 } else { 60 };
    let mut canvas = Canvas::new(6, 6);
    let (least, memo) = sample_border(&mut canvas, PixelBox::new(0, 0, 6), 100, &kernel, &shade);
    assert_eq!((least, memo), (60, false));
    // nor is one on the right edge passed over
    let kernel = |x: u32, y: u32, _m: u32| if (x, y) == (5, 2) { 9 } else { 60 };
    let mut canvas = Canvas::new(6, 6);
    let (least, memo) = sample_border(&mut canvas, PixelBox::new(0, 0, 6), 100, &kernel, &shade);
    assert_eq!((least, memo), (9, false));
}

#[test]
fn settled_border_pixel_counts_as_zero() {
    let mut canvas = Canvas::new(6, 6);
    canvas.put_pixel(4, 2, Color::new(9, 9, 9, 255));
    let calls = Cell::new(0u32);
    let kernel = |x: u32, y: u32, m: u32| {
        calls.set(calls.get() + 1);
        slope(x, y, m)
    };
    let (least, memo) = sample_border(&mut canvas, PixelBox::new(1, 1, 4), 100, &kernel, &shade);
    assert_eq!(least, 0);
    assert!(memo);
    assert_eq!(calls.get(), 11);
    assert_eq!(canvas.get_pixel(4, 2), Color::new(9, 9, 9, 255));
    assert_eq!(canvas.get_pixel(1, 1), Color::new(13, 0, 0, 255));
}

#[test]
fn settled_interior_pixel_is_not_seen_by_the_sampler() {
    let mut canvas = Canvas::new(6, 6);
    canvas.put_pixel(2, 2, Color::new(9, 9, 9, 255));
    let (least, memo) = sample_border(&mut canvas, PixelBox::new(1, 1, 4), 100, &slope, &shade);
    assert_eq!((least, memo), (13, false));
    assert_eq!(canvas.get_pixel(2, 2), Color::new(9, 9, 9, 255));
}

#[test]
fn white_marker_on_the_border_is_evaluated_again() {
    let mut canvas = Canvas::new(6, 6);
    canvas.put_pixel(1, 2, Color::white());
    let calls = Cell::new(0u32);
    let kernel = |x: u32, y: u32, m: u32| {
        calls.set(calls.get() + 1);
        slope(x, y, m)
    };
    let (least, memo) = sample_border(&mut canvas, PixelBox::new(1, 1, 4), 100, &kernel, &shade);
    assert_eq!((least, memo), (13, false));
    assert_eq!(calls.get(), 12);
    assert_eq!(canvas.get_pixel(1, 2), Color::new(15, 0, 0, 255));
}

#[test]
fn smallest_box_is_all_border() {
    let mut canvas = Canvas::new(3, 3);
    let (least, memo) = sample_border(&mut canvas, PixelBox::new(1, 1, 2), 100, &slope, &shade);
    assert_eq!((least, memo), (13, false));
    for (x, y) in [(1, 1), (2, 1), (1, 2), (2, 2)] {
        assert_eq!(canvas.get_pixel(x, y), Color::new((10 + x + 2 * y) as u8, 0, 0, 255));
    }
    assert_eq!(canvas.get_pixel(0, 0), Color::new(0, 0, 0, 0));
}

#[test]
fn sampling_twice_changes_nothing() {
    let mut canvas = Canvas::new(6, 6);
    let b = PixelBox::new(1, 1, 4);
    sample_border(&mut canvas, b, 100, &slope, &shade);
    let mut before = Vec::new();
    for y in 0..6 {
        for x in 0..6 {
            before.push(canvas.get_pixel(x, y));
        }
    }
    let calls = Cell::new(0u32);
    let kernel = |x: u32, y: u32, m: u32| {
        calls.set(calls.get() + 1);
        slope(x, y, m)
    };
    let (least, memo) = sample_border(&mut canvas, b, 100, &kernel, &shade);
    assert_eq!((least, memo), (0, true));
    assert_eq!(calls.get(), 0);
    let mut after = Vec::new();
    for y in 0..6 {
        for x in 0..6 {
            after.push(canvas.get_pixel(x, y));
        }
    }
    assert_eq!(before, after);
}

#[test]
fn overlapping_borders_keep_their_colours() {
    // two boxes that share the column x == 3
    let mut canvas = Canvas::new(7, 4);
    let first = PixelBox::new(0, 0, 4);
    let second = PixelBox::new(3, 0, 4);
    sample_border(&mut canvas, first, 100, &slope, &shade);
    let shared: Vec<Color> = (0..4).map(|y| canvas.get_pixel(3, y)).collect();
    let (least, memo) = sample_border(&mut canvas, second, 100, &slope, &shade);
    assert_eq!((least, memo), (0, true));
    for y in 0..4 {
        assert_eq!(canvas.get_pixel(3, y), shared[y as usize]);
        assert_eq!(canvas.get_pixel(3, y), Color::new((13 + 2 * y) as u8, 0, 0, 255));
    }
    assert_eq!(canvas.get_pixel(6, 3), Color::new(22, 0, 0, 255));
}

#[test]
fn overlapping_white_borders_are_rewritten_with_the_same_colour() {
    let white = |_count: u32, _max_iter: u32| Color::white();
    let mut canvas = Canvas::new(7, 4);
    sample_border(&mut canvas, PixelBox::new(0, 0, 4), 100, &slope, &white);
    let calls = Cell::new(0u32);
    let kernel = |x: u32, y: u32, m: u32| {
        calls.set(calls.get() + 1);
        slope(x, y, m)
    };
    let (least, memo) = sample_border(&mut canvas, PixelBox::new(3, 0, 4), 100, &kernel, &white);
    assert_eq!((least, memo), (13, false));
    assert_eq!(calls.get(), 12);
    for y in 0..4 {
        assert_eq!(canvas.get_pixel(3, y), Color::white());
    }
}
