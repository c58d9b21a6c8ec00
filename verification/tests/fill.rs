use adaptive_fractal::canvas::Canvas;
use adaptive_fractal::color::Color;
use adaptive_fractal::fill::{draw_square, evaluate_interior, flood_interior};
use adaptive_fractal::geometry::PixelBox;
use std::cell::Cell;

fn shade(count: u32, _max_iter: u32) -> Color {
    Color::new(count as u8, 0, 0, 255)
}

#[test]
fn draw_square_fills_exactly_the_rectangle() {
    let mut canvas = Canvas::new(6, 5);
    let blue = Color::new(0, 0, 255, 255);
    draw_square(&mut canvas, 1, 2, 3, 2, blue);
    for y in 0..5 {
        for x in 0..6 {
            let inside = (1..4).contains(&x) && (2..4).contains(&y);
            let expected = if inside { blue } else { Color::new(0, 0, 0, 0) };
            assert_eq!(canvas.get_pixel(x, y), expected, "at ({x}, {y})");
        }
    }
}

#[test]
fn draw_square_overwrites_what_was_there() {
    let mut canvas = Canvas::new(3, 3);
    canvas.put_pixel(1, 1, Color::new(1, 2, 3, 4));
    draw_square(&mut canvas, 0, 0, 3, 3, Color::new(8, 8, 8, 8));
    assert_eq!(canvas.get_pixel(1, 1), Color::new(8, 8, 8, 8));
    assert_eq!(canvas.get_pixel(2, 2), Color::new(8, 8, 8, 8));
}

#[test]
fn draw_square_of_no_extent_writes_nothing() {
    let mut canvas = Canvas::new(3, 3);
    draw_square(&mut canvas, 1, 1, 0, 2, Color::new(8, 8, 8, 8));
    draw_square(&mut canvas, 1, 1, 2, 0, Color::new(8, 8, 8, 8));
    draw_square(&mut canvas, 3, 3, 0, 0, Color::new(8, 8, 8, 8));
    for y in 0..3 {
        for x in 0..3 {
            assert_eq!(canvas.get_pixel(x, y), Color::new(0, 0, 0, 0));
        }
    }
}

#[test]
fn flood_interior_spares_the_border() {
    let mut canvas = Canvas::new(6, 6);
    let b = PixelBox::new(1, 1, 4);
    let green = Color::new(0, 255, 0, 255);
    flood_interior(&mut canvas, b, green);
    for y in 0..6 {
        for x in 0..6 {
            let interior = (2..4).contains(&x) && (2..4).contains(&y);
            let expected = if interior { green } else { Color::new(0, 0, 0, 0) };
            assert_eq!(canvas.get_pixel(x, y), expected, "at ({x}, {y})");
        }
    }
}

#[test]
fn flood_interior_of_the_smallest_box_writes_nothing() {
    let mut canvas = Canvas::new(2, 2);
    flood_interior(&mut canvas, PixelBox::new(0, 0, 2), Color::new(1, 1, 1, 1));
    for (x, y) in [(0, 0), (1, 0), (0, 1), (1, 1)] {
        assert_eq!(canvas.get_pixel(x, y), Color::new(0, 0, 0, 0));
    }
}

#[test]
fn evaluate_interior_evaluates_every_interior_pixel() {
    let mut canvas = Canvas::new(5, 5);
    // a settled interior pixel is evaluated all the same
    canvas.put_pixel(2, 2, Color::new(77, 77, 77, 255));
    // a border pixel is left alone
    canvas.put_pixel(0, 3, Color::new(66, 66, 66, 255));
    let calls = Cell::new(0u32);
    let kernel = |x: u32, y: u32, _m: u32| {
        calls.set(calls.get() + 1);
        x * 10 + y
    };
    evaluate_interior(&mut canvas, PixelBox::new(0, 0, 5), 100, &kernel, &shade);
    assert_eq!(calls.get(), 9);
    for y in 0..5 {
        for x in 0..5 {
            let interior = (1..4).contains(&x) && (1..4).contains(&y);
            let expected = if interior {
                Color::new((x * 10 + y) as u8, 0, 0, 255)
            } else if (x, y) == (0, 3) {
                Color::new(66, 66, 66, 255)
            } else {
                Color::new(0, 0, 0, 0)
            };
            assert_eq!(canvas.get_pixel(x, y), expected, "at ({x}, {y})");
        }
    }
}
