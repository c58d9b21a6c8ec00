use adaptive_fractal::canvas::Canvas;
use adaptive_fractal::color::Color;
use adaptive_fractal::subdivider::render;
use std::cell::Cell;

const CAP: u32 = 50;
const SIDE: u32 = 16;

/// The escape time of the Mandelbrot iteration at the pixel `(x, y)` of a
/// 16 by 16 view that is centred on (-0.75, 0.0) at zoom 1.0.
fn mandelbrot(x: u32, y: u32, max_iter: u32) -> u32 {
    let padding = 2.0;
    let re = (-0.75 - padding, -0.75 + padding);
    let im = (0.0 - padding, 0.0 + padding);
    let xscale = (SIDE as f64 / (re.0 - re.1)).abs();
    let yscale = (SIDE as f64 / (im.0 - im.1)).abs();
    let c = num::Complex::new(x as f64 / xscale + re.0, y as f64 / yscale - im.1);
    let mut z = num::Complex::new(0.0, 0.0);
    let mut iteration = 0;
    while z.re * z.re + z.im * z.im <= 4.0 && iteration < max_iter {
        z = z * z + c;
        iteration += 1;
    }
    iteration
}

fn ramp(count: u32, max_iter: u32) -> Color {
    Color::new((count * 255 / max_iter) as u8, count as u8, 0, 255)
}

#[test]
fn corner_of_the_view_escapes_at_once() {
    assert_eq!(mandelbrot(0, 0, CAP), 1);
    // (-0.75, 0.0) itself lies in the set
    assert_eq!(mandelbrot(8, 8, CAP), CAP);
}

#[test]
fn mandelbrot_view_is_refined_exactly_once() {
    let calls = Cell::new(0u32);
    let kernel = |x: u32, y: u32, max_iter: u32| {
        calls.set(calls.get() + 1);
        mandelbrot(x, y, max_iter)
    };
    let mut canvas = Canvas::new(SIDE, SIDE);
    let deepest = render(&mut canvas, 0, &[8, 4], CAP, &kernel, &ramp);
    // every box of side 8 has a pixel on its border that escapes, so each
    // is tiled with four boxes of side 4, and there the sizes end
    assert_eq!(deepest, Some(1));
    // the sub-boxes find settled pixels on their borders and are evaluated
    // in full: each pixel is evaluated once and holds its own colour
    assert_eq!(calls.get(), SIDE * SIDE);
    for y in 0..SIDE {
        for x in 0..SIDE {
            assert_eq!(canvas.get_pixel(x, y), ramp(mandelbrot(x, y, CAP), CAP), "at ({x}, {y})");
        }
    }
}

#[test]
fn mandelbrot_view_renders_the_same_from_a_table() {
    // the same counts from a table give the same canvas
    let mut table = Vec::new();
    for y in 0..SIDE {
        for x in 0..SIDE {
            table.push(mandelbrot(x, y, CAP));
        }
    }
    let tabled = |x: u32, y: u32, _max_iter: u32| table[(y * SIDE + x) as usize];
    let mut first = Canvas::new(SIDE, SIDE);
    let mut second = Canvas::new(SIDE, SIDE);
    let a = render(&mut first, 0, &[8, 4], CAP, &mandelbrot, &ramp);
    let b = render(&mut second, 0, &[8, 4], CAP, &tabled, &ramp);
    assert_eq!(a, b);
    for y in 0..SIDE {
        for x in 0..SIDE {
            assert_eq!(first.get_pixel(x, y), second.get_pixel(x, y));
        }
    }
}

#[test]
fn capped_view_is_flooded_box_by_box() {
    // a view that lies inside the set: every count is the cap
    let calls = Cell::new(0u32);
    let inside = |_x: u32, _y: u32, max_iter: u32| {
        calls.set(calls.get() + 1);
        max_iter
    };
    let mut canvas = Canvas::new(SIDE, SIDE);
    assert_eq!(render(&mut canvas, 0, &[8, 4], CAP, &inside, &ramp), Some(0));
    assert_eq!(calls.get(), 4 * 28);
    for y in 0..SIDE {
        for x in 0..SIDE {
            assert_eq!(canvas.get_pixel(x, y), Color::new(255, 50, 0, 255));
        }
    }
}
