use adaptive_fractal::canvas::Canvas;
use adaptive_fractal::color::Color;

#[test]
fn new_canvas_is_blank() {
    let canvas = Canvas::new(7, 3);
    for y in 0..3 {
        for x in 0..7 {
            assert_eq!(canvas.get_pixel(x, y), Color::new(0, 0, 0, 0));
        }
    }
}

#[test]
fn canvas_reports_its_dimensions() {
    let canvas = Canvas::new(7, 3);
    assert_eq!(canvas.width(), 7);
    assert_eq!(canvas.height(), 3);
    let empty = Canvas::new(0, 5);
    assert_eq!(empty.width(), 0);
    assert_eq!(empty.height(), 5);
}

#[test]
fn put_pixel_writes_one_pixel_only() {
    let mut canvas = Canvas::new(4, 4);
    let red = Color::new(200, 10, 20, 255);
    canvas.put_pixel(2, 1, red);
    for y in 0..4 {
        for x in 0..4 {
            let expected = if (x, y) == (2, 1) { red } else { Color::new(0, 0, 0, 0) };
            assert_eq!(canvas.get_pixel(x, y), expected);
        }
    }
}

#[test]
fn put_pixel_keeps_channel_order() {
    let mut canvas = Canvas::new(2, 2);
    canvas.put_pixel(1, 0, Color::new(1, 2, 3, 4));
    let c = canvas.get_pixel(1, 0);
    assert_eq!((c.r, c.g, c.b, c.a), (1, 2, 3, 4));
    // (0, 1) is a different pixel than (1, 0)
    assert_eq!(canvas.get_pixel(0, 1), Color::new(0, 0, 0, 0));
}

#[test]
fn put_pixel_overwrites() {
    let mut canvas = Canvas::new(2, 2);
    canvas.put_pixel(0, 0, Color::new(1, 1, 1, 255));
    canvas.put_pixel(0, 0, Color::new(9, 8, 7, 6));
    assert_eq!(canvas.get_pixel(0, 0), Color::new(9, 8, 7, 6));
}

#[test]
fn color_states() {
    assert!(!Color::new(0, 0, 0, 0).computed());
    assert!(!Color::new(5, 5, 5, 0).computed());
    assert!(Color::new(0, 0, 0, 1).computed());
    assert!(Color::new(0, 0, 0, 1).settled());
    assert!(Color::white().computed());
    assert!(!Color::white().settled());
    assert_eq!(Color::white(), Color::new(255, 255, 255, 1));
    // opaque white is not the marker
    assert!(Color::new(255, 255, 255, 255).settled());
    assert!(Color::new(255, 255, 254, 1).settled());
    assert!(!Color::new(255, 255, 255, 0).settled());
}
