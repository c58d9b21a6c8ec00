use adaptive_fractal::canvas::Canvas;
use adaptive_fractal::extent::{box_reach, render_fits, sizes_are_usable, tiled_length};

#[test]
fn tiled_length_rounds_up_to_whole_tiles() {
    assert_eq!(tiled_length(8, 4), 8);
    assert_eq!(tiled_length(10, 4), 12);
    assert_eq!(tiled_length(1, 4), 4);
    assert_eq!(tiled_length(4, 4), 4);
    assert_eq!(tiled_length(5, 4), 8);
    assert_eq!(tiled_length(1920, 60), 1920);
    assert_eq!(tiled_length(1080, 120), 1080);
    assert_eq!(tiled_length(1000, 120), 1080);
}

#[test]
fn tiled_length_of_nothing_is_nothing() {
    assert_eq!(tiled_length(0, 4), 0);
    assert_eq!(tiled_length(5, 0), 0);
    assert_eq!(tiled_length(0, 0), 0);
}

#[test]
fn tiled_length_does_not_overflow() {
    assert_eq!(tiled_length(u32::MAX, u32::MAX), u32::MAX as u64);
    assert_eq!(tiled_length(u32::MAX, 2), u32::MAX as u64 + 1);
    assert_eq!(tiled_length(u32::MAX, u32::MAX - 1), 2 * (u32::MAX as u64 - 1));
}

#[test]
fn usable_sizes_leave_room_for_a_border() {
    assert!(sizes_are_usable(&[120, 60, 30, 15, 5]));
    assert!(sizes_are_usable(&[2]));
    assert!(sizes_are_usable(&[]));
    assert!(!sizes_are_usable(&[8, 4, 1]));
    assert!(!sizes_are_usable(&[0]));
    assert!(!sizes_are_usable(&[1, 8]));
}

#[test]
fn box_reach_of_sizes_that_divide_is_the_box() {
    let sizes = [120, 60, 30, 15, 5];
    assert_eq!(box_reach(&sizes, 0), Some(120));
    assert_eq!(box_reach(&sizes, 1), Some(60));
    assert_eq!(box_reach(&sizes, 4), Some(5));
    assert_eq!(box_reach(&[8, 4], 0), Some(8));
}

#[test]
fn box_reach_counts_the_overhang_of_sub_boxes() {
    // boxes of 3 laid over 5 pixels cover 6
    assert_eq!(box_reach(&[5, 3], 0), Some(6));
    assert_eq!(box_reach(&[5, 3], 1), Some(3));
    // 10 -> 4: tiles at 0, 4, 8; the last one reaches 12, and its own
    // sub-boxes of 3 reach 8 + 6
    assert_eq!(box_reach(&[10, 4, 3], 0), Some(14));
    assert_eq!(box_reach(&[10, 4, 3], 1), Some(6));
}

#[test]
fn box_reach_beyond_every_canvas() {
    assert_eq!(box_reach(&[u32::MAX, u32::MAX - 1], 0), None);
    assert_eq!(box_reach(&[u32::MAX, u32::MAX - 1], 1), Some(u32::MAX - 1));
    assert_eq!(box_reach(&[u32::MAX], 0), Some(u32::MAX));
}

#[test]
fn render_fits_when_the_tiles_stay_on_the_canvas() {
    let canvas = Canvas::new(16, 16);
    assert!(render_fits(&canvas, 0, 0, 16, 16, 0, &[8, 4]));
    assert!(render_fits(&canvas, 0, 0, 16, 16, 1, &[8, 4]));
    assert!(render_fits(&canvas, 8, 8, 16, 16, 0, &[8, 4]));
    assert!(render_fits(&canvas, 0, 0, 9, 9, 0, &[8, 4]));
    // the last tile would end at 17
    assert!(!render_fits(&canvas, 1, 0, 16, 16, 0, &[8, 4]));
    assert!(!render_fits(&canvas, 0, 1, 16, 16, 0, &[8, 4]));
    // tiles of 5 over 16 pixels cover 20
    assert!(!render_fits(&canvas, 0, 0, 16, 16, 0, &[5]));
    assert!(render_fits(&canvas, 0, 0, 15, 15, 0, &[5]));
}

#[test]
fn render_fits_accounts_for_overhanging_sub_boxes() {
    let five = Canvas::new(5, 5);
    let six = Canvas::new(6, 6);
    assert!(!render_fits(&five, 0, 0, 5, 5, 0, &[5, 3]));
    assert!(render_fits(&six, 0, 0, 5, 5, 0, &[5, 3]));
    assert!(render_fits(&five, 0, 0, 5, 5, 0, &[5]));
    let wide = Canvas::new(6, 5);
    assert!(!render_fits(&wide, 0, 0, 5, 5, 0, &[5, 3]));
}

#[test]
fn render_fits_rejects_bad_levels_and_sizes() {
    let canvas = Canvas::new(16, 16);
    assert!(!render_fits(&canvas, 0, 0, 16, 16, 2, &[8, 4]));
    assert!(!render_fits(&canvas, 0, 0, 16, 16, 0, &[]));
    assert!(!render_fits(&canvas, 0, 0, 16, 16, 0, &[8, 1]));
    assert!(!render_fits(&canvas, 0, 0, 0, 0, 0, &[8, 1]));
}

#[test]
fn empty_region_always_fits() {
    let canvas = Canvas::new(4, 4);
    assert!(render_fits(&canvas, 9, 9, 9, 20, 0, &[8, 4]));
    assert!(render_fits(&canvas, 3, 3, 2, 4, 0, &[8, 4]));
    assert!(render_fits(&canvas, 0, 4, 4, 4, 1, &[8, 4]));
}
