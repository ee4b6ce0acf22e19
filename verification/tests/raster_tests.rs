use sketchover::canvas::Canvas;
use sketchover::color::Colors;

const RED: u32 = 0xffff0000;

/// The exact pixel set of one default-radius (2) brush stamp, relative
/// to its center, as the midpoint span fill produces it.
fn stamp_offsets() -> Vec<(i32, i32)> {
    let mut v = Vec::new();
    for dx in -2..=2 {
        v.push((dx, -1));
        v.push((dx, 0));
        v.push((dx, 1));
    }
    for dx in -1..=1 {
        v.push((dx, -2));
        v.push((dx, 2));
    }
    v
}

#[test]
fn scenario_circle_compresses_to_full_area() {
    // a 10x10 empty buffer, one brush stamp at (5, 5)
    let mut c = Canvas::new(10, 10);
    c.paint_circle(5, 5);
    let e = sketchover::rle::rle_compress(c.buffer());
    let total: u64 = e.iter().map(|&(count, _)| count as u64).sum();
    assert_eq!(total, 100);
    // the non-empty runs cover exactly the disc pixels around (5, 5)
    let expected: Vec<(i32, i32)> = stamp_offsets().iter().map(|&(dx, dy)| (5 + dx, 5 + dy)).collect();
    for y in 0..10i32 {
        for x in 0..10i32 {
            let v = c.buffer()[(y * 10 + x) as usize];
            if expected.contains(&(x, y)) {
                assert_eq!(v, RED, "pixel ({}, {}) should be painted", x, y);
            } else {
                assert_eq!(v, 0, "pixel ({}, {}) should be empty", x, y);
            }
        }
    }
}

#[test]
fn offscreen_circle_mutates_nothing() {
    let mut c = Canvas::new(10, 10);
    c.paint_circle(-1000, -1000);
    assert!(c.buffer().iter().all(|&v| v == 0));
    assert!(c.screen_buffer().iter().all(|&v| v == 0));
}

#[test]
fn clipped_circle_paints_only_inside() {
    let mut c = Canvas::new(10, 10);
    c.paint_circle(0, 0);
    // something was painted at the corner, and nothing crashed
    assert_eq!(c.buffer()[0], RED);
    assert_eq!(c.buffer().len(), 100);
}

#[test]
fn erasing_writes_the_empty_sentinel() {
    let mut c = Canvas::new(10, 10);
    c.set_background_color(Colors::BLUE);
    c.paint_circle(5, 5);
    c.toggle_mode();
    c.paint_circle(5, 5);
    // erasing writes the sentinel into the drawing, the background onto
    // the screen
    assert!(c.buffer().iter().all(|&v| v == 0));
    assert!(c.screen_buffer().iter().all(|&v| v == Colors::BLUE.value()));
}

#[test]
fn spans_include_their_right_endpoint() {
    let mut c = Canvas::new(10, 10);
    c.paint_circle(5, 5);
    // the center row reaches the full radius on both sides
    assert_eq!(c.buffer()[(5 * 10 + 3) as usize], RED);
    assert_eq!(c.buffer()[(5 * 10 + 7) as usize], RED);
}

#[test]
fn rightmost_column_receives_ink() {
    let mut c = Canvas::new(10, 10);
    c.paint_circle(9, 5);
    assert_eq!(c.buffer()[(5 * 10 + 9) as usize], RED);
}
