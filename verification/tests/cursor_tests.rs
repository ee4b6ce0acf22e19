use sketchover::cursor::color_circle_cursor_pattern;
use sketchover::cursor::erasing_cursor_pattern;
use sketchover::cursor::paint_outline_circle;
use sketchover::cursor::set_pixel;

#[test]
fn set_pixel_writes_rgba_bytes() {
    let mut p: Vec<u8> = vec![0; 3 * 3 * 4];
    set_pixel(&mut p, 2, 1, 3, 0xaabbccdd);
    let idx = (1 * 3 + 2) * 4;
    assert_eq!(p[idx], 0xbb); // red
    assert_eq!(p[idx + 1], 0xcc); // green
    assert_eq!(p[idx + 2], 0xdd); // blue
    assert_eq!(p[idx + 3], 0xaa); // alpha
    assert!(p.iter().enumerate().all(|(j, &b)| (idx..idx + 4).contains(&j) || b == 0));
}

#[test]
fn outline_circle_radius_one_marks_the_ring() {
    let mut p: Vec<u8> = vec![0; 3 * 3 * 4];
    paint_outline_circle(&mut p, 1, 0xffffffff, 1);
    for y in 0..3usize {
        for x in 0..3usize {
            let idx = (y * 3 + x) * 4;
            let marked = !(x == 1 && y == 1);
            for k in 0..4 {
                assert_eq!(p[idx + k] == 0xff, marked, "pixel ({}, {})", x, y);
            }
        }
    }
}

#[test]
fn erasing_cursor_has_black_core_and_white_ring() {
    let p = erasing_cursor_pattern(1);
    assert_eq!(p.len(), 3 * 3 * 4);
    // center pixel: black, opaque
    let c = (1 * 3 + 1) * 4;
    assert_eq!(&p[c..c + 4], &[0, 0, 0, 0xff]);
    // a ring pixel: white, opaque
    let r = (0 * 3 + 1) * 4;
    assert_eq!(&p[r..r + 4], &[0xff, 0xff, 0xff, 0xff]);
}

#[test]
fn color_cursor_is_a_filled_disc() {
    let p = color_circle_cursor_pattern(1, 0xffff0000);
    assert_eq!(p.len(), 3 * 3 * 4);
    // radius one fills the whole 3x3 pattern with the color
    for pix in 0..9usize {
        assert_eq!(&p[pix * 4..pix * 4 + 4], &[0xff, 0, 0, 0xff], "pixel {}", pix);
    }
}

#[test]
fn outline_circle_accepts_the_degenerate_center() {
    let mut p: Vec<u8> = vec![0; 4];
    paint_outline_circle(&mut p, 0, 0xffffffff, 0);
    assert_eq!(p, vec![0xff, 0xff, 0xff, 0xff]);
}

#[test]
fn outline_circle_with_negative_radius_marks_nothing() {
    let mut p: Vec<u8> = vec![0; 3 * 3 * 4];
    paint_outline_circle(&mut p, -1, 0xffffffff, 1);
    assert!(p.iter().all(|&b| b == 0));
}

#[test]
fn radius_zero_cursors_are_single_pixels() {
    let e = erasing_cursor_pattern(0);
    // a white dot: the black inner outline has negative radius
    assert_eq!(e, vec![0xff, 0xff, 0xff, 0xff]);
    let c = color_circle_cursor_pattern(0, 0xff00ff00);
    assert_eq!(c, vec![0, 0xff, 0, 0xff]);
}
