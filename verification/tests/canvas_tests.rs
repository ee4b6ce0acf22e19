use sketchover::canvas::Canvas;
use sketchover::canvas::Preview;
use sketchover::color::Colors;
use sketchover::color::Mode;
use sketchover::input::ButtonState;
use sketchover::input::MouseButton;
use sketchover::input::MoveAction;
use sketchover::input::PressModifiers;
use sketchover::input::throttle_move;

const RED: u32 = 0xffff0000;

#[test]
fn new_canvas_is_empty() {
    let c = Canvas::new(10, 10);
    assert_eq!(c.buffer().len(), 100);
    assert!(c.buffer().iter().all(|&v| v == 0));
    assert!(c.screen_buffer().iter().all(|&v| v == 0));
    assert!(matches!(c.get_mode(), Mode::Drawing(Colors::RED)));
    assert_eq!(c.get_preview(), Preview::NoPreview);
    assert_eq!(c.get_radius(), 2000);
}

#[test]
fn scenario_click_then_drag_paints_a_gapless_stroke() {
    let mut c = Canvas::new(30, 30);
    c.cursor_moved(5.0 as i32, 5.0 as i32);
    c.mouse_pressed(ButtonState::Pressed, MouseButton::Left, PressModifiers::NoModifier);
    // the click painted a dot
    assert_eq!(c.buffer()[(5 * 30 + 5) as usize], RED);
    c.cursor_moved(5, 20);
    // a continuous stroke with no gaps between y = 5 and y = 20 at x = 5
    for y in 5..=20i32 {
        assert_eq!(c.buffer()[(y * 30 + 5) as usize], RED, "gap at y = {}", y);
    }
}

#[test]
fn scenario_line_preview_commit_and_undo() {
    let mut c = Canvas::new(20, 20);
    // press with SHIFT at (0, 0) arms a line preview anchored there
    c.mouse_pressed(ButtonState::Pressed, MouseButton::Left, PressModifiers::Shift);
    assert_eq!(c.get_preview(), Preview::Line(0, 0));
    // moving shows the segment on the presentable surface only
    c.cursor_moved(10, 0);
    assert_eq!(c.screen_buffer()[5], RED);
    assert!(c.buffer().iter().all(|&v| v == 0));
    // release commits the segment into the persisted buffer
    c.mouse_pressed(ButtonState::Released, MouseButton::Left, PressModifiers::Shift);
    assert_eq!(c.get_preview(), Preview::NoPreview);
    assert_eq!(c.buffer()[5], RED);
    assert_eq!(c.buffer()[10], RED);
    // one undo removes it entirely
    c.undo();
    assert!(c.buffer().iter().all(|&v| v == 0));
}

#[test]
fn scenario_square_preview_commit() {
    let mut c = Canvas::new(20, 20);
    c.cursor_moved(2, 2);
    c.mouse_pressed(ButtonState::Pressed, MouseButton::Left, PressModifiers::Control);
    assert_eq!(c.get_preview(), Preview::Square(2, 2));
    c.cursor_moved(12, 12);
    assert!(c.buffer().iter().all(|&v| v == 0));
    c.mouse_pressed(ButtonState::Released, MouseButton::Left, PressModifiers::Control);
    // edge midpoints are stamped, the interior stays empty
    assert_eq!(c.buffer()[(2 * 20 + 7) as usize], RED);
    assert_eq!(c.buffer()[(12 * 20 + 7) as usize], RED);
    assert_eq!(c.buffer()[(7 * 20 + 2) as usize], RED);
    assert_eq!(c.buffer()[(7 * 20 + 12) as usize], RED);
    assert_eq!(c.buffer()[(7 * 20 + 7) as usize], 0);
}

#[test]
fn undo_redo_restores_exactly() {
    let mut c = Canvas::new(15, 15);
    c.cursor_moved(3, 3);
    c.mouse_pressed(ButtonState::Pressed, MouseButton::Left, PressModifiers::NoModifier);
    c.mouse_pressed(ButtonState::Released, MouseButton::Left, PressModifiers::NoModifier);
    let after_first = c.buffer().clone();
    c.cursor_moved(10, 10);
    c.mouse_pressed(ButtonState::Pressed, MouseButton::Left, PressModifiers::NoModifier);
    c.mouse_pressed(ButtonState::Released, MouseButton::Left, PressModifiers::NoModifier);
    let after_second = c.buffer().clone();
    assert_ne!(after_first, after_second);
    c.undo();
    assert_eq!(*c.buffer(), after_first);
    c.redo();
    assert_eq!(*c.buffer(), after_second);
}

#[test]
fn redo_after_new_stroke_is_a_noop() {
    let mut c = Canvas::new(15, 15);
    c.cursor_moved(3, 3);
    c.mouse_pressed(ButtonState::Pressed, MouseButton::Left, PressModifiers::NoModifier);
    c.mouse_pressed(ButtonState::Released, MouseButton::Left, PressModifiers::NoModifier);
    c.undo();
    // a new stroke clears the redo stack
    c.cursor_moved(10, 10);
    c.mouse_pressed(ButtonState::Pressed, MouseButton::Left, PressModifiers::NoModifier);
    c.mouse_pressed(ButtonState::Released, MouseButton::Left, PressModifiers::NoModifier);
    let committed = c.buffer().clone();
    c.redo();
    assert_eq!(*c.buffer(), committed);
}

#[test]
fn undo_with_empty_history_falls_back_to_clear() {
    let mut c = Canvas::new(8, 8);
    c.set_background_color(Colors::BLUE);
    // painted without any saved snapshot, so there is nothing to restore
    c.paint_circle(4, 4);
    c.undo();
    assert!(c.buffer().iter().all(|&v| v == 0));
    assert!(c.screen_buffer().iter().all(|&v| v == Colors::BLUE.value()));
}

#[test]
fn reset_discards_the_history() {
    let mut c = Canvas::new(15, 15);
    c.cursor_moved(3, 3);
    c.mouse_pressed(ButtonState::Pressed, MouseButton::Left, PressModifiers::NoModifier);
    c.mouse_pressed(ButtonState::Released, MouseButton::Left, PressModifiers::NoModifier);
    c.cursor_moved(10, 10);
    c.mouse_pressed(ButtonState::Pressed, MouseButton::Left, PressModifiers::NoModifier);
    c.mouse_pressed(ButtonState::Released, MouseButton::Left, PressModifiers::NoModifier);
    c.reset();
    // with the stacks discarded this undo finds no snapshot and only
    // clears; were they kept, it would bring the first stroke back
    c.undo();
    assert!(c.buffer().iter().all(|&v| v == 0));
}

#[test]
fn history_evicts_oldest_at_capacity() {
    let mut c = Canvas::new(100, 1);
    // forty-one dots, each saving the state before it
    for i in 0..41i32 {
        c.cursor_moved(i * 2, 0);
        c.mouse_pressed(ButtonState::Pressed, MouseButton::Left, PressModifiers::NoModifier);
        c.mouse_pressed(ButtonState::Released, MouseButton::Left, PressModifiers::NoModifier);
        if i == 0 {
            // remember the state right after the first stroke
        }
    }
    // rebuild the state after the first stroke for comparison
    let mut first = Canvas::new(100, 1);
    first.cursor_moved(0, 0);
    first.mouse_pressed(ButtonState::Pressed, MouseButton::Left, PressModifiers::NoModifier);
    first.mouse_pressed(ButtonState::Released, MouseButton::Left, PressModifiers::NoModifier);
    // the oldest entry (the empty canvas) was evicted: forty undos stop
    // at the state after the first stroke
    for _ in 0..40 {
        c.undo();
    }
    assert_eq!(*c.buffer(), *first.buffer());
    // one more undo finds no snapshot and falls back to clearing
    c.undo();
    assert!(c.buffer().iter().all(|&v| v == 0));
}

#[test]
fn preview_updates_leave_zero_trace() {
    let mut c = Canvas::new(25, 25);
    c.cursor_moved(12, 12);
    c.mouse_pressed(ButtonState::Pressed, MouseButton::Left, PressModifiers::NoModifier);
    c.mouse_pressed(ButtonState::Released, MouseButton::Left, PressModifiers::NoModifier);
    let settled_screen = c.screen_buffer().clone();
    // arm a line preview at (12, 12) and wave it around
    c.mouse_pressed(ButtonState::Pressed, MouseButton::Left, PressModifiers::Shift);
    c.cursor_moved(20, 5);
    assert_ne!(*c.screen_buffer(), settled_screen);
    c.cursor_moved(3, 22);
    c.delete_preview();
    assert_eq!(*c.screen_buffer(), settled_screen);
}

#[test]
fn square_preview_updates_leave_zero_trace() {
    let mut c = Canvas::new(25, 25);
    c.cursor_moved(12, 12);
    c.mouse_pressed(ButtonState::Pressed, MouseButton::Left, PressModifiers::NoModifier);
    c.mouse_pressed(ButtonState::Released, MouseButton::Left, PressModifiers::NoModifier);
    let settled_screen = c.screen_buffer().clone();
    c.mouse_pressed(ButtonState::Pressed, MouseButton::Left, PressModifiers::Control);
    c.cursor_moved(20, 20);
    c.cursor_moved(4, 18);
    c.delete_preview();
    assert_eq!(*c.screen_buffer(), settled_screen);
}

#[test]
fn resize_preserves_the_overlap() {
    let mut c = Canvas::new(10, 10);
    c.paint_circle(2, 2);
    let before = c.buffer().clone();
    c.resize(15, 8);
    for y in 0..8i32 {
        for x in 0..15i32 {
            let v = c.buffer()[(y * 15 + x) as usize];
            if x < 10 {
                assert_eq!(v, before[(y * 10 + x) as usize], "pixel ({}, {})", x, y);
            } else {
                assert_eq!(v, 0, "new pixel ({}, {})", x, y);
            }
        }
    }
}

#[test]
fn resize_smaller_drops_outside_rows() {
    let mut c = Canvas::new(10, 10);
    c.paint_circle(8, 8);
    let before = c.buffer().clone();
    c.resize(5, 5);
    assert_eq!(c.buffer().len(), 25);
    for y in 0..5i32 {
        for x in 0..5i32 {
            assert_eq!(c.buffer()[(y * 5 + x) as usize], before[(y * 10 + x) as usize]);
        }
    }
}

#[test]
fn toggle_mode_preserves_the_carried_color() {
    let mut c = Canvas::new(4, 4);
    c.set_current_color(Colors::GREEN);
    c.toggle_mode();
    assert!(matches!(c.get_mode(), Mode::Erasing(Colors::GREEN)));
    c.toggle_mode();
    assert!(matches!(c.get_mode(), Mode::Drawing(Colors::GREEN)));
}

#[test]
fn selecting_a_color_switches_to_drawing() {
    let mut c = Canvas::new(4, 4);
    c.set_mode(Mode::Erasing(Colors::RED));
    c.set_current_color(Colors::CYAN);
    assert!(matches!(c.get_mode(), Mode::Drawing(Colors::CYAN)));
    assert_eq!(c.get_current_color(), Colors::CYAN);
}

#[test]
fn radius_clamps_to_its_range() {
    let mut c = Canvas::new(4, 4);
    c.resize_radius(100000);
    assert_eq!(c.get_radius(), 20000);
    c.resize_radius(-100000);
    assert_eq!(c.get_radius(), 1000);
    c.resize_radius(1500);
    assert_eq!(c.get_radius(), 2500);
    assert_eq!(c.get_radius_px(), 2);
    // the clamp absorbs any delta, however extreme
    c.resize_radius(i64::MAX);
    assert_eq!(c.get_radius(), 20000);
    c.resize_radius(i64::MIN);
    assert_eq!(c.get_radius(), 1000);
}

#[test]
fn background_change_recomposes_the_screen() {
    let mut c = Canvas::new(10, 10);
    c.paint_circle(5, 5);
    c.set_background_color(Colors::BLUE);
    for i in 0..100usize {
        let d = c.buffer()[i];
        let s = c.screen_buffer()[i];
        if d == 0 {
            assert_eq!(s, Colors::BLUE.value());
        } else {
            assert_eq!(s, d);
        }
    }
}

#[test]
fn opacity_rewrites_alpha_channels() {
    let mut c = Canvas::new(10, 10);
    c.set_background_color(Colors::WHITE);
    c.paint_circle(5, 5);
    c.set_opacity(127);
    for i in 0..100usize {
        let d = c.buffer()[i];
        let s = c.screen_buffer()[i];
        if d == 0 {
            assert_eq!(s, (Colors::WHITE.value() & 0x00ffffff) | (127u32 << 24));
        } else {
            assert_eq!(s, (d & 0x00ffffff) | (127u32 << 24));
        }
    }
}

#[test]
fn opacity_keeps_transparent_background_transparent() {
    let mut c = Canvas::new(6, 6);
    c.set_opacity(200);
    assert!(c.screen_buffer().iter().all(|&v| v == 0));
}

#[test]
fn clear_blanks_content_but_keeps_settings() {
    let mut c = Canvas::new(10, 10);
    c.set_current_color(Colors::MAGENTA);
    c.set_background_color(Colors::BLACK);
    c.paint_circle(5, 5);
    c.clear();
    assert!(c.buffer().iter().all(|&v| v == 0));
    assert!(c.screen_buffer().iter().all(|&v| v == Colors::BLACK.value()));
    assert!(matches!(c.get_mode(), Mode::Drawing(Colors::MAGENTA)));
}

#[test]
fn reset_restores_the_defaults() {
    let mut c = Canvas::new(10, 10);
    c.set_current_color(Colors::YELLOW);
    c.resize_radius(5000);
    c.set_background_color(Colors::BLACK);
    c.paint_circle(5, 5);
    c.reset();
    assert!(c.buffer().iter().all(|&v| v == 0));
    assert!(c.screen_buffer().iter().all(|&v| v == 0));
    assert!(matches!(c.get_mode(), Mode::Drawing(Colors::RED)));
    assert_eq!(c.get_radius(), 2000);
}

#[test]
fn cursor_motion_without_click_paints_nothing() {
    let mut c = Canvas::new(10, 10);
    c.cursor_moved(3, 4);
    assert!(c.buffer().iter().all(|&v| v == 0));
    assert_eq!(c.cursor_pos(), (3, 4));
}

#[test]
fn non_left_buttons_change_nothing() {
    let mut c = Canvas::new(10, 10);
    c.cursor_moved(5, 5);
    c.mouse_pressed(ButtonState::Pressed, MouseButton::Right, PressModifiers::NoModifier);
    assert!(c.buffer().iter().all(|&v| v == 0));
    c.mouse_pressed(ButtonState::Pressed, MouseButton::Middle, PressModifiers::Shift);
    assert_eq!(c.get_preview(), Preview::NoPreview);
}

#[test]
fn colors_have_their_argb_values() {
    assert_eq!(Colors::RED.value(), 0xffff0000);
    assert_eq!(Colors::GREEN.value(), 0xff00ff00);
    assert_eq!(Colors::BLUE.value(), 0xff0000ff);
    assert_eq!(Colors::YELLOW.value(), 0xffffff00);
    assert_eq!(Colors::CYAN.value(), 0xff00ffff);
    assert_eq!(Colors::MAGENTA.value(), 0xffff00ff);
    assert_eq!(Colors::WHITE.value(), 0xffffffff);
    assert_eq!(Colors::BLACK.value(), 0xff000000);
    assert_eq!(Colors::TRANSPARENT.value(), 0);
}

#[test]
fn interrupted_stroke_undo_keeps_redo_alive() {
    let mut c = Canvas::new(15, 15);
    c.cursor_moved(3, 3);
    c.mouse_pressed(ButtonState::Pressed, MouseButton::Left, PressModifiers::NoModifier);
    c.mouse_pressed(ButtonState::Released, MouseButton::Left, PressModifiers::NoModifier);
    let after_first = c.buffer().clone();
    // start a second stroke and undo while the button is still held
    c.cursor_moved(10, 10);
    c.mouse_pressed(ButtonState::Pressed, MouseButton::Left, PressModifiers::NoModifier);
    c.undo();
    assert_eq!(*c.buffer(), after_first);
    // the redo still restores the interrupted stroke's dot
    c.redo();
    assert_eq!(c.buffer()[(10 * 15 + 10) as usize], RED);
}

#[test]
fn rerender_recomposes_from_the_persisted_buffer() {
    let mut c = Canvas::new(10, 10);
    c.paint_circle(5, 5);
    let composed = c.screen_buffer().clone();
    // opacity rewrites the screen; a rerender recomposes it exactly
    c.set_opacity(10);
    assert_ne!(*c.screen_buffer(), composed);
    c.rerender();
    assert_eq!(*c.screen_buffer(), composed);
}

#[test]
fn resize_reports_the_new_size() {
    let mut c = Canvas::new(10, 10);
    assert_eq!(c.size(), (10, 10));
    c.resize(7, 9);
    assert_eq!(c.size(), (7, 9));
    assert_eq!(c.buffer().len(), 63);
}

#[test]
fn move_throttle_follows_the_interval_and_hold_state() {
    assert_eq!(throttle_move(7, true), MoveAction::Process);
    assert_eq!(throttle_move(100, false), MoveAction::Process);
    // a throttled sample still tracks the cursor while nothing is held
    assert_eq!(throttle_move(3, false), MoveAction::TrackCursorOnly);
    // but is dropped mid-stroke, so it cannot become a segment endpoint
    assert_eq!(throttle_move(3, true), MoveAction::Skip);
}
