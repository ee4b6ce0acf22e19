//! Brush state and committed freehand painting.

use vstd::prelude::*;

use super::Canvas;
use super::MAX_RADIUS_MILLI;
use super::MIN_RADIUS_MILLI;
use crate::color::Colors;
use crate::color::Mode;
use crate::raster::disc_fill;
use crate::raster::disc_hit;
use crate::raster::line_fill;
use crate::raster::line_hit;
use crate::raster::pix;

verus! {

impl Canvas {
    /// Change the brush radius by a signed amount of thousandths of a
    /// pixel, clamping to the allowed range; any delta is accepted, the
    /// clamp absorbs what overshoots.
    pub fn resize_radius(&mut self, delta_milli: i64)
        requires
            old(self).wf(),
        ensures
            final(self).wf(),
            final(self).radius_milli as int == (if old(self).radius_milli + delta_milli
                < MIN_RADIUS_MILLI {
                MIN_RADIUS_MILLI as int
            } else if old(self).radius_milli + delta_milli > MAX_RADIUS_MILLI {
                MAX_RADIUS_MILLI as int
            } else {
                old(self).radius_milli + delta_milli
            }),
            *final(self) == (Canvas { radius_milli: final(self).radius_milli, ..*old(self) }),
    {
        // a delta past the whole clamp range lands on the bound anyway,
        // and taking that shortcut keeps the sum within i64
        self.radius_milli = if delta_milli >= MAX_RADIUS_MILLI {
            MAX_RADIUS_MILLI
        } else if delta_milli <= -MAX_RADIUS_MILLI {
            MIN_RADIUS_MILLI
        } else {
            let next: i64 = self.radius_milli + delta_milli;
            if next < MIN_RADIUS_MILLI {
                MIN_RADIUS_MILLI
            } else if next > MAX_RADIUS_MILLI {
                MAX_RADIUS_MILLI
            } else {
                next
            }
        };
    }

    /// The brush radius, in thousandths of a pixel.
    pub fn get_radius(&self) -> (r: i64)
        ensures
            r == self.radius_milli,
    {
        self.radius_milli
    }

    /// The whole-pixel brush radius the rasterizer stamps with.
    pub fn get_radius_px(&self) -> (r: i32)
        requires
            self.wf(),
        ensures
            r == self.brush_radius(),
            1 <= r <= 20,
    {
        (self.radius_milli / 1000) as i32
    }

    pub fn set_mode(&mut self, mode: Mode)
        requires
            old(self).wf(),
        ensures
            final(self).wf(),
            *final(self) == (Canvas { mode, ..*old(self) }),
    {
        self.mode = mode;
    }

    pub fn get_mode(&self) -> (m: Mode)
        ensures
            m == self.mode,
    {
        self.mode
    }

    /// Flip between drawing and erasing, keeping the carried color.
    pub fn toggle_mode(&mut self)
        requires
            old(self).wf(),
        ensures
            final(self).wf(),
            final(self).mode == (match old(self).mode {
                Mode::Drawing(c) => Mode::Erasing(c),
                Mode::Erasing(c) => Mode::Drawing(c),
            }),
            *final(self) == (Canvas { mode: final(self).mode, ..*old(self) }),
    {
        match self.mode {
            Mode::Drawing(color) => self.mode = Mode::Erasing(color),
            Mode::Erasing(color) => self.mode = Mode::Drawing(color),
        }
    }

    /// Select a new brush color; selecting a color always switches back
    /// to drawing.
    pub fn set_current_color(&mut self, color: Colors)
        requires
            old(self).wf(),
        ensures
            final(self).wf(),
            *final(self) == (Canvas { mode: Mode::Drawing(color), ..*old(self) }),
    {
        self.mode = Mode::Drawing(color);
    }

    /// The carried brush color.
    pub fn get_current_color(&self) -> (c: Colors)
        ensures
            c == self.mode.spec_carried(),
    {
        self.mode.carried()
    }

    /// Stamp one brush disc at `(center_x, center_y)` into the persisted
    /// buffer and onto the presentable buffer, clipped to the canvas.
    pub fn paint_circle(&mut self, center_x: i32, center_y: i32)
        requires
            old(self).wf(),
        ensures
            final(self).wf(),
            Canvas::same_config(*old(self), *final(self)),
            Canvas::same_input_state(*old(self), *final(self)),
            Canvas::same_history(*old(self), *final(self)),
            forall|px: int, py: int|
                0 <= px < old(self).wi() && 0 <= py < old(self).hi() ==> #[trigger] pix(
                    final(self).drawing@,
                    old(self).wi(),
                    px,
                    py,
                ) == (if disc_hit(
                    old(self).wi(),
                    old(self).hi(),
                    center_x as int,
                    center_y as int,
                    old(self).brush_radius(),
                    px,
                    py,
                ) {
                    old(self).drawing_color()
                } else {
                    pix(old(self).drawing@, old(self).wi(), px, py)
                }),
            forall|px: int, py: int|
                0 <= px < old(self).wi() && 0 <= py < old(self).hi() ==> #[trigger] pix(
                    final(self).screen@,
                    old(self).wi(),
                    px,
                    py,
                ) == (if disc_hit(
                    old(self).wi(),
                    old(self).hi(),
                    center_x as int,
                    center_y as int,
                    old(self).brush_radius(),
                    px,
                    py,
                ) {
                    old(self).screen_color()
                } else {
                    pix(old(self).screen@, old(self).wi(), px, py)
                }),
    {
        let r: i32 = self.get_radius_px();
        let (dcolor, scolor): (u32, u32) = match self.mode {
            Mode::Drawing(color) => (color.value(), color.value()),
            Mode::Erasing(_) => (0, self.background_color.value()),
        };
        disc_fill(
            &mut self.drawing,
            self.width,
            self.height,
            center_x as i64,
            center_y as i64,
            r as i64,
            dcolor,
        );
        disc_fill(
            &mut self.screen,
            self.width,
            self.height,
            center_x as i64,
            center_y as i64,
            r as i64,
            scolor,
        );
    }

    /// Paint a continuous brush stroke from the stored cursor position
    /// to `(x1, y1)`, stamping the brush at every Bresenham point of the
    /// segment including both endpoints.  The stored cursor position is
    /// not changed.
    pub fn paint_line(&mut self, x1: i32, y1: i32)
        requires
            old(self).wf(),
        ensures
            final(self).wf(),
            Canvas::same_config(*old(self), *final(self)),
            Canvas::same_input_state(*old(self), *final(self)),
            Canvas::same_history(*old(self), *final(self)),
            forall|px: int, py: int|
                0 <= px < old(self).wi() && 0 <= py < old(self).hi() ==> #[trigger] pix(
                    final(self).drawing@,
                    old(self).wi(),
                    px,
                    py,
                ) == (if line_hit(
                    old(self).wi(),
                    old(self).hi(),
                    old(self).brush_radius(),
                    old(self).cursor_x as int,
                    old(self).cursor_y as int,
                    x1 as int,
                    y1 as int,
                    true,
                    px,
                    py,
                ) {
                    old(self).drawing_color()
                } else {
                    pix(old(self).drawing@, old(self).wi(), px, py)
                }),
            forall|px: int, py: int|
                0 <= px < old(self).wi() && 0 <= py < old(self).hi() ==> #[trigger] pix(
                    final(self).screen@,
                    old(self).wi(),
                    px,
                    py,
                ) == (if line_hit(
                    old(self).wi(),
                    old(self).hi(),
                    old(self).brush_radius(),
                    old(self).cursor_x as int,
                    old(self).cursor_y as int,
                    x1 as int,
                    y1 as int,
                    true,
                    px,
                    py,
                ) {
                    old(self).screen_color()
                } else {
                    pix(old(self).screen@, old(self).wi(), px, py)
                }),
    {
        let r: i32 = self.get_radius_px();
        let (dcolor, scolor): (u32, u32) = match self.mode {
            Mode::Drawing(color) => (color.value(), color.value()),
            Mode::Erasing(_) => (0, self.background_color.value()),
        };
        let x0: i32 = self.cursor_x;
        let y0: i32 = self.cursor_y;
        line_fill(
            &mut self.drawing,
            self.width,
            self.height,
            x0 as i64,
            y0 as i64,
            x1 as i64,
            y1 as i64,
            r as i64,
            true,
            dcolor,
        );
        line_fill(
            &mut self.screen,
            self.width,
            self.height,
            x0 as i64,
            y0 as i64,
            x1 as i64,
            y1 as i64,
            r as i64,
            true,
            scolor,
        );
    }
}

} // verus!
