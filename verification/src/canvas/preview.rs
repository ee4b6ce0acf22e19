//! Transient shape previews: painted onto the presentable buffer only,
//! erased by restoring each touched pixel from the persisted buffer, and
//! never written into drawing state or history.

use vstd::prelude::*;

use super::Canvas;
use super::Preview;
use crate::raster::line_fill;
use crate::raster::line_restore;
use crate::raster::pix;
use crate::raster::restore_val;
use crate::raster::square_fill;
use crate::raster::square_hit;
use crate::raster::square_restore;
use crate::surface::present_val;

verus! {

impl Canvas {
    /// Paint the line preview from its anchor toward `(x1, y1)` onto the
    /// presentable buffer, one brush stamp short of `(x1, y1)`.
    fn paint_line_preview(&mut self, x1: i32, y1: i32)
        requires
            old(self).wf(),
        ensures
            final(self).wf(),
            *final(self) == (Canvas { screen: final(self).screen, ..*old(self) }),
            old(self).preview is Line ==> forall|px: int, py: int|
                0 <= px < old(self).wi() && 0 <= py < old(self).hi() ==> #[trigger] pix(
                    final(self).screen@,
                    old(self).wi(),
                    px,
                    py,
                ) == (if old(self).phit(x1 as int, y1 as int, px, py) {
                    old(self).preview_color()
                } else {
                    pix(old(self).screen@, old(self).wi(), px, py)
                }),
            !(old(self).preview is Line) ==> final(self).screen@ == old(self).screen@,
    {
        let r: i32 = self.get_radius_px();
        let pcolor: u32 = match self.mode {
            crate::color::Mode::Drawing(color) => color.value(),
            crate::color::Mode::Erasing(_) => self.background_color.value(),
        };
        if let Preview::Line(x0, y0) = self.preview {
            line_fill(
                &mut self.screen,
                self.width,
                self.height,
                x0 as i64,
                y0 as i64,
                x1 as i64,
                y1 as i64,
                r as i64,
                false,
                pcolor,
            );
        }
    }

    /// Erase the line preview from its anchor toward the stored cursor
    /// position by restoring each touched pixel from the persisted
    /// buffer and background.
    fn delete_line_preview(&mut self)
        requires
            old(self).wf(),
        ensures
            final(self).wf(),
            *final(self) == (Canvas { screen: final(self).screen, ..*old(self) }),
            old(self).preview is Line ==> forall|px: int, py: int|
                0 <= px < old(self).wi() && 0 <= py < old(self).hi() ==> #[trigger] pix(
                    final(self).screen@,
                    old(self).wi(),
                    px,
                    py,
                ) == (if old(self).phit(old(self).cursor_x as int, old(self).cursor_y as int, px, py) {
                    restore_val(
                        old(self).drawing@,
                        old(self).wi(),
                        old(self).background_color.spec_value(),
                        px,
                        py,
                    )
                } else {
                    pix(old(self).screen@, old(self).wi(), px, py)
                }),
            !(old(self).preview is Line) ==> final(self).screen@ == old(self).screen@,
    {
        let r: i32 = self.get_radius_px();
        let bg: u32 = self.background_color.value();
        let cx: i32 = self.cursor_x;
        let cy: i32 = self.cursor_y;
        if let Preview::Line(x0, y0) = self.preview {
            line_restore(
                &mut self.screen,
                &self.drawing,
                self.width,
                self.height,
                x0 as i64,
                y0 as i64,
                cx as i64,
                cy as i64,
                r as i64,
                false,
                bg,
            );
        }
    }

    /// Redraw the line preview at a new cursor position: erase the one
    /// drawn toward the stored cursor, then paint toward `(x1, y1)`.
    pub fn update_line_preview(&mut self, x1: i32, y1: i32)
        requires
            old(self).wf(),
        ensures
            final(self).wf(),
            *final(self) == (Canvas { screen: final(self).screen, ..*old(self) }),
            old(self).preview is Line ==> forall|px: int, py: int|
                0 <= px < old(self).wi() && 0 <= py < old(self).hi() ==> #[trigger] pix(
                    final(self).screen@,
                    old(self).wi(),
                    px,
                    py,
                ) == (if old(self).phit(x1 as int, y1 as int, px, py) {
                    old(self).preview_color()
                } else if old(self).phit(old(self).cursor_x as int, old(self).cursor_y as int, px, py) {
                    restore_val(
                        old(self).drawing@,
                        old(self).wi(),
                        old(self).background_color.spec_value(),
                        px,
                        py,
                    )
                } else {
                    pix(old(self).screen@, old(self).wi(), px, py)
                }),
            !(old(self).preview is Line) ==> final(self).screen@ == old(self).screen@,
    {
        self.delete_line_preview();
        self.paint_line_preview(x1, y1);
    }

    /// Paint the square preview with corners at the anchor and
    /// `(x1, y1)` onto the presentable buffer.
    fn paint_square_preview(&mut self, x1: i32, y1: i32)
        requires
            old(self).wf(),
        ensures
            final(self).wf(),
            *final(self) == (Canvas { screen: final(self).screen, ..*old(self) }),
            old(self).preview is Square ==> forall|px: int, py: int|
                0 <= px < old(self).wi() && 0 <= py < old(self).hi() ==> #[trigger] pix(
                    final(self).screen@,
                    old(self).wi(),
                    px,
                    py,
                ) == (if old(self).phit(x1 as int, y1 as int, px, py) {
                    old(self).preview_color()
                } else {
                    pix(old(self).screen@, old(self).wi(), px, py)
                }),
            !(old(self).preview is Square) ==> final(self).screen@ == old(self).screen@,
    {
        let r: i32 = self.get_radius_px();
        let pcolor: u32 = match self.mode {
            crate::color::Mode::Drawing(color) => color.value(),
            crate::color::Mode::Erasing(_) => self.background_color.value(),
        };
        if let Preview::Square(x0, y0) = self.preview {
            square_fill(
                &mut self.screen,
                self.width,
                self.height,
                x0 as i64,
                y0 as i64,
                x1 as i64,
                y1 as i64,
                r as i64,
                pcolor,
            );
        }
    }

    /// Erase the square preview drawn toward the stored cursor position
    /// by restoring each touched pixel from the persisted buffer.
    fn delete_square_preview(&mut self)
        requires
            old(self).wf(),
        ensures
            final(self).wf(),
            *final(self) == (Canvas { screen: final(self).screen, ..*old(self) }),
            old(self).preview is Square ==> forall|px: int, py: int|
                0 <= px < old(self).wi() && 0 <= py < old(self).hi() ==> #[trigger] pix(
                    final(self).screen@,
                    old(self).wi(),
                    px,
                    py,
                ) == (if old(self).phit(old(self).cursor_x as int, old(self).cursor_y as int, px, py) {
                    restore_val(
                        old(self).drawing@,
                        old(self).wi(),
                        old(self).background_color.spec_value(),
                        px,
                        py,
                    )
                } else {
                    pix(old(self).screen@, old(self).wi(), px, py)
                }),
            !(old(self).preview is Square) ==> final(self).screen@ == old(self).screen@,
    {
        let r: i32 = self.get_radius_px();
        let bg: u32 = self.background_color.value();
        let cx: i32 = self.cursor_x;
        let cy: i32 = self.cursor_y;
        if let Preview::Square(x0, y0) = self.preview {
            square_restore(
                &mut self.screen,
                &self.drawing,
                self.width,
                self.height,
                x0 as i64,
                y0 as i64,
                cx as i64,
                cy as i64,
                r as i64,
                bg,
            );
        }
    }

    /// Redraw the square preview at a new cursor position.
    pub fn update_square_preview(&mut self, x1: i32, y1: i32)
        requires
            old(self).wf(),
        ensures
            final(self).wf(),
            *final(self) == (Canvas { screen: final(self).screen, ..*old(self) }),
            old(self).preview is Square ==> forall|px: int, py: int|
                0 <= px < old(self).wi() && 0 <= py < old(self).hi() ==> #[trigger] pix(
                    final(self).screen@,
                    old(self).wi(),
                    px,
                    py,
                ) == (if old(self).phit(x1 as int, y1 as int, px, py) {
                    old(self).preview_color()
                } else if old(self).phit(old(self).cursor_x as int, old(self).cursor_y as int, px, py) {
                    restore_val(
                        old(self).drawing@,
                        old(self).wi(),
                        old(self).background_color.spec_value(),
                        px,
                        py,
                    )
                } else {
                    pix(old(self).screen@, old(self).wi(), px, py)
                }),
            !(old(self).preview is Square) ==> final(self).screen@ == old(self).screen@,
    {
        self.delete_square_preview();
        self.paint_square_preview(x1, y1);
    }

    /// Redraw whatever preview is armed toward the stored cursor
    /// position; deleting and repainting toward the same point leaves
    /// exactly the preview overlay on the recomposed pixels.
    pub fn update_preview(&mut self)
        requires
            old(self).wf(),
        ensures
            final(self).wf(),
            *final(self) == (Canvas { screen: final(self).screen, ..*old(self) }),
            forall|px: int, py: int|
                0 <= px < old(self).wi() && 0 <= py < old(self).hi() ==> #[trigger] pix(
                    final(self).screen@,
                    old(self).wi(),
                    px,
                    py,
                ) == (if old(self).phit(old(self).cursor_x as int, old(self).cursor_y as int, px, py) {
                    old(self).preview_color()
                } else {
                    pix(old(self).screen@, old(self).wi(), px, py)
                }),
    {
        let cx: i32 = self.cursor_x;
        let cy: i32 = self.cursor_y;
        match self.preview {
            Preview::Line(_, _) => self.update_line_preview(cx, cy),
            Preview::Square(_, _) => self.update_square_preview(cx, cy),
            Preview::NoPreview => {},
        }
    }

    /// Erase whatever preview is armed, restoring every touched pixel
    /// from the persisted buffer and background.
    pub fn delete_preview(&mut self)
        requires
            old(self).wf(),
        ensures
            final(self).wf(),
            *final(self) == (Canvas { screen: final(self).screen, ..*old(self) }),
            forall|px: int, py: int|
                0 <= px < old(self).wi() && 0 <= py < old(self).hi() ==> #[trigger] pix(
                    final(self).screen@,
                    old(self).wi(),
                    px,
                    py,
                ) == (if old(self).phit(old(self).cursor_x as int, old(self).cursor_y as int, px, py) {
                    restore_val(
                        old(self).drawing@,
                        old(self).wi(),
                        old(self).background_color.spec_value(),
                        px,
                        py,
                    )
                } else {
                    pix(old(self).screen@, old(self).wi(), px, py)
                }),
    {
        match self.preview {
            Preview::Line(_, _) => self.delete_line_preview(),
            Preview::Square(_, _) => self.delete_square_preview(),
            Preview::NoPreview => {},
        }
    }

    /// Paint whatever preview is armed toward the stored cursor
    /// position, without erasing first.
    pub fn paint_preview(&mut self)
        requires
            old(self).wf(),
        ensures
            final(self).wf(),
            *final(self) == (Canvas { screen: final(self).screen, ..*old(self) }),
            forall|px: int, py: int|
                0 <= px < old(self).wi() && 0 <= py < old(self).hi() ==> #[trigger] pix(
                    final(self).screen@,
                    old(self).wi(),
                    px,
                    py,
                ) == (if old(self).phit(old(self).cursor_x as int, old(self).cursor_y as int, px, py) {
                    old(self).preview_color()
                } else {
                    pix(old(self).screen@, old(self).wi(), px, py)
                }),
    {
        let cx: i32 = self.cursor_x;
        let cy: i32 = self.cursor_y;
        match self.preview {
            Preview::Line(_, _) => self.paint_line_preview(cx, cy),
            Preview::Square(_, _) => self.paint_square_preview(cx, cy),
            Preview::NoPreview => {},
        }
    }

    /// Commit a square outline into the persisted buffer and onto the
    /// presentable buffer, with corners at the stored cursor position
    /// and `(x1, y1)`.
    pub fn paint_square(&mut self, x1: i32, y1: i32)
        requires
            old(self).wf(),
        ensures
            final(self).wf(),
            Canvas::same_config(*old(self), *final(self)),
            Canvas::same_input_state(*old(self), *final(self)),
            Canvas::same_history(*old(self), *final(self)),
            forall|px: int, py: int|
                0 <= px < old(self).wi() && 0 <= py < old(self).hi() ==> #[trigger] pix(
                    final(self).drawing@,
                    old(self).wi(),
                    px,
                    py,
                ) == (if square_hit(
                    old(self).wi(),
                    old(self).hi(),
                    old(self).brush_radius(),
                    old(self).cursor_x as int,
                    old(self).cursor_y as int,
                    x1 as int,
                    y1 as int,
                    px,
                    py,
                ) {
                    old(self).drawing_color()
                } else {
                    pix(old(self).drawing@, old(self).wi(), px, py)
                }),
            forall|px: int, py: int|
                0 <= px < old(self).wi() && 0 <= py < old(self).hi() ==> #[trigger] pix(
                    final(self).screen@,
                    old(self).wi(),
                    px,
                    py,
                ) == (if square_hit(
                    old(self).wi(),
                    old(self).hi(),
                    old(self).brush_radius(),
                    old(self).cursor_x as int,
                    old(self).cursor_y as int,
                    x1 as int,
                    y1 as int,
                    px,
                    py,
                ) {
                    old(self).screen_color()
                } else {
                    pix(old(self).screen@, old(self).wi(), px, py)
                }),
    {
        let r: i32 = self.get_radius_px();
        let (dcolor, scolor): (u32, u32) = match self.mode {
            crate::color::Mode::Drawing(color) => (color.value(), color.value()),
            crate::color::Mode::Erasing(_) => (0, self.background_color.value()),
        };
        let x0: i32 = self.cursor_x;
        let y0: i32 = self.cursor_y;
        square_fill(
            &mut self.drawing,
            self.width,
            self.height,
            x0 as i64,
            y0 as i64,
            x1 as i64,
            y1 as i64,
            r as i64,
            dcolor,
        );
        square_fill(
            &mut self.screen,
            self.width,
            self.height,
            x0 as i64,
            y0 as i64,
            x1 as i64,
            y1 as i64,
            r as i64,
            scolor,
        );
    }
}

/// Preview non-destructiveness: starting from a presentable buffer that
/// shows exactly the recomposed drawing, redrawing the armed preview
/// toward `a`, redrawing it again toward `b`, and then deleting it
/// leaves the presentable buffer showing exactly the recomposed drawing
/// again — previewing and cancelling leaves zero trace.
///
/// The hypotheses on `s1`, `s2` and `s3` are the contracts of
/// `update_line_preview`/`update_square_preview` (first toward `a` with
/// the cursor still at its press point, then toward `b` with the cursor
/// at `a`) and of `delete_preview` (with the cursor at `b`), stated over
/// the preview's pixel set `phit`, its paint color, and the restore
/// values read back from the persisted buffer.
pub proof fn lemma_preview_nondestructive(
    c: Canvas,
    a: (int, int),
    b: (int, int),
    s1: Seq<u32>,
    s2: Seq<u32>,
    s3: Seq<u32>,
)
    requires
        forall|px: int, py: int|
            0 <= px < c.wi() && 0 <= py < c.hi() ==> #[trigger] pix(c.screen@, c.wi(), px, py)
                == present_val(
                pix(c.drawing@, c.wi(), px, py),
                c.background_color.spec_value(),
            ),
        forall|px: int, py: int|
            0 <= px < c.wi() && 0 <= py < c.hi() ==> #[trigger] pix(s1, c.wi(), px, py) == (
            if c.phit(a.0, a.1, px, py) {
                c.preview_color()
            } else if c.phit(c.cursor_x as int, c.cursor_y as int, px, py) {
                restore_val(c.drawing@, c.wi(), c.background_color.spec_value(), px, py)
            } else {
                pix(c.screen@, c.wi(), px, py)
            }),
        forall|px: int, py: int|
            0 <= px < c.wi() && 0 <= py < c.hi() ==> #[trigger] pix(s2, c.wi(), px, py) == (
            if c.phit(b.0, b.1, px, py) {
                c.preview_color()
            } else if c.phit(a.0, a.1, px, py) {
                restore_val(c.drawing@, c.wi(), c.background_color.spec_value(), px, py)
            } else {
                pix(s1, c.wi(), px, py)
            }),
        forall|px: int, py: int|
            0 <= px < c.wi() && 0 <= py < c.hi() ==> #[trigger] pix(s3, c.wi(), px, py) == (
            if c.phit(b.0, b.1, px, py) {
                restore_val(c.drawing@, c.wi(), c.background_color.spec_value(), px, py)
            } else {
                pix(s2, c.wi(), px, py)
            }),
    ensures
        forall|px: int, py: int|
            0 <= px < c.wi() && 0 <= py < c.hi() ==> #[trigger] pix(s3, c.wi(), px, py)
                == present_val(
                pix(c.drawing@, c.wi(), px, py),
                c.background_color.spec_value(),
            ),
{
    assert forall|px: int, py: int| 0 <= px < c.wi() && 0 <= py < c.hi() implies #[trigger] pix(
        s3,
        c.wi(),
        px,
        py,
    ) == present_val(pix(c.drawing@, c.wi(), px, py), c.background_color.spec_value()) by {
        assert(pix(c.screen@, c.wi(), px, py) == present_val(
            pix(c.drawing@, c.wi(), px, py),
            c.background_color.spec_value(),
        ));
        assert(restore_val(c.drawing@, c.wi(), c.background_color.spec_value(), px, py)
            == present_val(pix(c.drawing@, c.wi(), px, py), c.background_color.spec_value()));
    }
}

} // verus!
