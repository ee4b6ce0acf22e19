//! Whole-canvas operations on the presentable surface: recomposition,
//! clearing, background and opacity changes, and resizing.

use vstd::prelude::*;

use super::Canvas;
use super::DEFAULT_RADIUS_MILLI;
use crate::color::Colors;
use crate::color::Mode;
use crate::raster::lemma_row_in_buf;
use crate::raster::pix;
use crate::surface::make_filled;
use crate::surface::opacified;
use crate::surface::present_val;
use crate::surface::rerender_all;
use crate::surface::resize_buffer;

verus! {

impl Canvas {
    /// Recompute every presentable pixel from the persisted buffer and
    /// background, then re-apply whatever preview is armed on top.
    pub fn rerender(&mut self)
        requires
            old(self).wf(),
        ensures
            final(self).wf(),
            *final(self) == (Canvas { screen: final(self).screen, ..*old(self) }),
            forall|px: int, py: int|
                0 <= px < old(self).wi() && 0 <= py < old(self).hi() ==> #[trigger] pix(
                    final(self).screen@,
                    old(self).wi(),
                    px,
                    py,
                ) == (if old(self).phit(old(self).cursor_x as int, old(self).cursor_y as int, px, py) {
                    old(self).preview_color()
                } else {
                    present_val(pix(old(self).drawing@, old(self).wi(), px, py), old(self).background_color.spec_value())
                }),
    {
        let bg: u32 = self.background_color.value();
        let ghost wi = self.wi();
        let ghost hi = self.hi();
        let ghost d = self.drawing@;
        rerender_all(&mut self.screen, &self.drawing, bg);
        proof {
            assert forall|px: int, py: int| 0 <= px < wi && 0 <= py < hi implies #[trigger] pix(
                self.screen@,
                wi,
                px,
                py,
            ) == present_val(pix(d, wi, px, py), bg) by {
                lemma_row_in_buf(wi, hi, py, px);
            }
        }
        self.update_preview();
    }

    /// Blank the canvas content: every persisted pixel becomes the
    /// empty sentinel and every presentable pixel the background color.
    /// History, mode, radius and background are untouched.
    pub fn clear(&mut self)
        requires
            old(self).wf(),
        ensures
            final(self).wf(),
            *final(self) == (Canvas {
                drawing: final(self).drawing,
                screen: final(self).screen,
                ..*old(self)
            }),
            final(self).drawing@ == Seq::new(old(self).area() as nat, |i: int| 0u32),
            final(self).screen@ == Seq::new(
                old(self).area() as nat,
                |i: int| old(self).background_color.spec_value(),
            ),
    {
        let bg: u32 = self.background_color.value();
        crate::surface::fill_all(&mut self.drawing, 0);
        crate::surface::fill_all(&mut self.screen, bg);
    }

    /// Change the background color and recompose the presentable
    /// surface, re-applying any armed preview.
    pub fn set_background_color(&mut self, color: Colors)
        requires
            old(self).wf(),
        ensures
            final(self).wf(),
            *final(self) == (Canvas {
                background_color: color,
                screen: final(self).screen,
                ..*old(self)
            }),
            forall|px: int, py: int|
                0 <= px < old(self).wi() && 0 <= py < old(self).hi() ==> #[trigger] pix(
                    final(self).screen@,
                    old(self).wi(),
                    px,
                    py,
                ) == (if old(self).phit(old(self).cursor_x as int, old(self).cursor_y as int, px, py) {
                    final(self).preview_color()
                } else {
                    present_val(pix(old(self).drawing@, old(self).wi(), px, py), color.spec_value())
                }),
    {
        self.background_color = color;
        let ghost mid = *self;
        self.rerender();
        proof {
            assert forall|px: int, py: int|
                0 <= px < old(self).wi() && 0 <= py < old(self).hi() implies #[trigger] pix(
                self.screen@,
                old(self).wi(),
                px,
                py,
            ) == (if old(self).phit(old(self).cursor_x as int, old(self).cursor_y as int, px, py) {
                self.preview_color()
            } else {
                present_val(pix(old(self).drawing@, old(self).wi(), px, py), color.spec_value())
            }) by {
                assert(pix(self.screen@, mid.wi(), px, py) == pix(self.screen@, old(self).wi(), px, py));
            }
        }
    }

    /// Force the given opacity into every presentable pixel's alpha
    /// channel; a fully transparent background stays fully transparent.
    pub fn set_opacity(&mut self, opacity: u8)
        requires
            old(self).wf(),
        ensures
            final(self).wf(),
            *final(self) == (Canvas { screen: final(self).screen, ..*old(self) }),
            final(self).screen@ == opacified(
                old(self).drawing@,
                old(self).background_color.spec_value(),
                opacity,
            ),
    {
        let bg: u32 = self.background_color.value();
        crate::surface::opacify_all(&mut self.screen, &self.drawing, bg, opacity);
    }

    /// Resize the canvas: the persisted buffer keeps every pixel of the
    /// overlapping top-left rectangle and fills everything else with the
    /// empty sentinel, the presentable surface is recomposed, and both
    /// history stacks are discarded, as their entries encode buffers of
    /// the old size.
    pub fn resize(&mut self, width: i32, height: i32)
        requires
            old(self).wf(),
            1 <= width,
            1 <= height,
            (width as int) * (height as int) <= i32::MAX,
        ensures
            final(self).wf(),
            final(self).width == width,
            final(self).height == height,
            final(self).radius_milli == old(self).radius_milli,
            final(self).mode == old(self).mode,
            final(self).background_color == old(self).background_color,
            final(self).max_history == old(self).max_history,
            Canvas::same_input_state(*old(self), *final(self)),
            final(self).undo_view() == Seq::<Seq<(u32, u32)>>::empty(),
            final(self).redo_view() == Seq::<Seq<(u32, u32)>>::empty(),
            forall|px: int, py: int|
                0 <= px < width && 0 <= py < height ==> #[trigger] pix(
                    final(self).drawing@,
                    width as int,
                    px,
                    py,
                ) == (if px < old(self).width && py < old(self).height {
                    pix(old(self).drawing@, old(self).wi(), px, py)
                } else {
                    0u32
                }),
            forall|px: int, py: int|
                0 <= px < width && 0 <= py < height ==> #[trigger] pix(
                    final(self).screen@,
                    width as int,
                    px,
                    py,
                ) == (if final(self).phit(old(self).cursor_x as int, old(self).cursor_y as int, px, py) {
                    final(self).preview_color()
                } else {
                    present_val(
                        pix(final(self).drawing@, width as int, px, py),
                        old(self).background_color.spec_value(),
                    )
                }),
    {
        proof {
            assert((width as usize) * (height as usize) == (width as int) * (height as int))
                by (nonlinear_arith)
                requires
                    1 <= width,
                    1 <= height,
            ;
        }
        let resized: Vec<u32> = resize_buffer(&self.drawing, self.width, self.height, width, height);
        self.drawing = resized;
        self.screen = make_filled((width as usize) * (height as usize), 0);
        self.width = width;
        self.height = height;
        self.undo_history.clear();
        self.redo_history.clear();
        proof {
            assert(self.undo_view() =~= Seq::<Seq<(u32, u32)>>::empty());
            assert(self.redo_view() =~= Seq::<Seq<(u32, u32)>>::empty());
        }
        self.rerender();
    }

    /// Restore the default brush and colors, blank both buffers and
    /// discard both history stacks, as when a fresh overlay session
    /// starts.
    pub fn reset(&mut self)
        requires
            old(self).wf(),
        ensures
            final(self).wf(),
            *final(self) == (Canvas {
                drawing: final(self).drawing,
                screen: final(self).screen,
                undo_history: final(self).undo_history,
                redo_history: final(self).redo_history,
                mode: Mode::Drawing(Colors::RED),
                radius_milli: DEFAULT_RADIUS_MILLI,
                background_color: Colors::TRANSPARENT,
                ..*old(self)
            }),
            final(self).drawing@ == Seq::new(old(self).area() as nat, |i: int| 0u32),
            final(self).screen@ == Seq::new(old(self).area() as nat, |i: int| 0u32),
            final(self).undo_view() == Seq::<Seq<(u32, u32)>>::empty(),
            final(self).redo_view() == Seq::<Seq<(u32, u32)>>::empty(),
    {
        self.mode = Mode::Drawing(Colors::RED);
        self.radius_milli = DEFAULT_RADIUS_MILLI;
        crate::surface::fill_all(&mut self.screen, 0);
        crate::surface::fill_all(&mut self.drawing, 0);
        self.background_color = Colors::TRANSPARENT;
        self.undo_history.clear();
        self.redo_history.clear();
        proof {
            assert(self.undo_view() =~= Seq::<Seq<(u32, u32)>>::empty());
            assert(self.redo_view() =~= Seq::<Seq<(u32, u32)>>::empty());
        }
    }
}

} // verus!
