//! The input state machine: pointer motion and button transitions.
//!
//! A press with no modifier starts a freehand stroke (saving undo state
//! and stamping a dot); a press with SHIFT or CONTROL arms a line or
//! square preview; motion while held either extends the stroke or
//! redraws the preview; release commits an armed preview into the
//! persisted buffer.  Stroking and previewing never overlap.

use vstd::prelude::*;

use super::undo::hist_push;
use super::Canvas;
use super::Preview;
use super::HISTORY_CAPACITY;
use crate::input::ButtonState;
use crate::input::MouseButton;
use crate::input::PressModifiers;
use crate::raster::disc_hit;
use crate::raster::line_hit;
use crate::raster::pix;
use crate::raster::restore_val;
use crate::raster::square_hit;
use crate::rle::rle_encode;

verus! {

impl Canvas {
    /// Track pointer motion: while the button is held this extends the
    /// freehand stroke from the stored cursor position, or redraws the
    /// armed preview toward the new position; the stored cursor position
    /// is updated in every case.
    pub fn cursor_moved(&mut self, x: i32, y: i32)
        requires
            old(self).wf(),
        ensures
            final(self).wf(),
            Canvas::same_config(*old(self), *final(self)),
            Canvas::same_history(*old(self), *final(self)),
            final(self).is_clicked == old(self).is_clicked,
            final(self).preview == old(self).preview,
            final(self).cursor_x == x,
            final(self).cursor_y == y,
            !old(self).is_clicked ==> final(self).drawing@ == old(self).drawing@
                && final(self).screen@ == old(self).screen@,
            old(self).is_clicked && old(self).preview is NoPreview ==> forall|px: int, py: int|
                0 <= px < old(self).wi() && 0 <= py < old(self).hi() ==> #[trigger] pix(
                    final(self).drawing@,
                    old(self).wi(),
                    px,
                    py,
                ) == (if line_hit(
                    old(self).wi(),
                    old(self).hi(),
                    old(self).brush_radius(),
                    old(self).cursor_x as int,
                    old(self).cursor_y as int,
                    x as int,
                    y as int,
                    true,
                    px,
                    py,
                ) {
                    old(self).drawing_color()
                } else {
                    pix(old(self).drawing@, old(self).wi(), px, py)
                }),
            old(self).is_clicked && old(self).preview is NoPreview ==> forall|px: int, py: int|
                0 <= px < old(self).wi() && 0 <= py < old(self).hi() ==> #[trigger] pix(
                    final(self).screen@,
                    old(self).wi(),
                    px,
                    py,
                ) == (if line_hit(
                    old(self).wi(),
                    old(self).hi(),
                    old(self).brush_radius(),
                    old(self).cursor_x as int,
                    old(self).cursor_y as int,
                    x as int,
                    y as int,
                    true,
                    px,
                    py,
                ) {
                    old(self).screen_color()
                } else {
                    pix(old(self).screen@, old(self).wi(), px, py)
                }),
            old(self).is_clicked && !(old(self).preview is NoPreview) ==> final(self).drawing@
                == old(self).drawing@ && forall|px: int, py: int|
                0 <= px < old(self).wi() && 0 <= py < old(self).hi() ==> #[trigger] pix(
                    final(self).screen@,
                    old(self).wi(),
                    px,
                    py,
                ) == (if old(self).phit(x as int, y as int, px, py) {
                    old(self).preview_color()
                } else if old(self).phit(old(self).cursor_x as int, old(self).cursor_y as int, px, py) {
                    restore_val(
                        old(self).drawing@,
                        old(self).wi(),
                        old(self).background_color.spec_value(),
                        px,
                        py,
                    )
                } else {
                    pix(old(self).screen@, old(self).wi(), px, py)
                }),
    {
        if self.is_clicked {
            match self.preview {
                Preview::Line(_, _) => self.update_line_preview(x, y),
                Preview::Square(_, _) => self.update_square_preview(x, y),
                Preview::NoPreview => self.paint_line(x, y),
            }
        }
        self.cursor_x = x;
        self.cursor_y = y;
    }

    /// React to a button transition.  A left press with SHIFT or
    /// CONTROL arms a line or square preview anchored at the cursor;
    /// with any other modifier set it saves undo state and stamps a
    /// single dot.  A left release commits an armed preview as a real
    /// stroke (saving undo state first), and always disarms the preview
    /// and clears the click flag.  Other buttons change nothing.
    pub fn mouse_pressed(
        &mut self,
        state: ButtonState,
        button: MouseButton,
        modifiers: PressModifiers,
    )
        requires
            old(self).wf(),
        ensures
            final(self).wf(),
            Canvas::same_config(*old(self), *final(self)),
            final(self).cursor_x == old(self).cursor_x,
            final(self).cursor_y == old(self).cursor_y,
            button != MouseButton::Left ==> *final(self) == *old(self),
            // left press
            state == ButtonState::Pressed && button == MouseButton::Left ==> {
                &&& final(self).is_clicked
                &&& (modifiers == PressModifiers::Shift ==> *final(self) == (Canvas {
                    is_clicked: true,
                    preview: Preview::Line(old(self).cursor_x, old(self).cursor_y),
                    ..*old(self)
                }))
                &&& (modifiers == PressModifiers::Control ==> *final(self) == (Canvas {
                    is_clicked: true,
                    preview: Preview::Square(old(self).cursor_x, old(self).cursor_y),
                    ..*old(self)
                }))
                &&& (modifiers != PressModifiers::Shift && modifiers != PressModifiers::Control
                    ==> {
                    &&& final(self).preview == old(self).preview
                    &&& final(self).undo_view() == hist_push(
                        old(self).undo_view(),
                        rle_encode(old(self).drawing@),
                        HISTORY_CAPACITY as int,
                    )
                    &&& final(self).redo_view() == Seq::<Seq<(u32, u32)>>::empty()
                    &&& forall|px: int, py: int|
                        0 <= px < old(self).wi() && 0 <= py < old(self).hi() ==> #[trigger] pix(
                            final(self).drawing@,
                            old(self).wi(),
                            px,
                            py,
                        ) == (if disc_hit(
                            old(self).wi(),
                            old(self).hi(),
                            old(self).cursor_x as int,
                            old(self).cursor_y as int,
                            old(self).brush_radius(),
                            px,
                            py,
                        ) {
                            old(self).drawing_color()
                        } else {
                            pix(old(self).drawing@, old(self).wi(), px, py)
                        })
                    &&& forall|px: int, py: int|
                        0 <= px < old(self).wi() && 0 <= py < old(self).hi() ==> #[trigger] pix(
                            final(self).screen@,
                            old(self).wi(),
                            px,
                            py,
                        ) == (if disc_hit(
                            old(self).wi(),
                            old(self).hi(),
                            old(self).cursor_x as int,
                            old(self).cursor_y as int,
                            old(self).brush_radius(),
                            px,
                            py,
                        ) {
                            old(self).screen_color()
                        } else {
                            pix(old(self).screen@, old(self).wi(), px, py)
                        })
                })
            },
            // left release
            state == ButtonState::Released && button == MouseButton::Left ==> {
                &&& !final(self).is_clicked
                &&& final(self).preview == Preview::NoPreview
                &&& (old(self).preview is NoPreview ==> *final(self) == (Canvas {
                    is_clicked: false,
                    preview: Preview::NoPreview,
                    ..*old(self)
                }))
                &&& (!(old(self).preview is NoPreview) ==> final(self).undo_view() == hist_push(
                    old(self).undo_view(),
                    rle_encode(old(self).drawing@),
                    HISTORY_CAPACITY as int,
                ) && final(self).redo_view() == Seq::<Seq<(u32, u32)>>::empty())
                &&& (old(self).preview matches Preview::Line(ax, ay) ==> forall|px: int, py: int|
                    0 <= px < old(self).wi() && 0 <= py < old(self).hi() ==> #[trigger] pix(
                        final(self).drawing@,
                        old(self).wi(),
                        px,
                        py,
                    ) == (if line_hit(
                        old(self).wi(),
                        old(self).hi(),
                        old(self).brush_radius(),
                        old(self).cursor_x as int,
                        old(self).cursor_y as int,
                        ax as int,
                        ay as int,
                        true,
                        px,
                        py,
                    ) {
                        old(self).drawing_color()
                    } else {
                        pix(old(self).drawing@, old(self).wi(), px, py)
                    }))
                &&& (old(self).preview matches Preview::Line(ax, ay) ==> forall|px: int, py: int|
                    0 <= px < old(self).wi() && 0 <= py < old(self).hi() ==> #[trigger] pix(
                        final(self).screen@,
                        old(self).wi(),
                        px,
                        py,
                    ) == (if line_hit(
                        old(self).wi(),
                        old(self).hi(),
                        old(self).brush_radius(),
                        old(self).cursor_x as int,
                        old(self).cursor_y as int,
                        ax as int,
                        ay as int,
                        true,
                        px,
                        py,
                    ) {
                        old(self).screen_color()
                    } else {
                        pix(old(self).screen@, old(self).wi(), px, py)
                    }))
                &&& (old(self).preview matches Preview::Square(ax, ay) ==> forall|px: int, py: int|
                    0 <= px < old(self).wi() && 0 <= py < old(self).hi() ==> #[trigger] pix(
                        final(self).drawing@,
                        old(self).wi(),
                        px,
                        py,
                    ) == (if square_hit(
                        old(self).wi(),
                        old(self).hi(),
                        old(self).brush_radius(),
                        old(self).cursor_x as int,
                        old(self).cursor_y as int,
                        ax as int,
                        ay as int,
                        px,
                        py,
                    ) {
                        old(self).drawing_color()
                    } else {
                        pix(old(self).drawing@, old(self).wi(), px, py)
                    }))
                &&& (old(self).preview matches Preview::Square(ax, ay) ==> forall|px: int, py: int|
                    0 <= px < old(self).wi() && 0 <= py < old(self).hi() ==> #[trigger] pix(
                        final(self).screen@,
                        old(self).wi(),
                        px,
                        py,
                    ) == (if square_hit(
                        old(self).wi(),
                        old(self).hi(),
                        old(self).brush_radius(),
                        old(self).cursor_x as int,
                        old(self).cursor_y as int,
                        ax as int,
                        ay as int,
                        px,
                        py,
                    ) {
                        old(self).screen_color()
                    } else {
                        pix(old(self).screen@, old(self).wi(), px, py)
                    }))
            },
    {
        if state == ButtonState::Pressed {
            match button {
                MouseButton::Left => {
                    self.is_clicked = true;
                    match modifiers {
                        PressModifiers::Shift => {
                            self.preview = Preview::Line(self.cursor_x, self.cursor_y);
                        },
                        PressModifiers::Control => {
                            self.preview = Preview::Square(self.cursor_x, self.cursor_y);
                        },
                        _ => {
                            // saving the state here and not while previewing keeps
                            // an undo during a preview from corrupting the history
                            self.save_state();
                            let ghost mid = *self;
                            let cx: i32 = self.cursor_x;
                            let cy: i32 = self.cursor_y;
                            self.paint_circle(cx, cy);
                            proof {
                                assert forall|px: int, py: int|
                                    0 <= px < old(self).wi() && 0 <= py < old(self).hi() implies {
                                    &&& pix(self.drawing@, old(self).wi(), px, py) == (if disc_hit(
                                        old(self).wi(),
                                        old(self).hi(),
                                        old(self).cursor_x as int,
                                        old(self).cursor_y as int,
                                        old(self).brush_radius(),
                                        px,
                                        py,
                                    ) {
                                        old(self).drawing_color()
                                    } else {
                                        pix(old(self).drawing@, old(self).wi(), px, py)
                                    })
                                    &&& pix(self.screen@, old(self).wi(), px, py) == (if disc_hit(
                                        old(self).wi(),
                                        old(self).hi(),
                                        old(self).cursor_x as int,
                                        old(self).cursor_y as int,
                                        old(self).brush_radius(),
                                        px,
                                        py,
                                    ) {
                                        old(self).screen_color()
                                    } else {
                                        pix(old(self).screen@, old(self).wi(), px, py)
                                    })
                                } by {
                                    assert(pix(self.drawing@, mid.wi(), px, py) == pix(
                                        self.drawing@,
                                        old(self).wi(),
                                        px,
                                        py,
                                    ));
                                    assert(pix(self.screen@, mid.wi(), px, py) == pix(
                                        self.screen@,
                                        old(self).wi(),
                                        px,
                                        py,
                                    ));
                                }
                            }
                        },
                    }
                },
                _ => {},
            }
        } else {
            match button {
                MouseButton::Left => {
                    match self.preview {
                        Preview::Line(ax, ay) => {
                            self.save_state();
                            let ghost mid = *self;
                            self.paint_line(ax, ay);
                            proof {
                                assert forall|px: int, py: int|
                                    0 <= px < old(self).wi() && 0 <= py < old(self).hi() implies pix(
                                    self.drawing@,
                                    old(self).wi(),
                                    px,
                                    py,
                                ) == (if line_hit(
                                    old(self).wi(),
                                    old(self).hi(),
                                    old(self).brush_radius(),
                                    old(self).cursor_x as int,
                                    old(self).cursor_y as int,
                                    ax as int,
                                    ay as int,
                                    true,
                                    px,
                                    py,
                                ) {
                                    old(self).drawing_color()
                                } else {
                                    pix(old(self).drawing@, old(self).wi(), px, py)
                                }) by {
                                    assert(pix(self.drawing@, mid.wi(), px, py) == pix(
                                        self.drawing@,
                                        old(self).wi(),
                                        px,
                                        py,
                                    ));
                                }
                                assert forall|px: int, py: int|
                                    0 <= px < old(self).wi() && 0 <= py < old(self).hi() implies pix(
                                    self.screen@,
                                    old(self).wi(),
                                    px,
                                    py,
                                ) == (if line_hit(
                                    old(self).wi(),
                                    old(self).hi(),
                                    old(self).brush_radius(),
                                    old(self).cursor_x as int,
                                    old(self).cursor_y as int,
                                    ax as int,
                                    ay as int,
                                    true,
                                    px,
                                    py,
                                ) {
                                    old(self).screen_color()
                                } else {
                                    pix(old(self).screen@, old(self).wi(), px, py)
                                }) by {
                                    assert(pix(self.screen@, mid.wi(), px, py) == pix(
                                        self.screen@,
                                        old(self).wi(),
                                        px,
                                        py,
                                    ));
                                }
                            }
                        },
                        Preview::Square(ax, ay) => {
                            self.save_state();
                            let ghost mid = *self;
                            self.paint_square(ax, ay);
                            proof {
                                assert forall|px: int, py: int|
                                    0 <= px < old(self).wi() && 0 <= py < old(self).hi() implies pix(
                                    self.drawing@,
                                    old(self).wi(),
                                    px,
                                    py,
                                ) == (if square_hit(
                                    old(self).wi(),
                                    old(self).hi(),
                                    old(self).brush_radius(),
                                    old(self).cursor_x as int,
                                    old(self).cursor_y as int,
                                    ax as int,
                                    ay as int,
                                    px,
                                    py,
                                ) {
                                    old(self).drawing_color()
                                } else {
                                    pix(old(self).drawing@, old(self).wi(), px, py)
                                }) by {
                                    assert(pix(self.drawing@, mid.wi(), px, py) == pix(
                                        self.drawing@,
                                        old(self).wi(),
                                        px,
                                        py,
                                    ));
                                }
                                assert forall|px: int, py: int|
                                    0 <= px < old(self).wi() && 0 <= py < old(self).hi() implies pix(
                                    self.screen@,
                                    old(self).wi(),
                                    px,
                                    py,
                                ) == (if square_hit(
                                    old(self).wi(),
                                    old(self).hi(),
                                    old(self).brush_radius(),
                                    old(self).cursor_x as int,
                                    old(self).cursor_y as int,
                                    ax as int,
                                    ay as int,
                                    px,
                                    py,
                                ) {
                                    old(self).screen_color()
                                } else {
                                    pix(old(self).screen@, old(self).wi(), px, py)
                                }) by {
                                    assert(pix(self.screen@, mid.wi(), px, py) == pix(
                                        self.screen@,
                                        old(self).wi(),
                                        px,
                                        py,
                                    ));
                                }
                            }
                        },
                        Preview::NoPreview => {},
                    }
                    self.preview = Preview::NoPreview;
                    self.is_clicked = false;
                },
                _ => {},
            }
        }
    }
}

} // verus!
