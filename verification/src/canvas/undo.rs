//! Bounded undo/redo history of run-length-encoded snapshots, and the
//! inverse laws that make undo and redo exact opposites.

use vstd::prelude::*;

use super::entries_wf;
use super::Canvas;
use super::Preview;
use super::HISTORY_CAPACITY;
use crate::raster::lemma_row_in_buf;
use crate::raster::pix;
use crate::rle::lemma_rle_decode_len;
use crate::rle::lemma_rle_round_trip;
use crate::rle::lemma_rle_sum_encode;
use crate::rle::rle_compress;
use crate::rle::rle_decode;
use crate::rle::rle_decompress;
use crate::rle::rle_encode;
use crate::rle::rle_sum;
use crate::surface::present_val;

verus! {

/// The state the history operations act on: the two stacks of encoded
/// snapshots and the live drawing buffer.
#[verifier::ext_equal]
pub struct HistView {
    pub undo: Seq<Seq<(u32, u32)>>,
    pub redo: Seq<Seq<(u32, u32)>>,
    pub drawing: Seq<u32>,
}

/// Push an entry onto a bounded stack, evicting the oldest (bottom)
/// entry when the stack is at capacity.
pub open spec fn hist_push(
    stack: Seq<Seq<(u32, u32)>>,
    e: Seq<(u32, u32)>,
    cap: int,
) -> Seq<Seq<(u32, u32)>> {
    if stack.len() >= cap {
        stack.subrange(1, stack.len() as int).push(e)
    } else {
        stack.push(e)
    }
}

/// One undo transfer: compress the live buffer onto the redo stack, pop
/// the undo stack and decode it into the live buffer.  With an empty
/// undo stack the drawing falls back to a cleared buffer, the stacks
/// untouched.
pub open spec fn hist_undo(v: HistView) -> HistView {
    if v.undo.len() == 0 {
        HistView { drawing: Seq::new(v.drawing.len(), |i: int| 0u32), ..v }
    } else {
        HistView {
            undo: v.undo.drop_last(),
            redo: v.redo.push(rle_encode(v.drawing)),
            drawing: rle_decode(v.undo.last()),
        }
    }
}

/// One redo transfer, the mirror image of `hist_undo`.
pub open spec fn hist_redo(v: HistView) -> HistView {
    if v.redo.len() == 0 {
        v
    } else {
        HistView {
            undo: v.undo.push(rle_encode(v.drawing)),
            redo: v.redo.drop_last(),
            drawing: rle_decode(v.redo.last()),
        }
    }
}

/// Starting a new stroke: the pre-stroke state goes onto the undo stack
/// (with eviction) and the redo stack is discarded.
pub open spec fn hist_save(v: HistView, cap: int) -> HistView {
    HistView {
        undo: hist_push(v.undo, rle_encode(v.drawing), cap),
        redo: Seq::empty(),
        drawing: v.drawing,
    }
}

/// The full undo operation: the undo transfer, followed — when a
/// freehand stroke is in progress — by capturing the restored buffer
/// back onto the undo stack so a later redo is not lost mid-stroke.
pub open spec fn hist_undo_op(v: HistView, capture: bool, cap: int) -> HistView {
    let u = hist_undo(v);
    if capture {
        HistView { undo: hist_push(u.undo, rle_encode(u.drawing), cap), ..u }
    } else {
        u
    }
}

/// Undo/redo inverse law: after any undo from a state with at least one
/// committed snapshot, a redo restores the drawing buffer to its
/// pre-undo contents exactly, whether or not the undo also captured an
/// in-progress stroke.
pub proof fn lemma_undo_redo_inverse(v: HistView, capture: bool, cap: int)
    requires
        v.undo.len() > 0,
        v.drawing.len() <= u32::MAX,
    ensures
        hist_redo(hist_undo_op(v, capture, cap)).drawing == v.drawing,
{
    lemma_rle_round_trip(v.drawing);
}

/// Redo after a new stroke is a no-op: committing a stroke discards the
/// redo stack, and a redo with an empty redo stack changes nothing.
pub proof fn lemma_redo_noop_after_save(v: HistView, cap: int)
    ensures
        hist_redo(hist_save(v, cap)) == hist_save(v, cap),
{
}

impl Canvas {
    /// The history state of this canvas.
    pub open spec fn hist(&self) -> HistView {
        HistView { undo: self.undo_view(), redo: self.redo_view(), drawing: self.drawing@ }
    }

    /// Compress the live drawing buffer into a history entry.
    fn compress_current_state(&self) -> (e: Vec<(u32, u32)>)
        requires
            self.wf(),
        ensures
            e@ == rle_encode(self.drawing@),
    {
        proof {
            lemma_row_in_buf(self.wi(), self.hi(), 0, 0);
        }
        rle_compress(&self.drawing)
    }

    /// Decode a history entry into the live drawing buffer.
    fn decompress_state(&mut self, compressed: &Vec<(u32, u32)>)
        requires
            old(self).wf(),
            rle_sum(compressed@) == old(self).area(),
        ensures
            final(self).wf(),
            *final(self) == (Canvas { drawing: final(self).drawing, ..*old(self) }),
            final(self).drawing@ == rle_decode(compressed@),
    {
        proof {
            lemma_rle_decode_len(compressed@);
        }
        rle_decompress(&mut self.drawing, compressed);
    }

    /// Append the compressed live buffer to the undo stack, evicting the
    /// oldest entry at capacity; the redo stack is left alone.
    fn add_to_hist(&mut self)
        requires
            old(self).wf(),
        ensures
            final(self).wf(),
            *final(self) == (Canvas { undo_history: final(self).undo_history, ..*old(self) }),
            final(self).undo_view() == hist_push(
                old(self).undo_view(),
                rle_encode(old(self).drawing@),
                HISTORY_CAPACITY as int,
            ),
    {
        let ghost u0 = self.undo_view();
        if self.undo_history.len() >= self.max_history {
            self.undo_history.remove(0);
            proof {
                assert(self.undo_view() =~= u0.subrange(1, u0.len() as int));
            }
        }
        let ghost u1 = self.undo_view();
        let e = self.compress_current_state();
        self.undo_history.push(e);
        proof {
            assert(self.undo_view() =~= u1.push(rle_encode(self.drawing@)));
            lemma_row_in_buf(self.wi(), self.hi(), 0, 0);
            lemma_rle_sum_encode(self.drawing@);
            assert(entries_wf(self.undo_view(), self.area()));
        }
    }

    /// Record the pre-stroke state: discard the redo stack and push the
    /// compressed live buffer onto the undo stack.
    pub fn save_state(&mut self)
        requires
            old(self).wf(),
        ensures
            final(self).wf(),
            *final(self) == (Canvas {
                undo_history: final(self).undo_history,
                redo_history: final(self).redo_history,
                ..*old(self)
            }),
            final(self).hist() == hist_save(old(self).hist(), HISTORY_CAPACITY as int),
    {
        self.redo_history.clear();
        proof {
            assert(self.redo_view() =~= Seq::<Seq<(u32, u32)>>::empty());
        }
        self.add_to_hist();
        proof {
            assert(final(self).hist() =~~= hist_save(old(self).hist(), HISTORY_CAPACITY as int));
        }
    }

    /// Undo the last committed stroke: move the compressed live buffer
    /// to the redo stack, restore the top undo snapshot and recompose
    /// the presentable surface.  With an empty undo stack the canvas
    /// falls back to clearing its content, as a convenience.  During a
    /// freehand stroke the restored state is captured back onto the
    /// undo stack so the redo chain survives the interruption.
    pub fn undo(&mut self)
        requires
            old(self).wf(),
        ensures
            final(self).wf(),
            Canvas::same_config(*old(self), *final(self)),
            Canvas::same_input_state(*old(self), *final(self)),
            final(self).hist() == hist_undo_op(
                old(self).hist(),
                old(self).is_clicked && old(self).preview is NoPreview,
                HISTORY_CAPACITY as int,
            ),
            old(self).undo_view().len() == 0 ==> final(self).screen@ == Seq::new(
                old(self).area() as nat,
                |i: int| old(self).background_color.spec_value(),
            ),
            old(self).undo_view().len() > 0 ==> forall|px: int, py: int|
                0 <= px < old(self).wi() && 0 <= py < old(self).hi() ==> #[trigger] pix(
                    final(self).screen@,
                    old(self).wi(),
                    px,
                    py,
                ) == (if old(self).phit(old(self).cursor_x as int, old(self).cursor_y as int, px, py) {
                    old(self).preview_color()
                } else {
                    present_val(
                        pix(final(self).drawing@, old(self).wi(), px, py),
                        old(self).background_color.spec_value(),
                    )
                }),
    {
        let ghost h0 = self.hist();
        let popped = self.undo_history.pop();
        proof {
            if h0.undo.len() > 0 {
                assert(self.undo_view() =~= h0.undo.drop_last());
                assert(popped is Some && popped.unwrap()@ == h0.undo.last());
            } else {
                assert(self.undo_view() =~= h0.undo);
            }
        }
        if popped.is_none() {
            // no snapshot to restore: fall back to blanking the canvas
            self.clear();
        }
        if let Some(buffer) = popped {
            let cur = self.compress_current_state();
            self.redo_history.push(cur);
            proof {
                assert(self.redo_view() =~= h0.redo.push(rle_encode(h0.drawing)));
                lemma_row_in_buf(self.wi(), self.hi(), 0, 0);
                lemma_rle_sum_encode(self.drawing@);
                assert(entries_wf(self.redo_view(), self.area()));
            }
            self.decompress_state(&buffer);
            let ghost mid = *self;
            self.rerender();
            proof {
                assert forall|px: int, py: int|
                    0 <= px < old(self).wi() && 0 <= py < old(self).hi() implies #[trigger] pix(
                    self.screen@,
                    old(self).wi(),
                    px,
                    py,
                ) == (if old(self).phit(old(self).cursor_x as int, old(self).cursor_y as int, px, py) {
                    old(self).preview_color()
                } else {
                    present_val(
                        pix(self.drawing@, old(self).wi(), px, py),
                        old(self).background_color.spec_value(),
                    )
                }) by {
                    assert(pix(self.screen@, mid.wi(), px, py) == pix(
                        self.screen@,
                        old(self).wi(),
                        px,
                        py,
                    ));
                }
            }
        }
        let capture: bool = self.is_clicked && self.preview == Preview::NoPreview;
        if capture {
            self.add_to_hist();
        }
        proof {
            assert(final(self).hist() =~~= hist_undo_op(
                h0,
                old(self).is_clicked && old(self).preview is NoPreview,
                HISTORY_CAPACITY as int,
            ));
        }
    }

    /// Redo the last undone stroke: the mirror image of `undo`, with no
    /// mid-stroke capture.
    pub fn redo(&mut self)
        requires
            old(self).wf(),
        ensures
            final(self).wf(),
            Canvas::same_config(*old(self), *final(self)),
            Canvas::same_input_state(*old(self), *final(self)),
            final(self).hist() == hist_redo(old(self).hist()),
            old(self).redo_view().len() == 0 ==> final(self).screen@ == old(self).screen@,
            old(self).redo_view().len() > 0 ==> forall|px: int, py: int|
                0 <= px < old(self).wi() && 0 <= py < old(self).hi() ==> #[trigger] pix(
                    final(self).screen@,
                    old(self).wi(),
                    px,
                    py,
                ) == (if old(self).phit(old(self).cursor_x as int, old(self).cursor_y as int, px, py) {
                    old(self).preview_color()
                } else {
                    present_val(
                        pix(final(self).drawing@, old(self).wi(), px, py),
                        old(self).background_color.spec_value(),
                    )
                }),
    {
        let ghost h0 = self.hist();
        let popped = self.redo_history.pop();
        proof {
            if h0.redo.len() > 0 {
                assert(self.redo_view() =~= h0.redo.drop_last());
                assert(popped is Some && popped.unwrap()@ == h0.redo.last());
            } else {
                assert(self.redo_view() =~= h0.redo);
            }
        }
        if let Some(buffer) = popped {
            let cur = self.compress_current_state();
            self.undo_history.push(cur);
            proof {
                assert(self.undo_view() =~= h0.undo.push(rle_encode(h0.drawing)));
                lemma_row_in_buf(self.wi(), self.hi(), 0, 0);
                lemma_rle_sum_encode(self.drawing@);
                assert(entries_wf(self.undo_view(), self.area()));
            }
            self.decompress_state(&buffer);
            let ghost mid = *self;
            self.rerender();
            proof {
                assert forall|px: int, py: int|
                    0 <= px < old(self).wi() && 0 <= py < old(self).hi() implies #[trigger] pix(
                    self.screen@,
                    old(self).wi(),
                    px,
                    py,
                ) == (if old(self).phit(old(self).cursor_x as int, old(self).cursor_y as int, px, py) {
                    old(self).preview_color()
                } else {
                    present_val(
                        pix(self.drawing@, old(self).wi(), px, py),
                        old(self).background_color.spec_value(),
                    )
                }) by {
                    assert(pix(self.screen@, mid.wi(), px, py) == pix(
                        self.screen@,
                        old(self).wi(),
                        px,
                        py,
                    ));
                }
            }
        }
        proof {
            assert(final(self).hist() =~~= hist_redo(h0));
        }
    }
}

} // verus!
