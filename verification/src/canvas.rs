//! The canvas: persisted drawing buffer, presentable screen buffer,
//! brush state, transient shape preview, and bounded undo/redo history.

use vstd::prelude::*;

use crate::color::Colors;
use crate::color::Mode;
use crate::raster::line_hit;
use crate::raster::square_hit;
use crate::rle::rle_sum;

mod drawings;
mod mouse_handler;
mod preview;
mod surface;
mod undo;

verus! {

/// The transient shape preview: none, or the kind of shape being
/// previewed together with the coordinates where the mouse was pressed.
#[derive(Clone, Copy, Debug, PartialEq, Eq, Structural)]
pub enum Preview {
    Line(i32, i32),
    Square(i32, i32),
    NoPreview,
}

/// The default brush radius, in thousandths of a pixel.
pub const DEFAULT_RADIUS_MILLI: i64 = 2000;

/// The smallest brush radius, in thousandths of a pixel.
pub const MIN_RADIUS_MILLI: i64 = 1000;

/// The largest brush radius, in thousandths of a pixel.
pub const MAX_RADIUS_MILLI: i64 = 20000;

/// The number of history entries each of the undo and redo stacks holds
/// before evicting its oldest entry.
pub const HISTORY_CAPACITY: usize = 40;

pub struct Canvas {
    /// The persisted drawing buffer, row-major, one ARGB value per
    /// pixel; 0 is the "no ink" sentinel.
    pub drawing: Vec<u32>,
    /// The presentable buffer actually shown: the drawing composed over
    /// the background, possibly with a transient preview on top.
    pub screen: Vec<u32>,
    pub width: i32,
    pub height: i32,
    /// Undo and redo stacks of run-length-encoded snapshots.
    pub undo_history: Vec<Vec<(u32, u32)>>,
    pub redo_history: Vec<Vec<(u32, u32)>>,
    pub max_history: usize,
    /// Brush radius in thousandths of a pixel, so that fractional scroll
    /// deltas accumulate; the rasterizer uses `radius_milli / 1000`.
    pub radius_milli: i64,
    pub mode: Mode,
    pub preview: Preview,
    pub background_color: Colors,
    pub cursor_x: i32,
    pub cursor_y: i32,
    pub is_clicked: bool,
}

/// The run-length entries of a history stack, as mathematical sequences.
pub open spec fn entries_view(s: Seq<Vec<(u32, u32)>>) -> Seq<Seq<(u32, u32)>> {
    s.map_values(|e: Vec<(u32, u32)>| e@)
}

/// Every entry of a history stack decodes to a buffer of `area` pixels.
pub open spec fn entries_wf(es: Seq<Seq<(u32, u32)>>, area: int) -> bool {
    forall|i: int| 0 <= i < es.len() ==> rle_sum(#[trigger] es[i]) == area
}

impl Canvas {
    pub open spec fn wi(&self) -> int {
        self.width as int
    }

    pub open spec fn hi(&self) -> int {
        self.height as int
    }

    /// The number of pixels of both buffers.
    pub open spec fn area(&self) -> int {
        self.wi() * self.hi()
    }

    /// The whole-pixel brush radius used by the rasterizer.
    pub open spec fn brush_radius(&self) -> int {
        self.radius_milli as int / 1000
    }

    /// The value a committed stroke writes into the persisted buffer:
    /// the carried color when drawing, the empty sentinel when erasing.
    pub open spec fn drawing_color(&self) -> u32 {
        match self.mode {
            Mode::Drawing(c) => c.spec_value(),
            Mode::Erasing(_) => 0,
        }
    }

    /// The value a committed stroke writes onto the presentable buffer:
    /// the carried color when drawing, the background when erasing.
    pub open spec fn screen_color(&self) -> u32 {
        match self.mode {
            Mode::Drawing(c) => c.spec_value(),
            Mode::Erasing(_) => self.background_color.spec_value(),
        }
    }

    /// The color a transient preview is painted with; previewing an
    /// erasure shows the background.
    pub open spec fn preview_color(&self) -> u32 {
        self.screen_color()
    }

    /// The undo stack's entries.
    pub open spec fn undo_view(&self) -> Seq<Seq<(u32, u32)>> {
        entries_view(self.undo_history@)
    }

    /// The redo stack's entries.
    pub open spec fn redo_view(&self) -> Seq<Seq<(u32, u32)>> {
        entries_view(self.redo_history@)
    }

    /// Does the active preview, re-anchored at its press point and drawn
    /// toward `(tx, ty)`, touch pixel `(px, py)`?  A line preview stops
    /// one brush stamp short of `(tx, ty)`.
    pub open spec fn phit(&self, tx: int, ty: int, px: int, py: int) -> bool {
        match self.preview {
            Preview::Line(ax, ay) => line_hit(
                self.wi(),
                self.hi(),
                self.brush_radius(),
                ax as int,
                ay as int,
                tx,
                ty,
                false,
                px,
                py,
            ),
            Preview::Square(ax, ay) => square_hit(
                self.wi(),
                self.hi(),
                self.brush_radius(),
                ax as int,
                ay as int,
                tx,
                ty,
                px,
                py,
            ),
            Preview::NoPreview => false,
        }
    }

    /// Structural well-formedness: positive dimensions whose product
    /// fits the index arithmetic, buffers of exactly that size, a brush
    /// radius inside its clamp range, and history entries whose run
    /// lengths sum to the buffer size.
    pub open spec fn wf(&self) -> bool {
        &&& 1 <= self.width
        &&& 1 <= self.height
        &&& self.area() <= i32::MAX
        &&& self.drawing@.len() == self.area()
        &&& self.screen@.len() == self.area()
        &&& MIN_RADIUS_MILLI <= self.radius_milli <= MAX_RADIUS_MILLI
        &&& self.max_history == HISTORY_CAPACITY
        &&& entries_wf(self.undo_view(), self.area())
        &&& entries_wf(self.redo_view(), self.area())
    }

    /// The settings that painting and history operations leave alone.
    pub open spec fn same_config(a: Canvas, b: Canvas) -> bool {
        &&& b.width == a.width
        &&& b.height == a.height
        &&& b.radius_milli == a.radius_milli
        &&& b.mode == a.mode
        &&& b.background_color == a.background_color
        &&& b.max_history == a.max_history
    }

    /// The input state: cursor position, click flag and armed preview.
    pub open spec fn same_input_state(a: Canvas, b: Canvas) -> bool {
        &&& b.cursor_x == a.cursor_x
        &&& b.cursor_y == a.cursor_y
        &&& b.is_clicked == a.is_clicked
        &&& b.preview == a.preview
    }

    /// Both history stacks, by their entries.
    pub open spec fn same_history(a: Canvas, b: Canvas) -> bool {
        &&& b.undo_view() == a.undo_view()
        &&& b.redo_view() == a.redo_view()
    }

    /// A fresh canvas for a window of the given size: empty buffers,
    /// empty history, default brush and colors.
    pub fn new(width: i32, height: i32) -> (c: Canvas)
        requires
            1 <= width,
            1 <= height,
            (width as int) * (height as int) <= i32::MAX,
        ensures
            c.wf(),
            c.width == width,
            c.height == height,
            c.drawing@ == Seq::new(((width as int) * (height as int)) as nat, |i: int| 0u32),
            c.screen@ == Seq::new(((width as int) * (height as int)) as nat, |i: int| 0u32),
            c.undo_view() == Seq::<Seq<(u32, u32)>>::empty(),
            c.redo_view() == Seq::<Seq<(u32, u32)>>::empty(),
            c.radius_milli == DEFAULT_RADIUS_MILLI,
            c.mode == Mode::Drawing(Colors::RED),
            c.preview == Preview::NoPreview,
            c.background_color == Colors::TRANSPARENT,
            c.cursor_x == 0,
            c.cursor_y == 0,
            !c.is_clicked,
    {
        proof {
            assert((width as usize) * (height as usize) == (width as int) * (height as int))
                by (nonlinear_arith)
                requires
                    1 <= width,
                    1 <= height,
            ;
        }
        let n: usize = (width as usize) * (height as usize);
        let c = Canvas {
            drawing: crate::surface::make_filled(n, 0),
            screen: crate::surface::make_filled(n, 0),
            width,
            height,
            undo_history: Vec::new(),
            redo_history: Vec::new(),
            max_history: HISTORY_CAPACITY,
            radius_milli: DEFAULT_RADIUS_MILLI,
            mode: Mode::Drawing(Colors::RED),
            preview: Preview::NoPreview,
            background_color: Colors::TRANSPARENT,
            cursor_x: 0,
            cursor_y: 0,
            is_clicked: false,
        };
        proof {
            assert(c.undo_view() =~= Seq::<Seq<(u32, u32)>>::empty());
            assert(c.redo_view() =~= Seq::<Seq<(u32, u32)>>::empty());
        }
        c
    }

    /// The persisted drawing buffer.
    pub fn buffer(&self) -> (b: &Vec<u32>)
        ensures
            b@ == self.drawing@,
    {
        &self.drawing
    }

    /// The presentable buffer, ready to be copied to the window surface.
    pub fn screen_buffer(&self) -> (b: &Vec<u32>)
        ensures
            b@ == self.screen@,
    {
        &self.screen
    }

    /// The canvas size, as `(width, height)`.
    pub fn size(&self) -> (s: (i32, i32))
        ensures
            s.0 == self.width,
            s.1 == self.height,
    {
        (self.width, self.height)
    }

    /// The armed preview, if any.
    pub fn get_preview(&self) -> (p: Preview)
        ensures
            p == self.preview,
    {
        self.preview
    }

    /// Whether a mouse button is currently held.
    pub fn clicked(&self) -> (b: bool)
        ensures
            b == self.is_clicked,
    {
        self.is_clicked
    }

    /// The stored cursor position.
    pub fn cursor_pos(&self) -> (p: (i32, i32))
        ensures
            p.0 == self.cursor_x,
            p.1 == self.cursor_y,
    {
        (self.cursor_x, self.cursor_y)
    }
}

} // verus!
