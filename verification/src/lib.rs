//! Verified drawing engine for a screen-overlay sketching tool.
//!
//! The library owns the persisted drawing buffer and the presentable screen
//! buffer as plain pixel vectors, rasterizes brush strokes (discs, lines,
//! square outlines) with exact pixel coverage, keeps a bounded undo/redo
//! history of run-length-encoded snapshots, and renders non-destructive
//! shape previews.  The windowing shell around it only forwards input
//! events and blits the presentable buffer to the screen.

pub mod canvas;
pub mod color;
pub mod cursor;
pub mod input;
pub mod raster;
pub mod rle;
pub mod surface;
