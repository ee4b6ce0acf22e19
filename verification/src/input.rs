//! Plain input vocabulary handed to the canvas by the windowing shell.
//!
//! The shell translates its native pointer, keyboard and hotkey events
//! into these value types before calling into the library, so the whole
//! input state machine is verified.

use vstd::prelude::*;

verus! {

/// Whether a mouse button went down or up.
#[derive(Clone, Copy, Debug, PartialEq, Eq, Structural)]
pub enum ButtonState {
    Pressed,
    Released,
}

/// The mouse button carried by a press/release event.
#[derive(Clone, Copy, Debug, PartialEq, Eq, Structural)]
pub enum MouseButton {
    Left,
    Right,
    Middle,
    Other,
}

/// The keyboard modifier set held during a mouse press, reduced to the
/// combinations the canvas reacts to: exactly SHIFT arms a line preview,
/// exactly CONTROL arms a square preview, anything else paints freehand.
#[derive(Clone, Copy, Debug, PartialEq, Eq, Structural)]
pub enum PressModifiers {
    NoModifier,
    Shift,
    Control,
    Other,
}

/// The global hotkey commands understood by the application.
#[derive(Clone, Copy, Debug, PartialEq, Eq, Structural)]
pub enum HotkeyEvent {
    NewCanvas,
    ShowPrevious,
    TransparentToMouse,
    EscTransparentMouse,
}

/// The throttle interval for pointer-move samples, in milliseconds.
pub const MOVE_THROTTLE_MILLIS: u128 = 7;

/// What the canvas does with one pointer-move sample.
#[derive(Clone, Copy, Debug, PartialEq, Eq, Structural)]
pub enum MoveAction {
    /// Paint or redraw the preview, and store the cursor position.
    Process,
    /// Only store the cursor position.
    TrackCursorOnly,
    /// Drop the sample entirely.
    Skip,
}

/// Rate limiting of pointer-move samples: painting and preview updates
/// run only when the throttle interval has elapsed since the last
/// processed sample.  While no button is held the cursor position still
/// updates immediately; while one is held a throttled sample is dropped
/// outright, so it never becomes a stroke segment endpoint.
pub fn throttle_move(elapsed_millis: u128, is_held: bool) -> (a: MoveAction)
    ensures
        a == (if elapsed_millis >= MOVE_THROTTLE_MILLIS {
            MoveAction::Process
        } else if !is_held {
            MoveAction::TrackCursorOnly
        } else {
            MoveAction::Skip
        }),
{
    if elapsed_millis >= MOVE_THROTTLE_MILLIS {
        MoveAction::Process
    } else if !is_held {
        MoveAction::TrackCursorOnly
    } else {
        MoveAction::Skip
    }
}

} // verus!
