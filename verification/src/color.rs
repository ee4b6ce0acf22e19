//! Color palette and paint mode of the canvas.

use vstd::prelude::*;

verus! {

/// The color palette offered to the user.  Pixel values are 32-bit ARGB;
/// the all-zero value (`TRANSPARENT`) doubles as the "no ink" sentinel of
/// the persisted drawing buffer.
#[allow(non_camel_case_types)]
#[derive(Clone, Copy, Debug, PartialEq, Eq, Structural)]
pub enum Colors {
    RED,
    GREEN,
    BLUE,
    YELLOW,
    CYAN,
    MAGENTA,
    WHITE,
    BLACK,
    TRANSPARENT,
}

impl Colors {
    /// The ARGB pixel value of the color.
    pub open spec fn spec_value(self) -> u32 {
        match self {
            Colors::RED => 0xffff0000u32,
            Colors::GREEN => 0xff00ff00u32,
            Colors::BLUE => 0xff0000ffu32,
            Colors::YELLOW => 0xffffff00u32,
            Colors::CYAN => 0xff00ffffu32,
            Colors::MAGENTA => 0xffff00ffu32,
            Colors::WHITE => 0xffffffffu32,
            Colors::BLACK => 0xff000000u32,
            Colors::TRANSPARENT => 0x00000000u32,
        }
    }

    /// The ARGB pixel value of the color.
    #[verifier::when_used_as_spec(spec_value)]
    pub fn value(self) -> (v: u32)
        ensures
            v == self.spec_value(),
    {
        match self {
            Colors::RED => 0xffff0000u32,
            Colors::GREEN => 0xff00ff00u32,
            Colors::BLUE => 0xff0000ffu32,
            Colors::YELLOW => 0xffffff00u32,
            Colors::CYAN => 0xff00ffffu32,
            Colors::MAGENTA => 0xffff00ffu32,
            Colors::WHITE => 0xffffffffu32,
            Colors::BLACK => 0xff000000u32,
            Colors::TRANSPARENT => 0x00000000u32,
        }
    }
}

/// The active paint mode.  Both variants carry the user's brush color, so
/// toggling between drawing and erasing preserves it.  Drawing writes the
/// carried color into the persisted buffer; erasing writes the empty
/// sentinel (never the background color), so that later background
/// changes are retroactively correct.
#[derive(Clone, Copy, Debug, PartialEq, Eq, Structural)]
pub enum Mode {
    Drawing(Colors),
    Erasing(Colors),
}

impl Mode {
    /// The brush color carried by the mode.
    pub open spec fn spec_carried(self) -> Colors {
        match self {
            Mode::Drawing(c) => c,
            Mode::Erasing(c) => c,
        }
    }

    /// The brush color carried by the mode.
    #[verifier::when_used_as_spec(spec_carried)]
    pub fn carried(self) -> (c: Colors)
        ensures
            c == self.spec_carried(),
    {
        match self {
            Mode::Drawing(c) => c,
            Mode::Erasing(c) => c,
        }
    }
}

} // verus!
