//! The sixteen indexed terminal colours.

use vstd::prelude::*;

verus! {

/// One of the eight standard terminal colours or its bright variant.
#[derive(Clone, Copy, Debug, PartialEq, Eq, Structural)]
pub enum Color {
    Black,
    Red,
    Green,
    Yellow,
    Blue,
    Magenta,
    Cyan,
    White,
    BrightBlack,
    BrightRed,
    BrightGreen,
    BrightYellow,
    BrightBlue,
    BrightMagenta,
    BrightCyan,
    BrightWhite,
}

impl Color {
    /// Position of the colour among the eight hues, black first.
    pub open spec fn spec_hue(self) -> nat {
        match self {
            Color::Black | Color::BrightBlack => 0,
            Color::Red | Color::BrightRed => 1,
            Color::Green | Color::BrightGreen => 2,
            Color::Yellow | Color::BrightYellow => 3,
            Color::Blue | Color::BrightBlue => 4,
            Color::Magenta | Color::BrightMagenta => 5,
            Color::Cyan | Color::BrightCyan => 6,
            Color::White | Color::BrightWhite => 7,
        }
    }

    /// Whether the colour is one of the eight bright variants.
    pub open spec fn spec_is_bright(self) -> bool {
        match self {
            Color::BrightBlack
            | Color::BrightRed
            | Color::BrightGreen
            | Color::BrightYellow
            | Color::BrightBlue
            | Color::BrightMagenta
            | Color::BrightCyan
            | Color::BrightWhite => true,
            _ => false,
        }
    }

    /// The SGR parameter that selects the colour as a foreground:
    /// 30 to 37 for the standard colours, 90 to 97 for the bright ones.
    pub open spec fn spec_foreground_code(self) -> nat {
        if self.spec_is_bright() {
            90 + self.spec_hue()
        } else {
            30 + self.spec_hue()
        }
    }

    /// The SGR parameter that selects the colour as a background:
    /// ten above the foreground parameter.
    pub open spec fn spec_background_code(self) -> nat {
        self.spec_foreground_code() + 10
    }
}

} // verus!
