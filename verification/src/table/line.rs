//! A single line of text that is padded or cut to a width of up to 255
//! characters.

use vstd::prelude::*;
use vstd::string::*;
use crate::text::{push_repeated, spec_repeat};

verus! {

/// A line of text.
pub struct Line {
    content: String,
}

impl View for Line {
    type V = Seq<char>;

    closed spec fn view(&self) -> Seq<char> {
        self.content@
    }
}

/// The width of a text as a line reports it: its length, counted in a
/// byte, so that a length of 256 counts as zero again.
pub open spec fn spec_line_width(text: Seq<char>) -> nat {
    text.len() % 256
}

/// The line fitted to `width`: padded with spaces on the right where the
/// width is greater than the width of the text, unchanged where the two are
/// equal, and cut three characters short and marked with `...` where the
/// text is wider.
pub open spec fn spec_line_format(text: Seq<char>, width: nat) -> Seq<char> {
    if width > spec_line_width(text) {
        text + spec_repeat(' ', (width - spec_line_width(text)) as nat)
    } else if width == spec_line_width(text) {
        text
    } else {
        text.take(text.len() - 3) + seq!['.', '.', '.']
    }
}

impl Line {
    /// A line with the given text.
    pub fn from(content: String) -> (res: Line)
        ensures
            res@ == content@,
    {
        Line { content }
    }

    /// The line fitted to `width`.
    ///
    /// A text of fewer than three characters cannot be cut short, and must
    /// not be wider than `width`.
    pub fn format(&self, width: u8) -> (res: String)
        requires
            width >= spec_line_width(self@) || self@.len() >= 3,
        ensures
            res@ == spec_line_format(self@, width as nat),
    {
        let text: &str = self.content.as_str();
        let own: u8 = self.measure_width();
        if width > own {
            let mut result: String = text.to_owned();
            push_repeated(&mut result, ' ', (width - own) as usize);
            result
        } else if width == own {
            text.to_owned()
        } else {
            let kept: usize = text.unicode_len() - 3;
            let mut result: String = text.substring_char(0, kept).to_owned();
            result.append("...");
            proof {
                reveal_strlit("...");
                assert("..."@ =~= seq!['.', '.', '.']);
                assert(text@.subrange(0, kept as int) =~= text@.take(kept as int));
            }
            result
        }
    }

    /// The width of the line.
    pub fn measure_width(&self) -> (res: u8)
        ensures
            res == spec_line_width(self@),
    {
        (self.content.as_str().unicode_len() % 256) as u8
    }
}

} // verus!
