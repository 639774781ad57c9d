//! Colouring of finished lines with ANSI escape sequences.
//!
//! The escape sequences themselves are produced by the `colored` crate, which
//! decides for the whole process whether colouring is switched on. What the
//! crate hands back is stated here as a relation: a painted line is either the
//! text it was given or that text between a style sequence and a reset.
//! Nothing here says which of the two it is, so everything that is stated of
//! coloured text holds whether colouring is on or off, and whether or not the
//! switch is flipped while a text is written.

use vstd::prelude::*;
use colored::{Color as Ansi, Colorize};
use crate::color::Color;
use crate::text::{spec_is_line, spec_repeat};

verus! {

/// The decimal digits of `n`, most significant first.
pub open spec fn spec_decimal(n: nat) -> Seq<char>
    decreases n,
{
    if n < 10 {
        seq![spec_digit(n)]
    } else {
        spec_decimal(n / 10).push(spec_digit(n % 10))
    }
}

/// The character for a single decimal digit.
pub open spec fn spec_digit(d: nat) -> char {
    (('0' as nat) + d) as char
}

/// The sequence that switches all styling off: `ESC [ 0 m`.
pub open spec fn spec_reset() -> Seq<char> {
    seq!['\x1b', '[', '0', 'm']
}

/// The sequence that switches on the style with SGR parameter `code`:
/// `ESC [ code m`.
pub open spec fn spec_style(code: nat) -> Seq<char> {
    seq!['\x1b', '['] + spec_decimal(code) + seq!['m']
}

/// `text` with `style` put back in force after every reset sequence inside it.
pub open spec fn spec_reinstated(text: Seq<char>, style: Seq<char>) -> Seq<char>
    decreases text.len(),
{
    if text.len() == 0 {
        text
    } else if spec_reset().is_prefix_of(text) {
        spec_reset() + style + spec_reinstated(text.skip(4), style)
    } else {
        seq![text[0]] + spec_reinstated(text.skip(1), style)
    }
}

/// `text` as it is written when colouring is on: the style sequence, the text
/// with the style reinstated after inner resets, and a closing reset.
pub open spec fn spec_painted(text: Seq<char>, style: Seq<char>) -> Seq<char> {
    style + spec_reinstated(text, style) + spec_reset()
}

/// Whether `out` is `text` as it can be written in `style`.
///
/// While it writes one text, `colored` asks three times whether colouring
/// is on. Where the answer stays yes, the text is written as
/// `spec_painted` says. Where the switch is flipped in between, the style
/// sequence in front, its reinstatement after inner resets, or both are
/// left out; the closing reset is written all the same.
pub open spec fn spec_is_painted(out: Seq<char>, text: Seq<char>, style: Seq<char>) -> bool {
    ||| out == spec_painted(text, style)
    ||| out == style + text + spec_reset()
    ||| out == spec_reinstated(text, style) + spec_reset()
    ||| out == text + spec_reset()
}

/// Whether `out` can come of painting `text` with the style of SGR parameter
/// `code`: it is the text itself where colouring is off or no colour is set,
/// and the text written in that style where colouring is on.
pub open spec fn spec_is_painting(out: Seq<char>, text: Seq<char>, code: Option<nat>) -> bool {
    out == text || (code matches Some(c) && spec_is_painted(out, text, spec_style(c)))
}

/// The SGR parameter that paints the foreground in `color`, if there is a
/// colour.
pub open spec fn spec_foreground(color: Option<Color>) -> Option<nat> {
    match color {
        Some(color) => Some(color.spec_foreground_code()),
        None => None,
    }
}

/// The SGR parameter that paints the background in `color`, if there is a
/// colour.
pub open spec fn spec_background(color: Option<Color>) -> Option<nat> {
    match color {
        Some(color) => Some(color.spec_background_code()),
        None => None,
    }
}

/// Whether `out` can come of colouring the line `plain`: the foreground is
/// painted first, and the background is painted over what that gave.
pub open spec fn spec_is_rendering(
    out: Seq<char>,
    plain: Seq<char>,
    foreground: Option<Color>,
    background: Option<Color>,
) -> bool {
    exists|mid: Seq<char>| #[trigger]
        spec_is_painting(mid, plain, spec_foreground(foreground)) && spec_is_painting(
            out,
            mid,
            spec_background(background),
        )
}

/// A line can always come out as its plain text: that is what colouring
/// gives when it is switched off.
pub proof fn lemma_plain_is_rendering(
    plain: Seq<char>,
    foreground: Option<Color>,
    background: Option<Color>,
)
    ensures
        spec_is_rendering(plain, plain, foreground, background),
{
    assert(spec_is_painting(plain, plain, spec_foreground(foreground)));
}

/// A line that is to be given no colour comes out as its plain text and in
/// no other way.
pub proof fn lemma_unpainted_is_plain(out: Seq<char>, plain: Seq<char>)
    requires
        spec_is_rendering(out, plain, None, None),
    ensures
        out == plain,
{
}

/// A laid-out line before it is coloured: its text and the colours it is
/// to be given.
pub struct StyledLine {
    pub text: Seq<char>,
    pub foreground: Option<Color>,
    pub background: Option<Color>,
}

/// The lines `texts`, each to be given the same colours.
pub open spec fn spec_styled(
    texts: Seq<Seq<char>>,
    foreground: Option<Color>,
    background: Option<Color>,
) -> Seq<StyledLine> {
    Seq::new(texts.len(), |i: int| StyledLine { text: texts[i], foreground, background })
}

/// An uncoloured line of `width` spaces.
pub open spec fn spec_blank_line(width: nat) -> StyledLine {
    StyledLine { text: spec_repeat(' ', width), foreground: None, background: None }
}

/// `lines`, followed by as many blank lines of `width` spaces as it takes to
/// reach `height` lines. Lines are never taken away.
pub open spec fn spec_filled(lines: Seq<StyledLine>, width: nat, height: nat) -> Seq<StyledLine> {
    if lines.len() >= height {
        lines
    } else {
        lines + Seq::new((height - lines.len()) as nat, |i: int| spec_blank_line(width))
    }
}

/// Whether the texts `out` can come of colouring `lines`, one for one.
pub open spec fn spec_are_rendered(out: Seq<Seq<char>>, lines: Seq<StyledLine>) -> bool {
    &&& out.len() == lines.len()
    &&& forall|i: int|
        0 <= i < out.len() ==> spec_is_rendering(
            #[trigger] out[i],
            lines[i].text,
            lines[i].foreground,
            lines[i].background,
        )
}

/// Whether none of `lines` is to be given a colour.
pub open spec fn spec_all_unpainted(lines: Seq<StyledLine>) -> bool {
    forall|i: int|
        0 <= i < lines.len() ==> (#[trigger] lines[i]).foreground is None && lines[i].background
            is None
}

/// The texts of `lines`.
pub open spec fn spec_plain_texts(lines: Seq<StyledLine>) -> Seq<Seq<char>> {
    Seq::new(lines.len(), |i: int| lines[i].text)
}

/// Lines can always come out as their plain texts: that is what colouring
/// gives when it is switched off.
pub proof fn lemma_plain_texts_are_rendered(lines: Seq<StyledLine>)
    ensures
        spec_are_rendered(spec_plain_texts(lines), lines),
{
    let out = spec_plain_texts(lines);
    assert forall|i: int| 0 <= i < out.len() implies spec_is_rendering(
        #[trigger] out[i],
        lines[i].text,
        lines[i].foreground,
        lines[i].background,
    ) by {
        lemma_plain_is_rendering(lines[i].text, lines[i].foreground, lines[i].background);
    }
}

/// Lines that are to be given no colour come out as their plain texts and
/// in no other way.
pub proof fn lemma_unpainted_are_plain(out: Seq<Seq<char>>, lines: Seq<StyledLine>)
    requires
        spec_all_unpainted(lines),
        spec_are_rendered(out, lines),
    ensures
        out == spec_plain_texts(lines),
{
    assert forall|i: int| 0 <= i < out.len() implies out[i] == spec_plain_texts(lines)[i] by {
        assert(spec_is_rendering(out[i], lines[i].text, lines[i].foreground, lines[i].background));
        lemma_unpainted_is_plain(out[i], lines[i].text);
    }
    assert(out =~= spec_plain_texts(lines));
}

/// Painting puts no line feed into a text that has none.
pub proof fn lemma_painting_is_line(out: Seq<char>, text: Seq<char>, code: Option<nat>)
    requires
        spec_is_line(text),
        spec_is_painting(out, text, code),
    ensures
        spec_is_line(out),
{
    if code is Some {
        lemma_decimal_is_line(code->0);
        lemma_reinstated_is_line(text, spec_style(code->0));
    }
}

/// A coloured line is a single line where the line it was made of is one.
pub proof fn lemma_rendering_is_line(
    out: Seq<char>,
    plain: Seq<char>,
    foreground: Option<Color>,
    background: Option<Color>,
)
    requires
        spec_is_line(plain),
        spec_is_rendering(out, plain, foreground, background),
    ensures
        spec_is_line(out),
{
    let mid = choose|mid: Seq<char>| #[trigger]
        spec_is_painting(mid, plain, spec_foreground(foreground)) && spec_is_painting(
            out,
            mid,
            spec_background(background),
        );
    lemma_painting_is_line(mid, plain, spec_foreground(foreground));
    lemma_painting_is_line(out, mid, spec_background(background));
}

/// The digits of a number hold no line feed.
proof fn lemma_decimal_is_line(n: nat)
    ensures
        spec_is_line(spec_decimal(n)),
    decreases n,
{
    if n >= 10 {
        lemma_decimal_is_line(n / 10);
    }
}

/// Reinstating a style that has no line feed in a text that has none gives
/// a text that has none.
proof fn lemma_reinstated_is_line(text: Seq<char>, style: Seq<char>)
    requires
        spec_is_line(text),
        spec_is_line(style),
    ensures
        spec_is_line(spec_reinstated(text, style)),
    decreases text.len(),
{
    if text.len() > 0 {
        if spec_reset().is_prefix_of(text) {
            assert forall|i: int| 0 <= i < text.skip(4).len() implies #[trigger] text.skip(4)[i]
                != '\n' by {
                assert(text.skip(4)[i] == text[i + 4]);
            }
            lemma_reinstated_is_line(text.skip(4), style);
        } else {
            assert forall|i: int| 0 <= i < text.skip(1).len() implies #[trigger] text.skip(1)[i]
                != '\n' by {
                assert(text.skip(1)[i] == text[i + 1]);
            }
            lemma_reinstated_is_line(text.skip(1), style);
        }
    }
}

/// Gives `text` the foreground `color`.
///
/// Trusted: calls `colored::Colorize::color` on the text and renders the
/// result with its `Display`. When `colored` has colouring switched off the
/// text comes back unchanged; otherwise it is written in the style of the
/// foreground parameter of `color`, as `spec_is_painted` describes. Which of
/// the two happens is decided by `colored::control` from the process's
/// variables, its output and its override.
#[verifier::external_body]
pub(crate) fn paint_foreground(text: &str, color: Color) -> (res: String)
    ensures
        spec_is_painting(res@, text@, Some(color.spec_foreground_code())),
{
    text.color(match color {
        Color::Black => Ansi::Black, Color::Red => Ansi::Red,
        Color::Green => Ansi::Green, Color::Yellow => Ansi::Yellow,
        Color::Blue => Ansi::Blue, Color::Magenta => Ansi::Magenta,
        Color::Cyan => Ansi::Cyan, Color::White => Ansi::White,
        Color::BrightBlack => Ansi::BrightBlack, Color::BrightRed => Ansi::BrightRed,
        Color::BrightGreen => Ansi::BrightGreen, Color::BrightYellow => Ansi::BrightYellow,
        Color::BrightBlue => Ansi::BrightBlue, Color::BrightMagenta => Ansi::BrightMagenta,
        Color::BrightCyan => Ansi::BrightCyan, Color::BrightWhite => Ansi::BrightWhite,
    }).to_string()
}

/// Gives `text` the background `color`.
///
/// Trusted: calls `colored::Colorize::on_color` on the text and renders the
/// result with its `Display`. When `colored` has colouring switched off the
/// text comes back unchanged; otherwise it is written in the style of the
/// background parameter of `color`, as `spec_is_painted` describes. Which of
/// the two happens is decided by `colored::control` from the process's
/// variables, its output and its override.
#[verifier::external_body]
pub(crate) fn paint_background(text: &str, color: Color) -> (res: String)
    ensures
        spec_is_painting(res@, text@, Some(color.spec_background_code())),
{
    text.on_color(match color {
        Color::Black => Ansi::Black, Color::Red => Ansi::Red,
        Color::Green => Ansi::Green, Color::Yellow => Ansi::Yellow,
        Color::Blue => Ansi::Blue, Color::Magenta => Ansi::Magenta,
        Color::Cyan => Ansi::Cyan, Color::White => Ansi::White,
        Color::BrightBlack => Ansi::BrightBlack, Color::BrightRed => Ansi::BrightRed,
        Color::BrightGreen => Ansi::BrightGreen, Color::BrightYellow => Ansi::BrightYellow,
        Color::BrightBlue => Ansi::BrightBlue, Color::BrightMagenta => Ansi::BrightMagenta,
        Color::BrightCyan => Ansi::BrightCyan, Color::BrightWhite => Ansi::BrightWhite,
    }).to_string()
}

} // verus!
