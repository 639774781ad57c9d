//! A run of text with an optional style, and how it is laid out in a width.
//!
//! Lengths and positions count characters. A line of content is first cut to
//! the width (truncated to one piece, or wrapped into as many pieces as it
//! takes), each piece is padded to the width according to the alignment, and
//! the padded line is then coloured.

use vstd::prelude::*;
use vstd::string::*;
pub use crate::content_iterator::ContentIterator;
pub use crate::content_style::{Alignment, CellWidth, ContentStyle, Wrap};
use crate::paint::{
    paint_background, paint_foreground, spec_are_rendered, spec_background, spec_foreground,
    spec_is_painting, spec_is_rendering, spec_styled, StyledLine,
};
use crate::text::{
    lemma_concat_push, push_repeated, repeat_char, spec_concat, spec_is_line, spec_repeat,
    spec_texts,
};

verus! {

/// A line of text and the style it asks for, if it asks for one.
#[derive(Debug, Clone)]
pub struct Content {
    content: String,
    pub style: Option<ContentStyle>,
}

/// What a piece of content holds.
pub struct ContentView {
    pub text: Seq<char>,
    pub style: Option<ContentStyle>,
}

impl View for Content {
    type V = ContentView;

    closed spec fn view(&self) -> ContentView {
        ContentView { text: self.content@, style: self.style }
    }
}

/// What each piece of content in a list holds.
pub open spec fn spec_content_views(contents: Seq<Content>) -> Seq<ContentView> {
    Seq::new(contents.len(), |i: int| contents[i]@)
}

/// `line` brought to `width` characters with spaces: on the right for left
/// alignment, on the left for right alignment, on both sides for centred
/// text, where the odd space goes to the right. A line that is already as
/// long as the width, or longer, is left as it is.
pub open spec fn spec_pad(line: Seq<char>, alignment: Alignment, width: nat) -> Seq<char> {
    if line.len() >= width {
        line
    } else {
        let padding = (width - line.len()) as nat;
        match alignment {
            Alignment::Left => line + spec_repeat(' ', padding),
            Alignment::Right => spec_repeat(' ', padding) + line,
            Alignment::Center => spec_repeat(' ', padding / 2) + line + spec_repeat(
                ' ',
                (padding - padding / 2) as nat,
            ),
        }
    }
}

/// The number of lines that a text of `len` characters takes at `width`:
/// one when it is truncated, and when it is wrapped the number of pieces of
/// `width` characters that hold it, the last of which may be shorter. At
/// width zero nothing can be wrapped, and the text takes one line.
pub open spec fn spec_line_count(len: nat, wrap: Wrap, width: nat) -> nat {
    match wrap {
        Wrap::Truncate => 1,
        Wrap::Wrap => if width == 0 {
            1
        } else if len % width == 0 {
            len / width
        } else {
            len / width + 1
        },
    }
}

/// The characters of `text` that line `i` shows, before padding.
pub open spec fn spec_piece(text: Seq<char>, wrap: Wrap, width: nat, i: int) -> Seq<char> {
    match wrap {
        Wrap::Truncate => if text.len() <= width {
            text
        } else {
            text.take(width as int)
        },
        Wrap::Wrap => if (i + 1) * width <= text.len() {
            text.subrange(i * width, (i + 1) * width)
        } else {
            text.subrange(i * width, text.len() as int)
        },
    }
}

/// The uncoloured lines of `text` laid out at `width` in `style`.
pub open spec fn spec_plain_lines(text: Seq<char>, style: ContentStyle, width: nat) -> Seq<
    Seq<char>,
> {
    Seq::new(
        spec_line_count(text.len(), style.wrap, width),
        |i: int| spec_pad(spec_piece(text, style.wrap, width, i), style.alignment, width),
    )
}

/// The style that content is laid out in: its own where it has one, the
/// style of its surroundings otherwise.
pub open spec fn spec_effective_style(own: Option<ContentStyle>, base: ContentStyle) -> ContentStyle {
    match own {
        Some(style) => style,
        None => base,
    }
}

/// The lines of one piece of content at `width`, with the colours of the
/// style it is laid out in.
pub open spec fn spec_content_lines(content: ContentView, base: ContentStyle, width: nat) -> Seq<
    StyledLine,
> {
    let style = spec_effective_style(content.style, base);
    spec_styled(
        spec_plain_lines(content.text, style, width),
        style.foreground_color,
        style.background_color,
    )
}

impl Content {
    /// A piece of content with the given text and style.
    pub fn new(content: String, style: Option<ContentStyle>) -> (res: Content)
        ensures
            res@ == (ContentView { text: content@, style }),
    {
        Content { content, style }
    }

    /// A piece of unstyled content with the text of `s`.
    pub fn from_str(s: &str) -> (res: Content)
        ensures
            res@ == (ContentView { text: s@, style: None }),
    {
        Content { content: s.to_owned(), style: None }
    }

    /// A second piece of content that holds the same as this one.
    pub fn duplicate(&self) -> (res: Content)
        ensures
            res@ == self@,
    {
        Content { content: self.content.clone(), style: self.style }
    }

    /// The style this content has of its own, if it has one.
    pub fn own_style(&self) -> (res: Option<ContentStyle>)
        ensures
            res == self@.style,
    {
        self.style
    }

    /// The style this content is laid out in inside surroundings of
    /// `base_style`.
    pub fn effective_style(&self, base_style: &ContentStyle) -> (res: ContentStyle)
        ensures
            res == spec_effective_style(self@.style, *base_style),
    {
        match &self.style {
            Some(style) => *style,
            None => *base_style,
        }
    }

    /// `line` padded with spaces to `width` characters.
    pub fn pad(line: &str, alignment: &Alignment, width: usize) -> (res: String)
        ensures
            res@ == spec_pad(line@, *alignment, width as nat),
    {
        let content_len: usize = line.unicode_len();
        if content_len >= width {
            line.to_owned()
        } else {
            let padding: usize = width - content_len;
            match alignment {
                Alignment::Left => {
                    let mut result: String = line.to_owned();
                    push_repeated(&mut result, ' ', padding);
                    result
                },
                Alignment::Center => {
                    let left_pad: usize = padding / 2;
                    let right_pad: usize = padding - left_pad;
                    let mut result: String = repeat_char(' ', left_pad);
                    result.append(line);
                    push_repeated(&mut result, ' ', right_pad);
                    result
                },
                Alignment::Right => {
                    let mut result: String = repeat_char(' ', padding);
                    result.append(line);
                    result
                },
            }
        }
    }

    /// `line` padded to `width` and coloured as `style` asks.
    pub fn format(line: &str, style: &ContentStyle, width: usize) -> (res: String)
        ensures
            spec_is_rendering(
                res@,
                spec_pad(line@, style.alignment, width as nat),
                style.foreground_color,
                style.background_color,
            ),
    {
        let mut result: String = Content::pad(line, &style.alignment, width);
        let ghost plain = result@;
        if let Some(color) = style.foreground_color {
            result = paint_foreground(result.as_str(), color);
        }
        let ghost mid = result@;
        if let Some(color) = style.background_color {
            result = paint_background(result.as_str(), color);
        }
        proof {
            assert(spec_is_painting(mid, plain, spec_foreground(style.foreground_color)));
            assert(spec_is_painting(result@, mid, spec_background(style.background_color)));
        }
        result
    }

    /// The finished lines of this content at `width`, top to bottom.
    pub fn lines(&self, base_style: &ContentStyle, width: usize) -> (res: Vec<String>)
        ensures
            spec_are_rendered(spec_texts(res@), spec_content_lines(self@, *base_style, width as nat)),
    {
        let style: ContentStyle = self.effective_style(base_style);
        let text: &str = self.content.as_str();
        let content_len: usize = text.unicode_len();
        let ghost plain = spec_plain_lines(text@, style, width as nat);
        let mut result: Vec<String> = Vec::new();
        match style.wrap {
            Wrap::Truncate => {
                if content_len <= width {
                    result.push(Content::format(text, &style, width));
                } else {
                    result.push(Content::format(text.substring_char(0, width), &style, width));
                }
            },
            Wrap::Wrap => {
                if width == 0 {
                    let piece: &str = text.substring_char(0, 0);
                    assert(piece@ =~= spec_piece(text@, Wrap::Wrap, 0, 0));
                    result.push(Content::format(piece, &style, width));
                } else {
                    let num_lines: usize = Content::count_lines(content_len, width);
                    let mut line_ix: usize = 0;
                    while line_ix < num_lines
                        invariant
                            width > 0,
                            text@ == self@.text,
                            content_len == text@.len(),
                            style.wrap == Wrap::Wrap,
                            plain == spec_plain_lines(text@, style, width as nat),
                            num_lines == plain.len(),
                            line_ix <= num_lines,
                            result.len() == line_ix,
                            forall|i: int|
                                0 <= i < line_ix ==> spec_is_rendering(
                                    #[trigger] spec_texts(result@)[i],
                                    plain[i],
                                    style.foreground_color,
                                    style.background_color,
                                ),
                        decreases num_lines - line_ix,
                    {
                        proof {
                            lemma_piece_bounds(content_len as nat, width as nat, line_ix as nat);
                        }
                        let from: usize = line_ix * width;
                        let to: usize = if content_len - from >= width {
                            from + width
                        } else {
                            content_len
                        };
                        let piece: &str = text.substring_char(from, to);
                        assert(piece@ == spec_piece(text@, Wrap::Wrap, width as nat, line_ix as int));
                        let ghost before = spec_texts(result@);
                        let line: String = Content::format(piece, &style, width);
                        result.push(line);
                        assert(spec_texts(result@) =~= before.push(line@));
                        line_ix += 1;
                    }
                }
            },
        }
        result
    }

    /// A walk over the finished lines of this content at `width`.
    pub fn get_iterator(&self, base_style: &ContentStyle, width: usize) -> (res: ContentIterator)
        ensures
            spec_are_rendered(
                res.spec_remaining(),
                spec_content_lines(self@, *base_style, width as nat),
            ),
    {
        let parts: Vec<String> = self.lines(base_style, width);
        let res = ContentIterator::new(parts);
        assert(res.spec_remaining() =~= spec_texts(parts@));
        res
    }

    /// Whether the text is a single line, as the text of content is meant
    /// to be: a text with a line feed in it is laid out like any other, but
    /// breaks the line it is printed on.
    pub fn is_line(&self) -> (res: bool)
        ensures
            res == spec_is_line(self@.text),
    {
        let text: &str = self.content.as_str();
        for c in it: text.chars()
            invariant
                it.seq() == text@,
                text@ == self@.text,
                forall|i: int| 0 <= i < it.index() ==> #[trigger] text@[i] != '\n',
        {
            if c == '\n' {
                assert(text@[it.index() as int] == '\n');
                return false;
            }
        }
        true
    }

    /// The number of characters of the text.
    pub fn measure_width(&self) -> (res: usize)
        ensures
            res == self@.text.len(),
    {
        self.content.as_str().unicode_len()
    }

    /// The number of lines this content takes at `width` in its own style:
    /// as many as it wraps into when its style wraps, and one otherwise.
    pub fn measure_height(&self, width: usize) -> (res: usize)
        ensures
            res == spec_line_count(
                self@.text.len(),
                spec_effective_style(self@.style, ContentStyle::spec_default()).wrap,
                width as nat,
            ),
    {
        if self.will_wrap() && width > 0 {
            Content::count_lines(self.content.as_str().unicode_len(), width)
        } else {
            1
        }
    }

    /// Whether this content asks to be wrapped: it has a style of its own,
    /// and that style wraps.
    pub fn will_wrap(&self) -> (res: bool)
        ensures
            res == (self@.style matches Some(style) && style.wrap == Wrap::Wrap),
    {
        match &self.style {
            Some(style) => match style.wrap {
                Wrap::Wrap => true,
                Wrap::Truncate => false,
            },
            None => false,
        }
    }

    /// The number of pieces of `width` characters that hold `len` characters.
    fn count_lines(len: usize, width: usize) -> (res: usize)
        requires
            width > 0,
        ensures
            res == spec_line_count(len as nat, Wrap::Wrap, width as nat),
    {
        if len % width == 0 {
            len / width
        } else {
            assert(len / width < len) by (nonlinear_arith)
                requires
                    width > 0,
                    len % width != 0,
            ;
            len / width + 1
        }
    }
}

/// Every line of content is exactly as wide as the width it was laid out
/// at, whatever the alignment and whether it wraps or truncates.
pub proof fn lemma_plain_lines_width(text: Seq<char>, style: ContentStyle, width: nat, i: int)
    requires
        0 <= i < spec_plain_lines(text, style, width).len(),
    ensures
        spec_plain_lines(text, style, width)[i].len() == width,
{
    if style.wrap == Wrap::Wrap && width > 0 {
        lemma_piece_bounds(text.len(), width, i as nat);
    }
    if style.wrap == Wrap::Wrap && width == 0 {
        assert((i + 1) * width == 0) by (nonlinear_arith)
            requires
                width == 0,
        ;
        assert(i * width == 0) by (nonlinear_arith)
            requires
                width == 0,
        ;
    }
}

/// Laying out a single line gives single lines: cutting and padding put no
/// line feed into a text that has none.
pub proof fn lemma_lines_stay_lines(text: Seq<char>, style: ContentStyle, width: nat, i: int)
    requires
        spec_is_line(text),
        0 <= i < spec_plain_lines(text, style, width).len(),
    ensures
        spec_is_line(spec_plain_lines(text, style, width)[i]),
{
    let piece = spec_piece(text, style.wrap, width, i);
    if style.wrap == Wrap::Wrap && width > 0 {
        lemma_piece_bounds(text.len(), width, i as nat);
    }
    if style.wrap == Wrap::Wrap && width == 0 {
        assert((i + 1) * width == 0) by (nonlinear_arith)
            requires
                width == 0,
        ;
        assert(i * width == 0) by (nonlinear_arith)
            requires
                width == 0,
        ;
    }
    assert(spec_is_line(piece));
}

/// The pieces that `text` wraps into at `width`, before padding.
pub open spec fn spec_wrapped_pieces(text: Seq<char>, width: nat) -> Seq<Seq<char>> {
    Seq::new(
        spec_line_count(text.len(), Wrap::Wrap, width),
        |i: int| spec_piece(text, Wrap::Wrap, width, i),
    )
}

/// A text wrapped at a width above zero takes the least number of lines
/// whose widths add up to its length, and the pieces on those lines, read
/// one after the other, are the text.
pub proof fn lemma_wrap_keeps_text(text: Seq<char>, width: nat)
    requires
        width > 0,
    ensures
        spec_line_count(text.len(), Wrap::Wrap, width) * width >= text.len(),
        spec_line_count(text.len(), Wrap::Wrap, width) > 0 ==> (spec_line_count(
            text.len(),
            Wrap::Wrap,
            width,
        ) - 1) * width < text.len(),
        spec_concat(spec_wrapped_pieces(text, width)) == text,
{
    let count = spec_line_count(text.len(), Wrap::Wrap, width);
    let len = text.len();
    assert(count * width >= len && (count > 0 ==> (count - 1) * width < len)) by (nonlinear_arith)
        requires
            width > 0,
            count == (if len % width == 0 {
                len / width
            } else {
                len / width + 1
            }),
    ;
    lemma_wrap_prefix(text, width, count);
    assert(spec_wrapped_pieces(text, width).take(count as int) =~= spec_wrapped_pieces(
        text,
        width,
    ));
    assert(text.take(len as int) =~= text);
}

/// The first `k` pieces of a wrapped text, read one after the other, are the
/// text up to the end of piece `k`.
proof fn lemma_wrap_prefix(text: Seq<char>, width: nat, k: nat)
    requires
        width > 0,
        k <= spec_line_count(text.len(), Wrap::Wrap, width),
    ensures
        spec_concat(spec_wrapped_pieces(text, width).take(k as int)) == text.take(
            if k * width <= text.len() {
                (k * width) as int
            } else {
                text.len() as int
            },
        ),
    decreases k,
{
    let pieces = spec_wrapped_pieces(text, width);
    if k == 0 {
        assert(k * width == 0) by (nonlinear_arith)
            requires
                k == 0,
        ;
        assert(spec_concat(pieces.take(0)) =~= text.take(0));
    } else {
        let j = (k - 1) as nat;
        lemma_wrap_prefix(text, width, j);
        lemma_piece_bounds(text.len(), width, j);
        assert(pieces.take(k as int) =~= pieces.take(j as int).push(pieces[j as int]));
        lemma_concat_push(pieces.take(j as int), pieces[j as int]);
        let end = if k * width <= text.len() {
            (k * width) as int
        } else {
            text.len() as int
        };
        assert(text.take((j * width) as int) + pieces[j as int] =~= text.take(end));
    }
}

/// Line `i` of a wrapped text starts inside the text.
proof fn lemma_piece_bounds(len: nat, width: nat, i: nat)
    requires
        width > 0,
        i < spec_line_count(len, Wrap::Wrap, width),
    ensures
        i * width < len,
        i * width + width == (i + 1) * width,
{
    assert(i * width < len && i * width + width == (i + 1) * width) by (nonlinear_arith)
        requires
            width > 0,
            i < (if len % width == 0 {
                len / width
            } else {
                len / width + 1
            }),
    ;
}

} // verus!
