//! Content styles and the compact notation they are written in.
//!
//! A style is written between a pair of brackets, for example `{c^-g:15:}`.
//! Between the brackets every character is a token, read from left to right:
//!
//! * one of the sixteen colour letters sets the foreground colour (lower case
//!   for the standard colours, upper case for the bright ones);
//! * `<`, `^` and `>` align to the left, the centre and the right;
//! * `;` wraps and `.` truncates;
//! * `-` and the colour letter after it set the background colour;
//! * `:N:` fixes the width to `N` and `|N|` sets a minimum width of `N`;
//! * any other character is skipped.
//!
//! A later token overrides an earlier one of the same kind. A style that is
//! not enclosed in brackets, a width that is never closed and a width that is
//! not a number are errors.

use vstd::prelude::*;
use vstd::string::*;
use crate::color::Color;

verus! {

/// How wide a cell is to be.
#[derive(Clone, Copy, Debug, PartialEq, Eq, Structural)]
pub enum CellWidth {
    /// Exactly this many characters.
    Fixed(usize),
    /// At least this many characters, more where the content is wider.
    Minimum(usize),
    /// As wide as the widest content.
    Content,
}

impl CellWidth {
    /// The width policy of a cell that states none: the width of its content.
    pub fn default() -> (res: CellWidth)
        ensures
            res == CellWidth::Content,
    {
        CellWidth::Content
    }
}

/// How content is placed in a cell that is wider than it.
#[derive(Clone, Copy, Debug, PartialEq, Eq, Structural)]
pub enum Alignment {
    Left,
    Center,
    Right,
}

impl Alignment {
    /// The alignment a token stands for, if it stands for one.
    pub open spec fn spec_from_token(token: char) -> Option<Alignment> {
        if token == '<' {
            Some(Alignment::Left)
        } else if token == '^' {
            Some(Alignment::Center)
        } else if token == '>' {
            Some(Alignment::Right)
        } else {
            None
        }
    }

    /// Reads an alignment token: `<`, `^` or `>`.
    pub fn from_token(token: char) -> (res: Option<Alignment>)
        ensures
            res == Self::spec_from_token(token),
    {
        if token == '<' {
            Some(Alignment::Left)
        } else if token == '^' {
            Some(Alignment::Center)
        } else if token == '>' {
            Some(Alignment::Right)
        } else {
            None
        }
    }
}

/// What happens to content that is wider than its cell.
#[derive(Clone, Copy, Debug, PartialEq, Eq, Structural)]
pub enum Wrap {
    /// The content is cut off at the cell's width.
    Truncate,
    /// The content continues on further lines.
    Wrap,
}

impl Wrap {
    /// The wrap mode a token stands for, if it stands for one.
    pub open spec fn spec_from_token(token: char) -> Option<Wrap> {
        if token == ';' {
            Some(Wrap::Wrap)
        } else if token == '.' {
            Some(Wrap::Truncate)
        } else {
            None
        }
    }

    /// Reads a wrap token: `;` to wrap, `.` to truncate.
    pub fn from_token(token: char) -> (res: Option<Wrap>)
        ensures
            res == Self::spec_from_token(token),
    {
        if token == ';' {
            Some(Wrap::Wrap)
        } else if token == '.' {
            Some(Wrap::Truncate)
        } else {
            None
        }
    }
}

/// Why a style notation was rejected.
#[derive(Clone, Copy, Debug, PartialEq, Eq, Structural)]
pub enum StyleError {
    /// The notation is not enclosed in a matching pair of brackets.
    MissingBrackets,
    /// A `:` or `|` opens a width that is never closed.
    UnterminatedWidth,
    /// The text of a width is not a number that fits a `usize`.
    InvalidWidth,
}

/// The style applied to a line of content.
#[derive(Clone, Copy, Debug, PartialEq, Eq)]
pub struct ContentStyle {
    pub foreground_color: Option<Color>,
    pub background_color: Option<Color>,
    pub alignment: Alignment,
    pub wrap: Wrap,
    pub width: CellWidth,
}

/// Whether `open` and `close` are the two halves of one kind of bracket.
pub open spec fn spec_is_bracket_pair(open: char, close: char) -> bool {
    ||| (open == '{' && close == '}')
    ||| (open == '[' && close == ']')
    ||| (open == '(' && close == ')')
    ||| (open == '<' && close == '>')
}

/// Whether `c` is one of the ten decimal digits.
pub open spec fn spec_is_digit(c: char) -> bool {
    '0' <= c <= '9'
}

/// The number a run of decimal digits denotes.
pub open spec fn spec_digits_value(digits: Seq<char>) -> nat
    decreases digits.len(),
{
    if digits.len() == 0 {
        0
    } else {
        spec_digits_value(digits.drop_last()) * 10 + (digits.last() as nat - '0' as nat) as nat
    }
}

/// The number that a run of decimal digits denotes, where it is not empty,
/// holds nothing but digits and its value fits a `usize`.
pub open spec fn spec_parse_digits(digits: Seq<char>) -> Option<usize> {
    if digits.len() > 0 && (forall|i: int|
        0 <= i < digits.len() ==> spec_is_digit(#[trigger] digits[i])) && spec_digits_value(digits)
        <= usize::MAX {
        Some(spec_digits_value(digits) as usize)
    } else {
        None
    }
}

/// The width that `text` denotes: an optional `+`, then at least one decimal
/// digit, with a value that fits a `usize`.
pub open spec fn spec_parse_width(text: Seq<char>) -> Option<usize> {
    if text.len() > 0 && text[0] == '+' {
        spec_parse_digits(text.skip(1))
    } else {
        spec_parse_digits(text)
    }
}

/// The position of the first `c` in `s`.
pub open spec fn spec_first_index(s: Seq<char>, c: char) -> Option<nat>
    decreases s.len(),
{
    if s.len() == 0 {
        None
    } else if s[0] == c {
        Some(0)
    } else {
        match spec_first_index(s.skip(1), c) {
            Some(k) => Some(k + 1),
            None => None,
        }
    }
}

impl ContentStyle {
    /// The style of content that states none: left-aligned, truncated,
    /// uncoloured, as wide as the content.
    pub open spec fn spec_default() -> ContentStyle {
        ContentStyle {
            foreground_color: None,
            background_color: None,
            alignment: Alignment::Left,
            wrap: Wrap::Truncate,
            width: CellWidth::Content,
        }
    }

    /// The colour a letter stands for, if it stands for one.
    pub open spec fn spec_color_from_token(token: char) -> Option<Color> {
        if token == 'w' {
            Some(Color::White)
        } else if token == 'l' {
            Some(Color::Black)
        } else if token == 'r' {
            Some(Color::Red)
        } else if token == 'g' {
            Some(Color::Green)
        } else if token == 'y' {
            Some(Color::Yellow)
        } else if token == 'b' {
            Some(Color::Blue)
        } else if token == 'm' {
            Some(Color::Magenta)
        } else if token == 'c' {
            Some(Color::Cyan)
        } else if token == 'W' {
            Some(Color::BrightWhite)
        } else if token == 'L' {
            Some(Color::BrightBlack)
        } else if token == 'R' {
            Some(Color::BrightRed)
        } else if token == 'G' {
            Some(Color::BrightGreen)
        } else if token == 'Y' {
            Some(Color::BrightYellow)
        } else if token == 'B' {
            Some(Color::BrightBlue)
        } else if token == 'M' {
            Some(Color::BrightMagenta)
        } else if token == 'C' {
            Some(Color::BrightCyan)
        } else {
            None
        }
    }

    /// `self` after a token that stands alone: a colour letter sets the
    /// foreground, an alignment or wrap symbol sets its field, and anything
    /// else changes nothing.
    pub open spec fn spec_with_token(self, token: char) -> ContentStyle {
        ContentStyle {
            foreground_color: match Self::spec_color_from_token(token) {
                Some(color) => Some(color),
                None => self.foreground_color,
            },
            alignment: match Alignment::spec_from_token(token) {
                Some(alignment) => alignment,
                None => self.alignment,
            },
            wrap: match Wrap::spec_from_token(token) {
                Some(wrap) => wrap,
                None => self.wrap,
            },
            ..self
        }
    }

    /// What reading `tokens` from position `at` onwards makes of `self`.
    pub open spec fn spec_scan(self, tokens: Seq<char>, at: nat) -> Result<ContentStyle, StyleError>
        decreases tokens.len() - at,
    {
        if at >= tokens.len() {
            Ok(self)
        } else {
            let token = tokens[at as int];
            if token == ':' || token == '|' {
                let rest = tokens.skip(at + 1 as int);
                match spec_first_index(rest, token) {
                    None => Err(StyleError::UnterminatedWidth),
                    Some(end) => match spec_parse_width(rest.take(end as int)) {
                        None => Err(StyleError::InvalidWidth),
                        Some(n) => {
                            proof {
                                lemma_first_index_in_range(rest, token);
                            }
                            ContentStyle {
                                width: if token == ':' {
                                    CellWidth::Fixed(n)
                                } else {
                                    CellWidth::Minimum(n)
                                },
                                ..self
                            }.spec_scan(tokens, at + 1 + end + 1)
                        },
                    },
                }
            } else if token == '-' && at + 1 < tokens.len() && Self::spec_color_from_token(
                tokens[at + 1 as int],
            ) is Some {
                ContentStyle {
                    background_color: Self::spec_color_from_token(tokens[at + 1 as int]),
                    ..self
                }.spec_scan(tokens, at + 2)
            } else {
                self.spec_with_token(token).spec_scan(tokens, at + 1)
            }
        }
    }

    /// The style that a notation denotes, or the reason it denotes none.
    pub open spec fn spec_from_format(format: Seq<char>) -> Result<ContentStyle, StyleError> {
        if format.len() < 2 || !spec_is_bracket_pair(format.first(), format.last()) {
            Err(StyleError::MissingBrackets)
        } else {
            Self::spec_default().spec_scan(format.subrange(1, format.len() - 1), 0)
        }
    }

    /// The default style: left-aligned, truncated, uncoloured, content width.
    pub fn default() -> (res: ContentStyle)
        ensures
            res == Self::spec_default(),
    {
        ContentStyle {
            foreground_color: None,
            background_color: None,
            alignment: Alignment::Left,
            wrap: Wrap::Truncate,
            width: CellWidth::Content,
        }
    }

    /// A style with the given fields.
    pub fn new(
        foreground_color: Option<Color>,
        background_color: Option<Color>,
        alignment: Alignment,
        wrap: Wrap,
        width: CellWidth,
    ) -> (res: ContentStyle)
        ensures
            res == (ContentStyle { foreground_color, background_color, alignment, wrap, width }),
    {
        ContentStyle { foreground_color, background_color, alignment, wrap, width }
    }

    /// Reads a colour letter: `l r g y b m c w` for black, red, green, yellow,
    /// blue, magenta, cyan and white, and the same letters in upper case for
    /// the bright variants.
    pub fn color_from_token(token: char) -> (res: Option<Color>)
        ensures
            res == Self::spec_color_from_token(token),
    {
        if token == 'w' {
            Some(Color::White)
        } else if token == 'l' {
            Some(Color::Black)
        } else if token == 'r' {
            Some(Color::Red)
        } else if token == 'g' {
            Some(Color::Green)
        } else if token == 'y' {
            Some(Color::Yellow)
        } else if token == 'b' {
            Some(Color::Blue)
        } else if token == 'm' {
            Some(Color::Magenta)
        } else if token == 'c' {
            Some(Color::Cyan)
        } else if token == 'W' {
            Some(Color::BrightWhite)
        } else if token == 'L' {
            Some(Color::BrightBlack)
        } else if token == 'R' {
            Some(Color::BrightRed)
        } else if token == 'G' {
            Some(Color::BrightGreen)
        } else if token == 'Y' {
            Some(Color::BrightYellow)
        } else if token == 'B' {
            Some(Color::BrightBlue)
        } else if token == 'M' {
            Some(Color::BrightMagenta)
        } else if token == 'C' {
            Some(Color::BrightCyan)
        } else {
            None
        }
    }

    /// Parses a style notation such as `{c^-g:15:}`.
    ///
    /// Fields that the notation does not mention keep their default.
    pub fn from_format(format: &str) -> (res: Result<ContentStyle, StyleError>)
        ensures
            res == Self::spec_from_format(format@),
    {
        let len: usize = format.unicode_len();
        if len < 2 {
            return Err(StyleError::MissingBrackets);
        }
        let open: char = format.get_char(0);
        let close: char = format.get_char(len - 1);
        if !((open == '{' && close == '}') || (open == '[' && close == ']') || (open == '('
            && close == ')') || (open == '<' && close == '>')) {
            return Err(StyleError::MissingBrackets);
        }
        let inner: &str = format.substring_char(1, len - 1);
        let count: usize = len - 2;
        let ghost tokens: Seq<char> = inner@;
        let mut style: ContentStyle = ContentStyle::default();
        let mut at: usize = 0;
        while at < count
            invariant
                count == tokens.len(),
                tokens == inner@,
                at <= count,
                Self::spec_from_format(format@) == style.spec_scan(tokens, at as nat),
            decreases count - at,
        {
            let token: char = inner.get_char(at);
            if token == ':' || token == '|' {
                let start: usize = at + 1;
                let mut end: usize = start;
                while end < count && inner.get_char(end) != token
                    invariant
                        count == tokens.len(),
                        tokens == inner@,
                        start <= end <= count,
                        forall|k: int| start <= k < end ==> tokens[k] != token,
                    decreases count - end,
                {
                    end += 1;
                }
                proof {
                    let rest = tokens.skip(start as int);
                    assert forall|k: int| 0 <= k < end - start implies rest[k] != token by {
                        assert(rest[k] == tokens[start + k]);
                    }
                    lemma_first_index(rest, token, (end - start) as nat);
                    assert(rest.take(end - start) =~= tokens.subrange(start as int, end as int));
                }
                if end >= count {
                    return Err(StyleError::UnterminatedWidth);
                }
                match parse_width(inner, start, end) {
                    None => {
                        return Err(StyleError::InvalidWidth);
                    },
                    Some(n) => {
                        if token == ':' {
                            style.width = CellWidth::Fixed(n);
                        } else {
                            style.width = CellWidth::Minimum(n);
                        }
                        at = end + 1;
                    },
                }
            } else if token == '-' && at + 1 < count && Self::color_from_token(
                inner.get_char(at + 1),
            ).is_some() {
                style.background_color = Self::color_from_token(inner.get_char(at + 1));
                at += 2;
            } else {
                if let Some(color) = Self::color_from_token(token) {
                    style.foreground_color = Some(color);
                }
                if let Some(alignment) = Alignment::from_token(token) {
                    style.alignment = alignment;
                }
                if let Some(wrap) = Wrap::from_token(token) {
                    style.wrap = wrap;
                }
                at += 1;
            }
        }
        Ok(style)
    }
}

/// Reads the characters of `text` from `from` up to `to` as a width.
pub fn parse_width(text: &str, from: usize, to: usize) -> (res: Option<usize>)
    requires
        from <= to <= text@.len(),
    ensures
        res == spec_parse_width(text@.subrange(from as int, to as int)),
{
    let ghost whole: Seq<char> = text@.subrange(from as int, to as int);
    let mut at: usize = from;
    if at < to && text.get_char(at) == '+' {
        at += 1;
    }
    let first: usize = at;
    let ghost digits: Seq<char> = text@.subrange(first as int, to as int);
    proof {
        if first > from {
            assert(whole[0] == '+');
            assert(whole.skip(1) =~= digits);
        } else {
            if whole.len() > 0 {
                assert(whole[0] == text@[from as int]);
            }
            assert(whole =~= digits);
        }
    }
    if first >= to {
        return None;
    }
    let mut value: usize = 0;
    while at < to
        invariant
            from <= first <= at <= to <= text@.len(),
            whole == text@.subrange(from as int, to as int),
            digits == text@.subrange(first as int, to as int),
            digits == if whole.len() > 0 && whole[0] == '+' {
                whole.skip(1)
            } else {
                whole
            },
            forall|i: int| 0 <= i < at - first ==> spec_is_digit(#[trigger] digits[i]),
            value == spec_digits_value(digits.take(at - first)),
        decreases to - at,
    {
        let c: char = text.get_char(at);
        assert(c == digits[at - first]);
        if !('0' <= c && c <= '9') {
            assert(!spec_is_digit(digits[at - first]));
            return None;
        }
        let d: usize = (c as u32 - '0' as u32) as usize;
        proof {
            let longer = digits.take(at - first + 1);
            assert(longer.drop_last() =~= digits.take(at - first));
            assert(longer.last() == c);
            lemma_digits_value_grows(digits, (at - first + 1) as nat);
        }
        let next: Option<usize> = match value.checked_mul(10) {
            Some(tens) => tens.checked_add(d),
            None => None,
        };
        match next {
            Some(n) => {
                value = n;
            },
            None => {
                return None;
            },
        }
        at += 1;
    }
    proof {
        assert(digits.take(to - first) =~= digits);
    }
    Some(value)
}

/// The first `c` in `s`, where there is one, is at a position of `s`.
pub proof fn lemma_first_index_in_range(s: Seq<char>, c: char)
    ensures
        spec_first_index(s, c) matches Some(k) ==> k < s.len() && s[k as int] == c,
    decreases s.len(),
{
    if s.len() > 0 && s[0] != c {
        lemma_first_index_in_range(s.skip(1), c);
    }
}

/// The first `off` characters of `s` differ from `c`, so the first `c` is at
/// `off` if `s` reaches that far and nowhere otherwise.
proof fn lemma_first_index(s: Seq<char>, c: char, off: nat)
    requires
        off <= s.len(),
        forall|k: int| 0 <= k < off ==> s[k] != c,
        off < s.len() ==> s[off as int] == c,
    ensures
        spec_first_index(s, c) == if off < s.len() {
            Some(off)
        } else {
            None::<nat>
        },
    decreases off,
{
    if off > 0 {
        let tail = s.skip(1);
        assert forall|k: int| 0 <= k < off - 1 implies tail[k] != c by {
            assert(tail[k] == s[k + 1]);
        }
        lemma_first_index(tail, c, (off - 1) as nat);
    }
}

/// A run of digits denotes at least as much as any of its prefixes.
proof fn lemma_digits_value_grows(digits: Seq<char>, n: nat)
    requires
        n <= digits.len(),
    ensures
        spec_digits_value(digits.take(n as int)) <= spec_digits_value(digits),
    decreases digits.len() - n,
{
    if n == digits.len() {
        assert(digits.take(n as int) =~= digits);
    } else {
        lemma_digits_value_grows(digits, n + 1);
        let longer = digits.take(n + 1 as int);
        assert(longer.drop_last() =~= digits.take(n as int));
    }
}

} // verus!
