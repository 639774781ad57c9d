//! Column breaks written as short texts: `f:15` for a fixed width, `m:15`
//! for a minimum width, and `c` for the width of the content.

use vstd::prelude::*;
use vstd::string::*;
use crate::content_style::{parse_width, spec_parse_width};
use crate::text::{lemma_split_not_empty, spec_split, spec_texts, split};

verus! {

/// Where a column ends.
#[derive(Debug)]
pub enum ColumnBreak {
    /// The column is exactly this wide.
    Fixed(usize),
    /// The column is at least this wide.
    Minimum(usize),
    /// The column is as wide as the content of its header.
    Content,
}

/// Why a text was not understood.
#[derive(Debug)]
pub enum ParseError {
    /// The text does not have the expected form; the message says why.
    InvalidFormat(String),
}

/// Whether `c` is white space: a character with the Unicode property
/// `White_Space`.
pub open spec fn spec_is_space(c: char) -> bool {
    ||| '\u{9}' <= c <= '\u{d}'
    ||| c == ' '
    ||| c == '\u{85}'
    ||| c == '\u{a0}'
    ||| c == '\u{1680}'
    ||| '\u{2000}' <= c <= '\u{200a}'
    ||| c == '\u{2028}'
    ||| c == '\u{2029}'
    ||| c == '\u{202f}'
    ||| c == '\u{205f}'
    ||| c == '\u{3000}'
}

/// Whether `s` holds nothing but white space.
pub open spec fn spec_is_blank(s: Seq<char>) -> bool {
    forall|i: int| 0 <= i < s.len() ==> spec_is_space(#[trigger] s[i])
}

/// The message for a text that is empty or blank.
pub open spec fn spec_empty_message() -> Seq<char> {
    "format cannot be empty"@
}

/// The message for a fixed or minimum break that states no width.
pub open spec fn spec_missing_width_message() -> Seq<char> {
    "format has no width"@
}

/// The message for a width that is not a number.
pub open spec fn spec_invalid_width_message() -> Seq<char> {
    "width is not a number"@
}

impl ColumnBreak {
    /// The column break that `s` denotes, or the message of the error.
    ///
    /// The text is read as fields separated by `:`. A first field `f` or
    /// `m` makes a fixed or minimum break of the width in the second field;
    /// any other first field makes a content break. Fields after those are
    /// not read.
    pub open spec fn spec_from_str(s: Seq<char>) -> Result<ColumnBreak, Seq<char>> {
        let fields = spec_split(s, ':');
        if spec_is_blank(s) {
            Err(spec_empty_message())
        } else if fields[0] == seq!['f'] || fields[0] == seq!['m'] {
            if fields.len() < 2 {
                Err(spec_missing_width_message())
            } else {
                match spec_parse_width(fields[1]) {
                    None => Err(spec_invalid_width_message()),
                    Some(width) => if fields[0] == seq!['f'] {
                        Ok(ColumnBreak::Fixed(width))
                    } else {
                        Ok(ColumnBreak::Minimum(width))
                    },
                }
            }
        } else {
            Ok(ColumnBreak::Content)
        }
    }

    /// Reads a column break from its text.
    pub fn from_str(s: &str) -> (res: Result<ColumnBreak, ParseError>)
        ensures
            match res {
                Ok(column_break) => Self::spec_from_str(s@) == Ok::<ColumnBreak, Seq<char>>(
                    column_break,
                ),
                Err(ParseError::InvalidFormat(message)) => Self::spec_from_str(s@) == Err::<
                    ColumnBreak,
                    Seq<char>,
                >(message@),
            },
    {
        if is_blank(s) {
            return Err(ParseError::InvalidFormat("format cannot be empty".to_owned()));
        }
        let content: Vec<String> = split(s, ':');
        proof {
            lemma_split_not_empty(s@, ':');
            assert(spec_texts(content@)[0] == content@[0]@);
        }
        let kind: &str = content[0].as_str();
        let fixed: bool = kind.unicode_len() == 1 && kind.get_char(0) == 'f';
        let minimum: bool = kind.unicode_len() == 1 && kind.get_char(0) == 'm';
        proof {
            assert(fixed <==> kind@ =~= seq!['f']);
            assert(minimum <==> kind@ =~= seq!['m']);
        }
        if fixed || minimum {
            if content.len() < 2 {
                return Err(ParseError::InvalidFormat("format has no width".to_owned()));
            }
            let digits: &str = content[1].as_str();
            proof {
                assert(spec_texts(content@)[1] == content@[1]@);
                assert(digits@.subrange(0, digits@.len() as int) =~= digits@);
            }
            match parse_width(digits, 0, digits.unicode_len()) {
                None => Err(ParseError::InvalidFormat("width is not a number".to_owned())),
                Some(width) => if fixed {
                    Ok(ColumnBreak::Fixed(width))
                } else {
                    Ok(ColumnBreak::Minimum(width))
                },
            }
        } else {
            Ok(ColumnBreak::Content)
        }
    }

    /// Reads a column break from a text that denotes one.
    pub fn from_string(s: &str) -> (res: ColumnBreak)
        requires
            Self::spec_from_str(s@) is Ok,
        ensures
            Self::spec_from_str(s@) == Ok::<ColumnBreak, Seq<char>>(res),
    {
        match ColumnBreak::from_str(s) {
            Ok(column_break) => column_break,
            Err(_) => ColumnBreak::Content,
        }
    }
}

/// Whether `c` is white space.
pub fn is_space(c: char) -> (res: bool)
    ensures
        res == spec_is_space(c),
{
    ('\u{9}' <= c && c <= '\u{d}') || c == ' ' || c == '\u{85}' || c == '\u{a0}' || c
        == '\u{1680}' || ('\u{2000}' <= c && c <= '\u{200a}') || c == '\u{2028}' || c
        == '\u{2029}' || c == '\u{202f}' || c == '\u{205f}' || c == '\u{3000}'
}

/// Whether `s` holds nothing but white space.
pub fn is_blank(s: &str) -> (res: bool)
    ensures
        res == spec_is_blank(s@),
{
    for c in it: s.chars()
        invariant
            it.seq() == s@,
            forall|i: int| 0 <= i < it.index() ==> spec_is_space(#[trigger] s@[i]),
    {
        if !is_space(c) {
            assert(!spec_is_space(s@[it.index() as int]));
            return false;
        }
    }
    true
}

} // verus!
