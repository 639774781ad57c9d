use text_table::color::Color;
use text_table::content_style::{
    parse_width, Alignment, CellWidth, ContentStyle, StyleError, Wrap,
};

#[test]
fn from_format_fixed_width() {
    let style = ContentStyle::from_format("{c^;:15:}").unwrap();

    let expected = ContentStyle {
        foreground_color: Some(Color::Cyan),
        background_color: None,
        alignment: Alignment::Center,
        wrap: Wrap::Wrap,
        width: CellWidth::Fixed(15),
    };

    assert_eq!(format!("{:?}", style), format!("{:?}", expected));
}

#[test]
fn from_format_empty_brackets_is_default() {
    assert_eq!(ContentStyle::from_format("{}"), Ok(ContentStyle::default()));
    assert_eq!(
        ContentStyle::default(),
        ContentStyle::new(None, None, Alignment::Left, Wrap::Truncate, CellWidth::Content)
    );
    assert_eq!(format!("{:?}", CellWidth::default()), format!("{:?}", CellWidth::Content));
}

#[test]
fn from_format_example_of_the_notation() {
    assert_eq!(
        ContentStyle::from_format("{c^-g:15:}"),
        Ok(ContentStyle::new(
            Some(Color::Cyan),
            Some(Color::Green),
            Alignment::Center,
            Wrap::Truncate,
            CellWidth::Fixed(15)
        ))
    );
}

#[test]
fn from_format_minimum_width() {
    assert_eq!(
        ContentStyle::from_format("{>|12|}"),
        Ok(ContentStyle::new(None, None, Alignment::Right, Wrap::Truncate, CellWidth::Minimum(12)))
    );
}

#[test]
fn from_format_last_token_wins() {
    assert_eq!(
        ContentStyle::from_format("{r<;g>.:3:|4|}"),
        Ok(ContentStyle::new(
            Some(Color::Green),
            None,
            Alignment::Right,
            Wrap::Truncate,
            CellWidth::Minimum(4)
        ))
    );
}

#[test]
fn from_format_all_colour_letters() {
    let letters = [
        ('w', Color::White),
        ('l', Color::Black),
        ('r', Color::Red),
        ('g', Color::Green),
        ('y', Color::Yellow),
        ('b', Color::Blue),
        ('m', Color::Magenta),
        ('c', Color::Cyan),
        ('W', Color::BrightWhite),
        ('L', Color::BrightBlack),
        ('R', Color::BrightRed),
        ('G', Color::BrightGreen),
        ('Y', Color::BrightYellow),
        ('B', Color::BrightBlue),
        ('M', Color::BrightMagenta),
        ('C', Color::BrightCyan),
    ];
    for (letter, color) in letters {
        assert_eq!(ContentStyle::color_from_token(letter), Some(color));
        let style = ContentStyle::from_format(&format!("{{{}-{}}}", letter, letter)).unwrap();
        assert_eq!(style.foreground_color, Some(color));
        assert_eq!(style.background_color, Some(color));
    }
    assert_eq!(ContentStyle::color_from_token('x'), None);
}

#[test]
fn from_format_background_consumes_two_characters() {
    let style = ContentStyle::from_format("{-r}").unwrap();
    assert_eq!(style.foreground_color, None);
    assert_eq!(style.background_color, Some(Color::Red));
    let style = ContentStyle::from_format("{g-bc}").unwrap();
    assert_eq!(style.foreground_color, Some(Color::Cyan));
    assert_eq!(style.background_color, Some(Color::Blue));
}

#[test]
fn from_format_dash_without_colour_letter_is_ignored() {
    let style = ContentStyle::from_format("{g-b-^}").unwrap();
    assert_eq!(style.foreground_color, Some(Color::Green));
    assert_eq!(style.background_color, Some(Color::Blue));
    assert_eq!(style.alignment, Alignment::Center);
}

#[test]
fn from_format_trailing_dash_is_ignored() {
    assert_eq!(
        ContentStyle::from_format("{r-}"),
        Ok(ContentStyle::new(Some(Color::Red), None, Alignment::Left, Wrap::Truncate, CellWidth::Content))
    );
}

#[test]
fn from_format_unknown_characters_are_ignored() {
    assert_eq!(
        ContentStyle::from_format("{ x?^_ }"),
        Ok(ContentStyle::new(None, None, Alignment::Center, Wrap::Truncate, CellWidth::Content))
    );
}

#[test]
fn from_format_other_brackets() {
    assert_eq!(ContentStyle::from_format("[>]").map(|s| s.alignment), Ok(Alignment::Right));
    assert_eq!(ContentStyle::from_format("(;)").map(|s| s.wrap), Ok(Wrap::Wrap));
    assert_eq!(ContentStyle::from_format("<^>").map(|s| s.alignment), Ok(Alignment::Center));
}

#[test]
fn from_format_missing_brackets() {
    assert_eq!(ContentStyle::from_format(""), Err(StyleError::MissingBrackets));
    assert_eq!(ContentStyle::from_format("{"), Err(StyleError::MissingBrackets));
    assert_eq!(ContentStyle::from_format("c^"), Err(StyleError::MissingBrackets));
    assert_eq!(ContentStyle::from_format("{c^"), Err(StyleError::MissingBrackets));
    assert_eq!(ContentStyle::from_format("{c^]"), Err(StyleError::MissingBrackets));
}

#[test]
fn from_format_unterminated_width() {
    assert_eq!(ContentStyle::from_format("{:15}"), Err(StyleError::UnterminatedWidth));
    assert_eq!(ContentStyle::from_format("{|15}"), Err(StyleError::UnterminatedWidth));
    assert_eq!(ContentStyle::from_format("{:15|}"), Err(StyleError::UnterminatedWidth));
    assert_eq!(ContentStyle::from_format("{c:}"), Err(StyleError::UnterminatedWidth));
}

#[test]
fn from_format_invalid_width() {
    assert_eq!(ContentStyle::from_format("{:abc:}"), Err(StyleError::InvalidWidth));
    assert_eq!(ContentStyle::from_format("{::}"), Err(StyleError::InvalidWidth));
    assert_eq!(ContentStyle::from_format("{|-3|}"), Err(StyleError::InvalidWidth));
    assert_eq!(ContentStyle::from_format("{: 3:}"), Err(StyleError::InvalidWidth));
    assert_eq!(
        ContentStyle::from_format("{:99999999999999999999999999:}"),
        Err(StyleError::InvalidWidth)
    );
}

#[test]
fn from_format_first_error_is_reported() {
    assert_eq!(ContentStyle::from_format("{:x:|3}"), Err(StyleError::InvalidWidth));
    assert_eq!(ContentStyle::from_format("{|3|:x}"), Err(StyleError::UnterminatedWidth));
}

#[test]
fn from_format_width_with_plus_sign_and_zeros() {
    assert_eq!(ContentStyle::from_format("{:+15:}").map(|s| s.width), Ok(CellWidth::Fixed(15)));
    assert_eq!(ContentStyle::from_format("{:007:}").map(|s| s.width), Ok(CellWidth::Fixed(7)));
    assert_eq!(ContentStyle::from_format("{:0:}").map(|s| s.width), Ok(CellWidth::Fixed(0)));
}

#[test]
fn parse_width_reads_a_range() {
    assert_eq!(parse_width("ab123cd", 2, 5), Some(123));
    assert_eq!(parse_width("ab123cd", 2, 6), None);
    assert_eq!(parse_width("ab123cd", 2, 2), None);
    assert_eq!(parse_width("+", 0, 1), None);
    assert_eq!(parse_width(&usize::MAX.to_string(), 0, usize::MAX.to_string().len()), Some(usize::MAX));
    let too_large = format!("{}0", usize::MAX);
    assert_eq!(parse_width(&too_large, 0, too_large.len()), None);
}

#[test]
fn alignment_and_wrap_tokens() {
    assert_eq!(Alignment::from_token('<'), Some(Alignment::Left));
    assert_eq!(Alignment::from_token('^'), Some(Alignment::Center));
    assert_eq!(Alignment::from_token('>'), Some(Alignment::Right));
    assert_eq!(Alignment::from_token('x'), None);
    assert_eq!(Wrap::from_token(';'), Some(Wrap::Wrap));
    assert_eq!(Wrap::from_token('.'), Some(Wrap::Truncate));
    assert_eq!(Wrap::from_token(':'), None);
}
