use text_table::color::Color;
use text_table::content::Content;
use text_table::content_style::{Alignment, CellWidth, ContentStyle, Wrap};

fn style(alignment: Alignment, wrap: Wrap) -> ContentStyle {
    ContentStyle::new(None, None, alignment, wrap, CellWidth::Content)
}

fn all_lines(content: &Content, base: &ContentStyle, width: usize) -> Vec<String> {
    let mut iterator = content.get_iterator(base, width);
    let mut lines = Vec::new();
    while let Some(line) = iterator.next() {
        lines.push(line);
    }
    lines
}

#[test]
fn test_format() {
    let expected = "Test    ";

    assert_eq!(
        Content::format("Test", &ContentStyle::from_format("{:8:}").unwrap(), 8),
        expected
    );
}

#[test]
fn test_pad() {
    let expected = "Test  ";

    assert_eq!(Content::pad("Test", &Alignment::Left, 6), expected);
}

#[test]
fn pad_right_puts_spaces_first() {
    assert_eq!(Content::pad("Test", &Alignment::Right, 6), "  Test");
}

#[test]
fn pad_center_even() {
    assert_eq!(Content::pad("Test", &Alignment::Center, 8), "  Test  ");
}

#[test]
fn pad_center_odd_puts_extra_space_right() {
    assert_eq!(Content::pad("Test", &Alignment::Center, 9), "  Test   ");
    assert_eq!(Content::pad("Test", &Alignment::Center, 5), "Test ");
}

#[test]
fn pad_exact_width_is_unchanged() {
    assert_eq!(Content::pad("Test", &Alignment::Center, 4), "Test");
}

#[test]
fn pad_longer_line_is_unchanged() {
    assert_eq!(Content::pad("Testing", &Alignment::Right, 4), "Testing");
}

#[test]
fn pad_counts_characters_not_bytes() {
    assert_eq!(Content::pad("né", &Alignment::Left, 4), "né  ");
    assert_eq!(Content::pad("日本", &Alignment::Right, 3), " 日本");
}

#[test]
fn truncate_takes_the_first_characters() {
    let content = Content::new("Hello, world".to_string(), None);
    let lines = all_lines(&content, &style(Alignment::Left, Wrap::Truncate), 5);
    assert_eq!(lines, vec!["Hello".to_string()]);
}

#[test]
fn truncate_cuts_between_characters() {
    let content = Content::new("žluťoučký".to_string(), None);
    let lines = all_lines(&content, &style(Alignment::Left, Wrap::Truncate), 4);
    assert_eq!(lines, vec!["žluť".to_string()]);
}

#[test]
fn truncate_pads_short_text() {
    let content = Content::new("Hi".to_string(), None);
    let lines = all_lines(&content, &style(Alignment::Right, Wrap::Truncate), 5);
    assert_eq!(lines, vec!["   Hi".to_string()]);
}

#[test]
fn truncate_at_width_zero_is_one_empty_line() {
    let content = Content::new("Hi".to_string(), None);
    let lines = all_lines(&content, &style(Alignment::Left, Wrap::Truncate), 0);
    assert_eq!(lines, vec![String::new()]);
}

#[test]
fn wrap_splits_into_pieces_of_the_width() {
    let content = Content::new("abcdefghij".to_string(), None);
    let lines = all_lines(&content, &style(Alignment::Left, Wrap::Wrap), 4);
    assert_eq!(lines, vec!["abcd".to_string(), "efgh".to_string(), "ij  ".to_string()]);
}

#[test]
fn wrap_of_exact_multiple_has_no_extra_line() {
    let content = Content::new("abcdefgh".to_string(), None);
    let lines = all_lines(&content, &style(Alignment::Left, Wrap::Wrap), 4);
    assert_eq!(lines, vec!["abcd".to_string(), "efgh".to_string()]);
}

#[test]
fn wrap_aligns_every_piece() {
    let content = Content::new("abcdefg".to_string(), None);
    let lines = all_lines(&content, &style(Alignment::Right, Wrap::Wrap), 5);
    assert_eq!(lines, vec!["abcde".to_string(), "   fg".to_string()]);
    let lines = all_lines(&content, &style(Alignment::Center, Wrap::Wrap), 5);
    assert_eq!(lines, vec!["abcde".to_string(), " fg  ".to_string()]);
}

#[test]
fn wrap_pieces_give_back_the_text() {
    let text = "The quick brown fox jumps over the lazy dog";
    let content = Content::new(text.to_string(), None);
    for width in 1..50usize {
        let lines = all_lines(&content, &style(Alignment::Left, Wrap::Wrap), width);
        let expected_count = (text.len() + width - 1) / width;
        assert_eq!(lines.len(), expected_count);
        let mut joined = String::new();
        for line in &lines {
            assert_eq!(line.chars().count(), width);
            joined.push_str(line);
        }
        assert_eq!(joined.trim_end(), text);
    }
}

#[test]
fn wrap_of_empty_text_has_no_lines() {
    let content = Content::new(String::new(), None);
    let lines = all_lines(&content, &style(Alignment::Left, Wrap::Wrap), 4);
    assert_eq!(lines.len(), 0);
}

#[test]
fn wrap_at_width_zero_is_one_empty_line() {
    let content = Content::new("abc".to_string(), None);
    let lines = all_lines(&content, &style(Alignment::Left, Wrap::Wrap), 0);
    assert_eq!(lines, vec![String::new()]);
}

#[test]
fn own_style_wins_over_base_style() {
    let own = style(Alignment::Right, Wrap::Truncate);
    let content = Content::new("ab".to_string(), Some(own));
    let lines = all_lines(&content, &style(Alignment::Left, Wrap::Wrap), 4);
    assert_eq!(lines, vec!["  ab".to_string()]);
}

#[test]
fn every_line_has_the_width_for_all_alignments_and_wrap_modes() {
    let content = Content::new("some text to lay out".to_string(), None);
    for alignment in [Alignment::Left, Alignment::Center, Alignment::Right] {
        for wrap in [Wrap::Wrap, Wrap::Truncate] {
            for width in 0..30usize {
                for line in all_lines(&content, &style(alignment, wrap), width) {
                    assert_eq!(line.chars().count(), width);
                }
            }
        }
    }
}

#[test]
fn measure_width_counts_characters() {
    assert_eq!(Content::new("test".to_string(), None).measure_width(), 4);
    assert_eq!(Content::new("žluť".to_string(), None).measure_width(), 4);
    assert_eq!(Content::from_str("").measure_width(), 0);
}

#[test]
fn measure_height_of_wrapping_content() {
    let wrapping = Content::new("abcdefghij".to_string(), Some(style(Alignment::Left, Wrap::Wrap)));
    assert_eq!(wrapping.measure_height(4), 3);
    assert_eq!(wrapping.measure_height(5), 2);
    assert_eq!(wrapping.measure_height(10), 1);
    assert_eq!(wrapping.measure_height(0), 1);
    assert!(wrapping.will_wrap());
}

#[test]
fn measure_height_of_truncating_content() {
    let truncating =
        Content::new("abcdefghij".to_string(), Some(style(Alignment::Left, Wrap::Truncate)));
    assert_eq!(truncating.measure_height(4), 1);
    assert!(!truncating.will_wrap());
    let unstyled = Content::new("abcdefghij".to_string(), None);
    assert_eq!(unstyled.measure_height(4), 1);
    assert!(!unstyled.will_wrap());
}

#[test]
fn duplicate_holds_the_same() {
    let own = ContentStyle::new(Some(Color::Red), None, Alignment::Center, Wrap::Wrap, CellWidth::Fixed(3));
    let content = Content::new("abc".to_string(), Some(own));
    assert_eq!(format!("{:?}", content.duplicate()), format!("{:?}", content));
    assert_eq!(content.own_style(), Some(own));
    assert_eq!(content.effective_style(&ContentStyle::default()), own);
    assert_eq!(
        Content::from_str("x").effective_style(&own),
        own
    );
}

#[test]
fn is_line_tells_line_feeds() {
    assert!(Content::from_str("one line").is_line());
    assert!(Content::from_str("").is_line());
    assert!(!Content::from_str("two\nlines").is_line());
    assert!(!Content::new("ends\n".to_string(), None).is_line());
}
