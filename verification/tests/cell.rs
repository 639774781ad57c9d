use text_table::color::Color;
use text_table::content::Content;
use text_table::content_style::{Alignment, CellWidth, ContentStyle, StyleError, Wrap};
use text_table::data_item::DataItem;
use text_table::table::cell::Cell;
use text_table::table::table_cell::TableCell;

fn all_lines(cell: &Cell, policy: &CellWidth) -> Vec<String> {
    let mut iterator = cell.get_iterator(policy);
    let mut lines = Vec::new();
    while let Some(line) = iterator.next() {
        lines.push(line);
    }
    lines
}

#[test]
fn cell_test_table_cell_macro() {
    let tc = Cell::from_styled_content("{r<;} {G-b^}", vec!["testing", "this"]).unwrap();

    assert_eq!(tc.contents().len(), 2);

    assert_eq!(
        format!("{:?}", tc.contents()[0]),
        format!(
            "{:?}",
            Content::new(
                "testing".to_string(),
                Some(ContentStyle::new(
                    Some(Color::Red),
                    None,
                    Alignment::Left,
                    Wrap::Wrap,
                    CellWidth::Content
                ))
            )
        )
    );
}

#[test]
fn table_cell_test_table_cell_macro() {
    let tc = TableCell::from_styled_content("{r<;} {G-b^}", vec!["testing", "this"]).unwrap();

    assert_eq!(tc.contents().len(), 2);

    assert_eq!(
        format!("{:?}", tc.contents()[0]),
        format!(
            "{:?}",
            Content::new(
                "testing".to_string(),
                Some(ContentStyle::new(
                    Some(Color::Red),
                    None,
                    Alignment::Left,
                    Wrap::Wrap,
                    CellWidth::Content
                ))
            )
        )
    );
}

#[test]
fn styled_content_second_style() {
    let tc = Cell::from_styled_content("{r<;} {G-b^}", vec!["testing", "this"]).unwrap();
    assert_eq!(
        tc.contents()[1].own_style(),
        Some(ContentStyle::new(
            Some(Color::BrightGreen),
            Some(Color::Blue),
            Alignment::Center,
            Wrap::Truncate,
            CellWidth::Content
        ))
    );
    assert_eq!(tc.base_style(), ContentStyle::default());
}

#[test]
fn styled_content_beyond_the_styles_gets_the_default() {
    let tc = Cell::from_styled_content("{>}", vec!["a", "b"]).unwrap();
    assert_eq!(tc.contents()[0].own_style().unwrap().alignment, Alignment::Right);
    assert_eq!(tc.contents()[1].own_style(), Some(ContentStyle::default()));
}

#[test]
fn styled_content_does_not_read_unused_styles() {
    let tc = Cell::from_styled_content("{>} nonsense", vec!["a"]).unwrap();
    assert_eq!(tc.contents().len(), 1);
}

#[test]
fn styled_content_reports_the_first_bad_style() {
    assert_eq!(
        Cell::from_styled_content("{>} {:x:} oops", vec!["a", "b", "c"]).err(),
        Some(StyleError::InvalidWidth)
    );
    assert_eq!(
        Cell::from_styled_content("", vec!["a"]).err(),
        Some(StyleError::MissingBrackets)
    );
    assert_eq!(
        Cell::from_styled_content("{}  {}", vec!["a", "b"]).err(),
        Some(StyleError::MissingBrackets)
    );
}

#[test]
fn empty_cell_measures_zero() {
    let cell = Cell::empty();
    assert_eq!(cell.measure_width(&CellWidth::Content), 0);
    assert_eq!(cell.measure_width(&CellWidth::Minimum(3)), 3);
    assert_eq!(cell.measure_height(&CellWidth::Content), 0);
    assert_eq!(all_lines(&cell, &CellWidth::Fixed(4)).len(), 0);
    assert_eq!(format!("{:?}", cell.get_cell_width()), format!("{:?}", CellWidth::Content));
}

#[test]
fn measure_width_under_each_policy() {
    let cell = Cell::from_contents(vec!["ab".to_string(), "abcdefgh".to_string(), "abc".to_string()]);
    assert_eq!(cell.measure_content_width(), 8);
    assert_eq!(cell.measure_width(&CellWidth::Content), 8);
    assert_eq!(cell.measure_width(&CellWidth::Fixed(5)), 5);
    assert_eq!(cell.measure_width(&CellWidth::Fixed(50)), 50);
    assert_eq!(cell.measure_width(&CellWidth::Minimum(5)), 8);
    assert_eq!(cell.measure_width(&CellWidth::Minimum(8)), 8);
    assert_eq!(cell.measure_width(&CellWidth::Minimum(12)), 12);
}

#[test]
fn measure_height_is_the_sum_over_the_contents() {
    let cell = Cell::from_styled_content("{} {;}", vec!["one line", "wraps into three"]).unwrap();
    // at width 6: "one line" is truncated to one line; the 16 characters of
    // the second content take three lines
    assert_eq!(cell.measure_height(&CellWidth::Fixed(6)), 4);
    assert_eq!(cell.checked_measure_height(&CellWidth::Fixed(6)), Some(4));
}

#[test]
fn measure_height_reserves_a_line_at_an_exact_multiple() {
    let cell = Cell::from_styled_content("{;}", vec!["abcdefgh"]).unwrap();
    assert_eq!(cell.measure_height(&CellWidth::Fixed(4)), 3);
    assert_eq!(
        all_lines(&cell, &CellWidth::Fixed(4)),
        vec!["abcd".to_string(), "efgh".to_string(), "    ".to_string()]
    );
}

#[test]
fn measure_height_counts_fitting_content_once() {
    let cell = Cell::from_styled_content("{;} {;} {;}", vec!["", "abc", "abcd"]).unwrap();
    assert_eq!(cell.measure_height(&CellWidth::Fixed(4)), 3);
    assert_eq!(
        all_lines(&cell, &CellWidth::Fixed(4)),
        vec!["abc ".to_string(), "abcd".to_string(), "    ".to_string()]
    );
}

#[test]
fn measure_height_at_width_zero() {
    let cell = Cell::from_styled_content("{;} {.}", vec!["abc", "de"]).unwrap();
    assert_eq!(cell.measure_height(&CellWidth::Fixed(0)), 2);
    assert_eq!(all_lines(&cell, &CellWidth::Fixed(0)), vec![String::new(), String::new()]);
}

#[test]
fn base_style_applies_to_unstyled_content() {
    let item = DataItem::from(vec![Content::from_str("abcdefg"), Content::from_str("xy")]);
    let base = ContentStyle::from_format("{>;}").unwrap();
    let cell = Cell::from_data_item(&item, base);
    assert_eq!(cell.base_style(), base);
    assert_eq!(cell.measure_height(&CellWidth::Fixed(3)), 4);
    assert_eq!(
        all_lines(&cell, &CellWidth::Fixed(3)),
        vec!["abc".to_string(), "def".to_string(), "  g".to_string(), " xy".to_string()]
    );
}

#[test]
fn cell_width_comes_from_the_first_content() {
    let cell = Cell::from_styled_content("{:7:} {|9|}", vec!["a", "b"]).unwrap();
    assert_eq!(format!("{:?}", cell.get_cell_width()), format!("{:?}", CellWidth::Fixed(7)));
    let item = DataItem::from_str("plain");
    let cell = Cell::from_data_item(&item, ContentStyle::from_format("{:7:}").unwrap());
    assert_eq!(format!("{:?}", cell.get_cell_width()), format!("{:?}", CellWidth::Content));
}

#[test]
fn new_cell_keeps_its_contents() {
    let cell = Cell::new(
        vec![Content::from_str("a"), Content::from_str("bc")],
        ContentStyle::from_format("{^}").unwrap(),
    );
    assert_eq!(cell.contents().len(), 2);
    assert_eq!(all_lines(&cell, &CellWidth::Fixed(4)), vec![" a  ".to_string(), " bc ".to_string()]);
}

#[test]
fn iterator_ends_and_stays_ended() {
    let cell = Cell::from_contents(vec!["a".to_string()]);
    let mut iterator = cell.get_iterator(&CellWidth::Content);
    assert_eq!(iterator.next(), Some("a".to_string()));
    assert_eq!(iterator.next(), None);
    assert_eq!(iterator.next(), None);
    let mut again = cell.get_iterator(&CellWidth::Content);
    assert_eq!(again.next(), Some("a".to_string()));
}
