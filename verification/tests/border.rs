use text_table::color::Color;
use text_table::content_style::ContentStyle;
use text_table::table::border::Border;
use text_table::table::cell::Cell;
use text_table::table::row::Row;
use text_table::table::Table;

fn box_border() -> Border {
    Border {
        top_left: '┌',
        top: '─',
        top_right: '┐',
        top_split: '┬',
        bottom_left: '└',
        bottom: '─',
        bottom_right: '┘',
        bottom_split: '┴',
        left: '│',
        left_split: '├',
        right: '│',
        right_split: '┤',
        vertical_split: '│',
        vertical_split_intersect_left: '┤',
        vertical_split_intersect_right: '├',
        vertical_split_intersect_both: '┼',
        horizontal_split: '─',
        horizontal_split_intersect_top: '┴',
        horizontal_split_intersect_bottom: '┬',
        horizontal_split_intersect_both: '┼',
        color: Color::Red,
    }
}

#[test]
fn default_border_is_ascii() {
    let border = Border::default();
    assert_eq!(border.format_top(&[3, 1]), "+---+-+");
    assert_eq!(border.format_bottom(&[3, 1]), "+---+-+");
    assert_eq!(border.format_horizontal_split(&[3, 1]), "+---+-+");
    assert_eq!(border.format_left(), "|");
    assert_eq!(border.format_right(), "|");
    assert_eq!(border.format_vertical_split(), "|");
    assert_eq!(border.color, Color::Cyan);
}

#[test]
fn rules_use_their_own_glyphs() {
    let border = box_border();
    assert_eq!(border.format_top(&[2, 0, 1]), "┌──┬┬─┐");
    assert_eq!(border.format_bottom(&[2, 0, 1]), "└──┴┴─┘");
    assert_eq!(border.format_horizontal_split(&[2, 0, 1]), "├──┼┼─┤");
    assert_eq!(border.format_left(), "│");
    assert_eq!(border.format_right(), "│");
    assert_eq!(border.format_vertical_split(), "│");
}

#[test]
fn rule_without_columns_is_two_glyphs() {
    assert_eq!(box_border().format_top(&[]), "┌┐");
}

#[test]
fn rule_length_is_widths_plus_separators_plus_ends() {
    let border = Border::default();
    let widths = [15usize, 10];
    assert_eq!(border.format_top(&widths).chars().count(), 15 + 10 + 1 + 2);
    let widths = [4usize, 0, 7, 1];
    assert_eq!(border.format_horizontal_split(&widths).chars().count(), 12 + 3 + 2);
}

#[test]
fn custom_border_plain_table() {
    let mut header = Row::new();
    header.add_cell(Cell::from_styled_content("{^:10:}", vec!["Custom"]).unwrap());
    header.add_cell(Cell::from_styled_content("{^:20:}", vec!["Borders"]).unwrap());
    let mut table = Table::from_vec(
        header,
        &[ContentStyle::from_format("{}").unwrap()],
        &["are", "super fun", "and", "super awesome"],
    );
    table.border = box_border();
    assert_eq!(
        table.format(),
        "┌──────────┬────────────────────┐\n│  Custom  │      Borders       │\n├──────────┼────────────────────┤\n│are       │super fun           │\n├──────────┼────────────────────┤\n│and       │super awesome       │\n└──────────┴────────────────────┘\n"
    );
}
