use text_table::content::Content;
use text_table::content_style::ContentStyle;
use text_table::table::cell::Cell;
use text_table::table::row::Row;
use text_table::table::Table;

#[test]
fn coloured_header_comes_out_plain_when_colouring_is_off() {
    colored::control::set_override(false);
    let mut header = Row::new();
    header.add_cell(Cell::from_styled_content("{c^:15:}", vec!["Food"]).unwrap());
    header.add_cell(Cell::from_styled_content("{c^:10:}", vec!["Count"]).unwrap());
    let table = Table::from_vec(
        header,
        &[ContentStyle::from_format("{}").unwrap()],
        &["Fish", "3", "Pears", "5", "Pizza", "13"],
    );

    let expected = "+---------------+----------+\n|     Food      |  Count   |\n+---------------+----------+\n|Fish           |3         |\n+---------------+----------+\n|Pears          |5         |\n+---------------+----------+\n|Pizza          |13        |\n+---------------+----------+\n";

    assert_eq!(table.format(), expected);
}

#[test]
fn coloured_line_comes_out_plain_when_colouring_is_off() {
    colored::control::set_override(false);
    let style = ContentStyle::from_format("{g-b>}").unwrap();
    assert_eq!(Content::format("x", &style, 3), "  x");
}

#[test]
fn styled_body_comes_out_plain_when_colouring_is_off() {
    colored::control::set_override(false);
    let mut header = Row::new();
    header.add_cell(Cell::from_styled_content("{m>:10:}", vec!["Item"]).unwrap());
    header.add_cell(Cell::from_styled_content("{m>:10:}", vec!["Price"]).unwrap());
    let table = Table::from_vec(
        header,
        &[ContentStyle::from_format("{c^}").unwrap(), ContentStyle::from_format("{g<}").unwrap()],
        &["Basic", "$5,000", "Super", "$12,000", "Ultimate", "$35,000"],
    );

    let expected = "+----------+----------+\n|      Item|     Price|\n+----------+----------+\n|  Basic   |$5,000    |\n+----------+----------+\n|  Super   |$12,000   |\n+----------+----------+\n| Ultimate |$35,000   |\n+----------+----------+\n";

    assert_eq!(table.format(), expected);
}
