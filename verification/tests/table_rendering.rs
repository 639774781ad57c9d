use text_table::content_style::ContentStyle;
use text_table::table::cell::Cell;
use text_table::table::row::Row;
use text_table::table::Table;

fn header(columns: &[(&str, &str)]) -> Row {
    let mut row = Row::new();
    for (style, text) in columns {
        row.add_cell(Cell::from_styled_content(style, vec![*text]).unwrap());
    }
    row
}

fn plain_table(columns: &[(&str, &str)], data: &[&str]) -> Table {
    Table::from_vec(header(columns), &[ContentStyle::from_format("{}").unwrap()], data)
}

#[test]
fn test_simple_table() {
    let table = plain_table(
        &[("{^:10:}", "Food"), ("{^:10:}", "Count")],
        &["Fish", "15", "Pizza", "10", "Steak", "6"],
    );

    let output = table.format();
    println!("{}", output);

    let expected = "+----------+----------+\n|   Food   |  Count   |\n+----------+----------+\n|Fish      |15        |\n+----------+----------+\n|Pizza     |10        |\n+----------+----------+\n|Steak     |6         |\n+----------+----------+\n";

    assert_eq!(output, expected);
}

#[test]
fn format_twice_gives_the_same_text() {
    let table = plain_table(
        &[("{^:10:}", "Food"), ("{>|3|}", "Count")],
        &["Fish", "15", "Pizza", "10"],
    );
    assert_eq!(table.format(), table.format());
}

#[test]
fn minimum_policy_lets_wider_content_win() {
    let table = plain_table(&[("{|5|}", "Headline")], &["x"]);
    assert_eq!(table.format(), "+--------+\n|Headline|\n+--------+\n|x       |\n+--------+\n");
}

#[test]
fn minimum_policy_wins_over_narrower_content() {
    let table = plain_table(&[("{|12|}", "Headline")], &["x"]);
    assert_eq!(
        table.format(),
        "+------------+\n|Headline    |\n+------------+\n|x           |\n+------------+\n"
    );
}

#[test]
fn content_policy_takes_the_header_width_for_every_row() {
    let table = plain_table(&[("{}", "Name")], &["Al", "Barbara"]);
    assert_eq!(
        table.format(),
        "+----+\n|Name|\n+----+\n|Al  |\n+----+\n|Barb|\n+----+\n"
    );
}

#[test]
fn fixed_policy_pads_and_truncates() {
    let table = plain_table(&[("{:3:}", "Header")], &["a", "abcdef"]);
    assert_eq!(table.format(), "+---+\n|Hea|\n+---+\n|a  |\n+---+\n|abc|\n+---+\n");
}

#[test]
fn wrapped_body_cell_makes_the_row_taller() {
    let head = header(&[("{:4:}", "H1"), ("{:2:}", "H2")]);
    let table = Table::from_vec(
        head,
        &[ContentStyle::from_format("{;}").unwrap(), ContentStyle::from_format("{>}").unwrap()],
        &["abcdefghij", "z"],
    );
    assert_eq!(
        table.format(),
        "+----+--+\n|H1  |H2|\n+----+--+\n|abcd| z|\n|efgh|  |\n|ij  |  |\n+----+--+\n"
    );
}

#[test]
fn body_without_data_is_one_empty_row() {
    let table = plain_table(&[("{:2:}", "A")], &[]);
    assert_eq!(table.format(), "+--+\n|A |\n+--+\n+--+\n");
}

#[test]
fn last_row_may_be_short() {
    let table = plain_table(&[("{:1:}", "A"), ("{:1:}", "B")], &["1", "2", "3"]);
    assert_eq!(
        table.format(),
        "+-+-+\n|A|B|\n+-+-+\n|1|2|\n+-+-+\n|3|\n+-+-+\n"
    );
}

#[test]
fn empty_table_is_two_rules() {
    let table = Table::empty();
    assert_eq!(table.format(), "++\n++\n++\n");
}

#[test]
fn full_grid_is_rectangular() {
    let table = plain_table(&[("{:1:}", "A"), ("{:1:}", "B")], &["1", "2", "3", "4"]);
    assert!(table.is_rectangular());
    assert!(table.fits());
}

#[test]
fn short_last_row_is_not_rectangular() {
    let table = plain_table(&[("{:1:}", "A"), ("{:1:}", "B")], &["1", "2", "3"]);
    assert!(!table.is_rectangular());
}

#[test]
fn body_without_data_is_not_rectangular() {
    let table = plain_table(&[("{:1:}", "A")], &[]);
    assert!(!table.is_rectangular());
    assert!(Table::empty().is_rectangular());
}

#[test]
fn every_printed_line_ends_with_a_line_feed() {
    let head = header(&[("{:4:}", "H1"), ("{:2:}", "H2")]);
    let table = Table::from_vec(
        head,
        &[ContentStyle::from_format("{;}").unwrap()],
        &["abcdefghij", "z", "k", "l"],
    );
    let text = table.format();
    // three rules, one header line, rows of three lines and one line, and
    // one rule between the two rows
    assert_eq!(text.matches('\n').count(), 3 + 1 + 3 + 1 + 1);
    assert!(text.ends_with('\n'));
    for line in text.lines() {
        assert_eq!(line.chars().count(), 4 + 2 + 3);
    }
}
