use text_table::color::Color;
use text_table::content::Content;
use text_table::content_style::{Alignment, CellWidth, ContentStyle, Wrap};
use text_table::table::border::Border;
use text_table::table::cell::Cell;
use text_table::table::row::Row;
use text_table::table::Table;

fn table(columns: &[(&str, &str)], styles: &[&str], data: &[&str]) -> Table {
    let mut header = Row::new();
    for (style, text) in columns {
        header.add_cell(Cell::from_styled_content(style, vec![*text]).unwrap());
    }
    let styles: Vec<ContentStyle> =
        styles.iter().map(|s| ContentStyle::from_format(s).unwrap()).collect();
    Table::from_vec(header, &styles, data)
}

#[test]
fn test_simple_vector_table() {
    colored::control::set_override(true);
    let table = table(
        &[("{c^:15:}", "Food"), ("{c^:10:}", "Count")],
        &["{}"],
        &["Fish", "3", "Pears", "5", "Pizza", "13"],
    );

    let output = table.format();
    println!("{}", output);

    let expected = "+---------------+----------+\n|\u{1b}[36m     Food      \u{1b}[0m|\u{1b}[36m  Count   \u{1b}[0m|\n+---------------+----------+\n|Fish           |3         |\n+---------------+----------+\n|Pears          |5         |\n+---------------+----------+\n|Pizza          |13        |\n+---------------+----------+\n";

    assert_eq!(output, expected);
}

#[test]
fn test_custom_border_table() {
    colored::control::set_override(true);
    let mut table = table(
        &[("{R^:10:}", "Custom"), ("{C^:20:}", "Borders")],
        &["{}"],
        &["are", "super fun", "and", "super awesome"],
    );

    table.border = Border {
        top_left: '┌',
        top: '─',
        top_right: '┐',
        top_split: '┬',
        bottom_left: '└',
        bottom: '─',
        bottom_right: '┘',
        bottom_split: '┴',
        left: '│',
        left_split: '├',
        right: '│',
        right_split: '┤',
        vertical_split: '│',
        vertical_split_intersect_left: '┤',
        vertical_split_intersect_right: '├',
        vertical_split_intersect_both: '┼',
        horizontal_split: '─',
        horizontal_split_intersect_top: '┴',
        horizontal_split_intersect_bottom: '┬',
        horizontal_split_intersect_both: '┼',
        color: Color::Red,
    };

    let output = table.format();
    println!("{}", output);

    let expected = "┌──────────┬────────────────────┐\n│\u{1b}[91m  Custom  \u{1b}[0m│\u{1b}[96m      Borders       \u{1b}[0m│\n├──────────┼────────────────────┤\n│are       │super fun           │\n├──────────┼────────────────────┤\n│and       │super awesome       │\n└──────────┴────────────────────┘\n";

    assert_eq!(output, expected);
}

#[test]
fn table_macro_simple_unstyled_body() {
    colored::control::set_override(true);
    let table = table(
        &[("{B^:12:}", "Food"), ("{G^:7:}", "Count")],
        &["{}"],
        &["Fish", "15", "Pizza", "10", "Tomato", "24"],
    );

    let expected = "+------------+-------+\n|\u{1b}[94m    Food    \u{1b}[0m|\u{1b}[92m Count \u{1b}[0m|\n+------------+-------+\n|Fish        |15     |\n+------------+-------+\n|Pizza       |10     |\n+------------+-------+\n|Tomato      |24     |\n+------------+-------+\n";

    assert_eq!(table.format(), expected);
}

#[test]
fn table_macro_simple_styled_body() {
    colored::control::set_override(true);
    let table = table(
        &[("{m>:10:}", "Item"), ("{m>:10:}", "Price")],
        &["{c^}", "{g<}"],
        &["Basic", "$5,000", "Super", "$12,000", "Ultimate", "$35,000"],
    );

    let expected = "+----------+----------+\n|\u{1b}[35m      Item\u{1b}[0m|\u{1b}[35m     Price\u{1b}[0m|\n+----------+----------+\n|\u{1b}[36m  Basic   \u{1b}[0m|\u{1b}[32m$5,000    \u{1b}[0m|\n+----------+----------+\n|\u{1b}[36m  Super   \u{1b}[0m|\u{1b}[32m$12,000   \u{1b}[0m|\n+----------+----------+\n|\u{1b}[36m Ultimate \u{1b}[0m|\u{1b}[32m$35,000   \u{1b}[0m|\n+----------+----------+\n";

    assert_eq!(table.format(), expected);
}

#[test]
fn red_wrapped_text_is_painted_piece_by_piece() {
    colored::control::set_override(true);
    let style = ContentStyle::from_format("{r<;}").unwrap();
    let text = "This text is longer than ten characters";
    let content = Content::new(text.to_string(), Some(style));
    let mut iterator = content.get_iterator(&ContentStyle::default(), 10);
    let mut lines = Vec::new();
    while let Some(line) = iterator.next() {
        lines.push(line);
    }
    assert_eq!(
        lines,
        vec![
            "\u{1b}[31mThis text \u{1b}[0m".to_string(),
            "\u{1b}[31mis longer \u{1b}[0m".to_string(),
            "\u{1b}[31mthan ten c\u{1b}[0m".to_string(),
            "\u{1b}[31mharacters \u{1b}[0m".to_string(),
        ]
    );
}

#[test]
fn foreground_codes_of_all_colours() {
    colored::control::set_override(true);
    let colours = [
        (Color::Black, "30"),
        (Color::Red, "31"),
        (Color::Green, "32"),
        (Color::Yellow, "33"),
        (Color::Blue, "34"),
        (Color::Magenta, "35"),
        (Color::Cyan, "36"),
        (Color::White, "37"),
        (Color::BrightBlack, "90"),
        (Color::BrightRed, "91"),
        (Color::BrightGreen, "92"),
        (Color::BrightYellow, "93"),
        (Color::BrightBlue, "94"),
        (Color::BrightMagenta, "95"),
        (Color::BrightCyan, "96"),
        (Color::BrightWhite, "97"),
    ];
    for (colour, code) in colours {
        let style =
            ContentStyle::new(Some(colour), None, Alignment::Left, Wrap::Truncate, CellWidth::Content);
        assert_eq!(Content::format("x", &style, 2), format!("\u{1b}[{}mx \u{1b}[0m", code));
    }
}

#[test]
fn background_codes_of_all_colours() {
    colored::control::set_override(true);
    let colours = [
        (Color::Black, "40"),
        (Color::Red, "41"),
        (Color::Green, "42"),
        (Color::Yellow, "43"),
        (Color::Blue, "44"),
        (Color::Magenta, "45"),
        (Color::Cyan, "46"),
        (Color::White, "47"),
        (Color::BrightBlack, "100"),
        (Color::BrightRed, "101"),
        (Color::BrightGreen, "102"),
        (Color::BrightYellow, "103"),
        (Color::BrightBlue, "104"),
        (Color::BrightMagenta, "105"),
        (Color::BrightCyan, "106"),
        (Color::BrightWhite, "107"),
    ];
    for (colour, code) in colours {
        let style =
            ContentStyle::new(None, Some(colour), Alignment::Right, Wrap::Truncate, CellWidth::Content);
        assert_eq!(Content::format("x", &style, 2), format!("\u{1b}[{}m x\u{1b}[0m", code));
    }
}

#[test]
fn background_is_painted_over_the_foreground() {
    colored::control::set_override(true);
    let style = ContentStyle::from_format("{g-b}").unwrap();
    assert_eq!(
        Content::format("x", &style, 1),
        "\u{1b}[44m\u{1b}[32mx\u{1b}[0m\u{1b}[44m\u{1b}[0m"
    );
}

#[test]
fn style_is_reinstated_after_a_reset_inside_the_text() {
    colored::control::set_override(true);
    let style = ContentStyle::from_format("{r}").unwrap();
    assert_eq!(
        Content::format("a\u{1b}[0mb", &style, 0),
        "\u{1b}[31ma\u{1b}[0m\u{1b}[31mb\u{1b}[0m"
    );
}
