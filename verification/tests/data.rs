use text_table::content::Content;
use text_table::content_style::ContentStyle;
use text_table::data_item::DataItem;
use text_table::table::cell::Cell;
use text_table::table::row::Row;
use text_table::table::Table;
use text_table::vec_data_source::VecDataSource;

#[test]
fn data_item_from_str_is_one_unstyled_line() {
    let item = DataItem::from_str("abc");
    assert_eq!(item.lines.len(), 1);
    assert_eq!(item.lines[0].measure_width(), 3);
    assert_eq!(item.lines[0].own_style(), None);
}

#[test]
fn data_item_from_lines_keeps_them_in_order() {
    let item = DataItem::from(vec![Content::from_str("a"), Content::from_str("bcd")]);
    assert_eq!(item.lines.len(), 2);
    assert_eq!(item.lines[1].measure_width(), 3);
}

#[test]
fn vec_data_source_displays_each_value() {
    let mut source = VecDataSource::from(vec![15, 7, 1234]);
    let first = source.next().unwrap();
    assert_eq!(first.lines.len(), 1);
    assert_eq!(first.lines[0].own_style(), Some(ContentStyle::default()));
    assert_eq!(
        format!("{:?}", first.lines[0]),
        format!("{:?}", Content::new("15".to_string(), Some(ContentStyle::default())))
    );
    assert_eq!(source.next().unwrap().lines[0].measure_width(), 1);
    assert_eq!(source.next().unwrap().lines[0].measure_width(), 4);
    assert!(source.next().is_none());
    assert!(source.next().is_none());
}

#[test]
fn table_from_data_source_fills_rows_left_to_right() {
    let mut header = Row::new();
    header.add_cell(Cell::from_styled_content("{:3:}", vec!["A"]).unwrap());
    header.add_cell(Cell::from_styled_content("{:3:}", vec!["B"]).unwrap());
    let mut source = VecDataSource::from(vec![1, 22, 333, 4444, 5]);
    let mut items = Vec::new();
    while let Some(item) = source.next() {
        items.push(item);
    }
    let table = Table::from_data_source(
        header,
        &[ContentStyle::from_format("{>}").unwrap()],
        Vec::new(),
        &items,
    );
    assert!(table.fits());
    assert_eq!(
        table.format(),
        "+---+---+\n|A  |B  |\n+---+---+\n|1  |22 |\n+---+---+\n|333|444|\n+---+---+\n|5  |\n+---+---+\n"
    );
}

#[test]
fn table_from_data_source_with_multi_line_items() {
    let mut header = Row::new();
    header.add_cell(Cell::from_styled_content("{:2:} {:2:}", vec!["H", "h"]).unwrap());
    let items = vec![
        DataItem::from(vec![Content::from_str("a"), Content::from_str("b")]),
        DataItem::from_str("c"),
    ];
    let table = Table::from_data_source(header, &[], Vec::new(), &items);
    assert_eq!(table.format(), "+--+\n|H |\n|h |\n+--+\n|a |\n|b |\n+--+\n|c |\n+--+\n");
}

#[test]
fn table_without_columns_keeps_its_first_row_empty() {
    let items = vec![DataItem::from_str("a"), DataItem::from_str("bc")];
    let table = Table::from_data_source(Row::new(), &[], Vec::new(), &items);
    assert_eq!(table.format(), "++\n++\n++\n|a|bc|\n++\n");
}

#[test]
fn new_table_prints_its_parts() {
    let mut header = Row::new();
    header.add_cell(Cell::from_styled_content("{}", vec!["Name"]).unwrap());
    let body = vec![Row::from(vec![Cell::from_contents(vec!["x".to_string()])])];
    let table = Table::new(
        text_table::table::Border::default(),
        vec![text_table::content_style::CellWidth::Minimum(6)],
        header,
        Vec::new(),
        body,
    );
    assert_eq!(table.format(), "+------+\n|Name  |\n+------+\n|x     |\n+------+\n");
}
