//! Tables, and the rows, cells and borders they are made of.
//!
//! A table is printed from top to bottom: the top rule, the header row, and
//! then the body rows, each preceded by a horizontal rule; the bottom rule
//! closes the table. Every printed line ends with a line feed.
//!
//! The header decides the widths: each column is as wide as its header cell
//! is under the column's width policy, and every row is laid out at those
//! widths.

pub mod border;
pub mod cell;
pub mod column_break;
pub mod line;
pub mod row;
pub mod table_cell;
pub mod table_column;
pub mod table_row;

use vstd::prelude::*;
use vstd::string::*;
use crate::content::ContentView;
use crate::content_style::{CellWidth, ContentStyle};
use crate::data_item::DataItem;
pub use crate::table::border::Border;
use crate::table::border::{lemma_rule_is_line, spec_widths};
use crate::table::cell::{Cell, CellView};
use crate::table::row::{
    lemma_plain_row_text, lemma_row_columns_width, lemma_row_line_feeds,
    lemma_row_plain_text_is_text, policy_at, spec_cell_views, spec_policy_at, Row, RowView,
};
use crate::text::{
    lemma_line_feeds_add, lemma_line_has_no_line_feed, push_char, spec_is_line, spec_line_feeds,
};

verus! {

/// A table: a header row, body rows, and the border they are drawn in.
#[derive(Debug)]
pub struct Table {
    pub border: Border,
    column_breaks: Vec<CellWidth>,
    column_headers: Row,
    row_headers: Vec<Cell>,
    data_rows: Vec<Row>,
}

/// What a table holds.
pub struct TableView {
    pub border: Border,
    pub column_breaks: Seq<CellWidth>,
    pub column_headers: RowView,
    pub row_headers: Seq<CellView>,
    pub data_rows: Seq<RowView>,
}

/// What each row in a list holds.
pub open spec fn spec_row_views(rows: Seq<Row>) -> Seq<RowView> {
    Seq::new(rows.len(), |i: int| rows[i]@)
}

/// What each data item in a list holds.
pub open spec fn spec_item_views(items: Seq<DataItem>) -> Seq<Seq<ContentView>> {
    Seq::new(items.len(), |i: int| items[i]@)
}

/// The items that hold one unstyled line each, with the given texts.
pub open spec fn spec_text_items(texts: Seq<&str>) -> Seq<Seq<ContentView>> {
    Seq::new(texts.len(), |i: int| seq![ContentView { text: texts[i]@, style: None }])
}

impl View for Table {
    type V = TableView;

    closed spec fn view(&self) -> TableView {
        TableView {
            border: self.border,
            column_breaks: self.column_breaks@,
            column_headers: self.column_headers@,
            row_headers: spec_cell_views(self.row_headers@),
            data_rows: spec_row_views(self.data_rows@),
        }
    }
}

/// The base style of the cell in column `ix` of a body row: the one listed
/// for the column, and the default style beyond the end of the list.
pub open spec fn spec_cell_style(styles: Seq<ContentStyle>, ix: int) -> ContentStyle {
    if 0 <= ix < styles.len() {
        styles[ix]
    } else {
        ContentStyle::spec_default()
    }
}

/// The cell that a data item becomes in column `column` of a body row.
pub open spec fn spec_data_cell(
    contents: Seq<ContentView>,
    styles: Seq<ContentStyle>,
    column: int,
) -> CellView {
    CellView { contents, base_style: spec_cell_style(styles, column) }
}

/// The body rows that hold `items` in a table of `columns` columns.
///
/// The body starts as one empty row. Each item becomes a cell at the right
/// end of the last row, unless that row already holds as many cells as the
/// table has columns: then the item starts a new row. A cell takes the base
/// style listed for the column it lands in.
pub open spec fn spec_body_rows(
    items: Seq<Seq<ContentView>>,
    styles: Seq<ContentStyle>,
    columns: nat,
) -> Seq<RowView>
    decreases items.len(),
{
    if items.len() == 0 {
        seq![RowView { cells: Seq::empty() }]
    } else {
        let before = spec_body_rows(items.drop_last(), styles, columns);
        let open = before.last().cells;
        if open.len() == columns {
            before.push(RowView { cells: seq![spec_data_cell(items.last(), styles, 0)] })
        } else {
            before.drop_last().push(
                RowView { cells: open.push(spec_data_cell(items.last(), styles, open.len() as int)) },
            )
        }
    }
}

/// The width policies that a header row asks for, column by column.
pub open spec fn spec_header_policies(header: RowView) -> Seq<CellWidth> {
    Seq::new(header.cells.len(), |i: int| header.cells[i].cell_width())
}

/// The heights of `rows` under the given policies, added up.
pub open spec fn spec_total_height(rows: Seq<RowView>, policies: Seq<CellWidth>) -> nat
    decreases rows.len(),
{
    if rows.len() == 0 {
        0
    } else {
        spec_total_height(rows.drop_last(), policies) + rows.last().height(policies)
    }
}

/// The texts of `rows` one after the other, with `rule` between each two.
pub open spec fn spec_ruled(rows: Seq<Seq<char>>, rule: Seq<char>) -> Seq<char>
    decreases rows.len(),
{
    if rows.len() == 0 {
        Seq::empty()
    } else if rows.len() == 1 {
        rows[0]
    } else {
        spec_ruled(rows.drop_last(), rule) + rule + rows.last()
    }
}

impl TableView {
    /// The width of every column: that of its header cell under the
    /// column's width policy, whatever the body holds.
    pub open spec fn column_widths(self) -> Seq<nat> {
        Seq::new(
            self.column_headers.cells.len(),
            |i: int| self.column_headers.cells[i].width(spec_policy_at(self.column_breaks, i)),
        )
    }

    /// The policies that every row is laid out under: each column fixed at
    /// its width.
    pub open spec fn layout(self) -> Seq<CellWidth> {
        Seq::new(
            self.column_headers.cells.len(),
            |i: int| CellWidth::Fixed(self.column_widths()[i] as usize),
        )
    }

    /// Whether the height of every cell can be counted in a `usize`.
    pub open spec fn fits(self) -> bool {
        &&& self.column_headers.fits(self.layout())
        &&& forall|r: int|
            0 <= r < self.data_rows.len() ==> (#[trigger] self.data_rows[r]).fits(self.layout())
    }

    /// The horizontal rule between two rows, with its line feed.
    pub open spec fn rule(self) -> Seq<char> {
        self.border.spec_horizontal_split(self.column_widths()).push('\n')
    }

    /// The printed table, given the printed header row and body rows.
    pub open spec fn assembled(self, header: Seq<char>, body: Seq<Seq<char>>) -> Seq<char> {
        self.border.spec_top(self.column_widths()).push('\n') + header + self.rule() + spec_ruled(
            body,
            self.rule(),
        ) + self.border.spec_bottom(self.column_widths()).push('\n')
    }

    /// Whether `body` can be the printed forms of the body rows, row for
    /// row.
    pub open spec fn is_body(self, body: Seq<Seq<char>>) -> bool {
        &&& body.len() == self.data_rows.len()
        &&& forall|r: int|
            0 <= r < body.len() ==> self.data_rows[r].is_text(
                self.border,
                self.layout(),
                #[trigger] body[r],
            )
    }

    /// Whether no content of the table is laid out in a style with a
    /// colour.
    pub open spec fn is_plain(self) -> bool {
        &&& self.column_headers.is_plain()
        &&& forall|r: int| 0 <= r < self.data_rows.len() ==> (#[trigger] self.data_rows[r]).is_plain()
    }

    /// The printed forms of the body rows without any colouring.
    pub open spec fn plain_body(self) -> Seq<Seq<char>> {
        Seq::new(
            self.data_rows.len(),
            |r: int| self.data_rows[r].plain_text(self.border, self.layout()),
        )
    }

    /// The printed form of the table without any colouring.
    pub open spec fn plain_text(self) -> Seq<char> {
        self.assembled(
            self.column_headers.plain_text(self.border, self.layout()),
            self.plain_body(),
        )
    }

    /// Whether the text of every content of the table is a single line.
    pub open spec fn holds_lines(self) -> bool {
        &&& self.column_headers.holds_lines()
        &&& forall|r: int|
            0 <= r < self.data_rows.len() ==> (#[trigger] self.data_rows[r]).holds_lines()
    }

    /// The number of lines the table is printed on: three rules, the lines
    /// of the header row and of the body rows, and a rule between each two
    /// body rows.
    pub open spec fn printed_lines(self) -> nat {
        3 + self.column_headers.height(self.layout()) + spec_total_height(
            self.data_rows,
            self.layout(),
        ) + if self.data_rows.len() > 0 {
            (self.data_rows.len() - 1) as nat
        } else {
            0
        }
    }

    /// Whether the table is a full grid: it lists one width policy for
    /// each column, and every body row has one cell for each column.
    pub open spec fn is_rectangular(self) -> bool {
        &&& self.column_breaks.len() == self.column_headers.cells.len()
        &&& forall|r: int|
            0 <= r < self.data_rows.len() ==> (#[trigger] self.data_rows[r]).cells.len()
                == self.column_headers.cells.len()
    }

    /// Whether `text` can be the printed form of the table.
    pub open spec fn is_text(self, text: Seq<char>) -> bool {
        exists|header: Seq<char>, body: Seq<Seq<char>>|
            self.column_headers.is_text(self.border, self.layout(), header) && self.is_body(body)
                && text == #[trigger] self.assembled(header, body)
    }
}

impl Table {
    /// A table with the ASCII border and nothing else: no columns, no rows.
    pub fn empty() -> (res: Table)
        ensures
            res@ == (TableView {
                border: Border::spec_default(),
                column_breaks: Seq::empty(),
                column_headers: RowView { cells: Seq::empty() },
                row_headers: Seq::empty(),
                data_rows: Seq::empty(),
            }),
    {
        let res = Table {
            border: Border::default(),
            column_breaks: Vec::new(),
            column_headers: Row::new(),
            row_headers: Vec::new(),
            data_rows: Vec::new(),
        };
        assert(res@.row_headers =~= Seq::empty());
        assert(res@.data_rows =~= Seq::empty());
        assert(res@.column_headers.cells =~= Seq::empty());
        res
    }

    /// A table of the given parts.
    pub fn new(
        border: Border,
        column_breaks: Vec<CellWidth>,
        column_headers: Row,
        row_headers: Vec<Cell>,
        data_rows: Vec<Row>,
    ) -> (res: Table)
        ensures
            res@ == (TableView {
                border,
                column_breaks: column_breaks@,
                column_headers: column_headers@,
                row_headers: spec_cell_views(row_headers@),
                data_rows: spec_row_views(data_rows@),
            }),
    {
        Table { border, column_breaks, column_headers, row_headers, data_rows }
    }

    /// A table whose body holds one unstyled line of text per cell.
    ///
    /// The header row decides the number of columns and their width
    /// policies; `cell_styles` lists the base style of the body cells of
    /// each column.
    pub fn from_vec(column_headers: Row, cell_styles: &[ContentStyle], data: &[&str]) -> (res: Table)
        ensures
            res@ == (TableView {
                border: Border::spec_default(),
                column_breaks: spec_header_policies(column_headers@),
                column_headers: column_headers@,
                row_headers: Seq::empty(),
                data_rows: spec_body_rows(
                    spec_text_items(data@),
                    cell_styles@,
                    column_headers@.cells.len(),
                ),
            }),
    {
        let mut items: Vec<DataItem> = Vec::new();
        let mut ix: usize = 0;
        while ix < data.len()
            invariant
                ix <= data.len(),
                spec_item_views(items@) == spec_text_items(data@).take(ix as int),
            decreases data.len() - ix,
        {
            let ghost before = spec_item_views(items@);
            let item: DataItem = DataItem::from_str(data[ix]);
            items.push(item);
            assert(spec_item_views(items@) =~= before.push(item@));
            ix += 1;
            assert(spec_item_views(items@) =~= spec_text_items(data@).take(ix as int));
        }
        assert(spec_text_items(data@).take(ix as int) =~= spec_text_items(data@));
        let row_headers: Vec<Cell> = Vec::new();
        assert(spec_cell_views(row_headers@) =~= Seq::empty());
        Table::from_data_source(column_headers, cell_styles, row_headers, items.as_slice())
    }

    /// A table whose body is filled from a list of data items.
    ///
    /// The header row decides the number of columns and their width
    /// policies. The items fill the body row by row, left to right.
    pub fn from_data_source(
        column_headers: Row,
        cell_styles: &[ContentStyle],
        row_headers: Vec<Cell>,
        data_source: &[DataItem],
    ) -> (res: Table)
        ensures
            res@ == (TableView {
                border: Border::spec_default(),
                column_breaks: spec_header_policies(column_headers@),
                column_headers: column_headers@,
                row_headers: spec_cell_views(row_headers@),
                data_rows: spec_body_rows(
                    spec_item_views(data_source@),
                    cell_styles@,
                    column_headers@.cells.len(),
                ),
            }),
    {
        let ghost header = column_headers@;
        let mut column_breaks: Vec<CellWidth> = Vec::new();
        let mut cells = column_headers.iter();
        loop
            invariant
                header == column_headers@,
                column_breaks.len() + cells.spec_remaining().len() == header.cells.len(),
                cells.spec_remaining() == header.cells.skip(column_breaks.len() as int),
                column_breaks@ == spec_header_policies(header).take(column_breaks.len() as int),
            ensures
                column_breaks.len() == header.cells.len(),
            decreases cells.spec_remaining().len(),
        {
            let ghost done = column_breaks.len() as int;
            match cells.next() {
                Some(cell) => {
                    assert(cell@ == header.cells[done]);
                    column_breaks.push(cell.get_cell_width());
                    assert(header.cells.skip(done).skip(1) =~= header.cells.skip(done + 1));
                    assert(column_breaks@ =~= spec_header_policies(header).take(done + 1));
                },
                None => {
                    break ;
                },
            }
        }
        assert(column_breaks@ =~= spec_header_policies(header));

        let ghost items = spec_item_views(data_source@);
        let ghost columns = header.cells.len();
        let mut data_rows: Vec<Row> = Vec::new();
        let mut open: Row = Row::new();
        let mut item_ix: usize = 0;
        proof {
            assert(items.take(0) =~= Seq::empty());
            assert(spec_row_views(data_rows@).push(open@) =~= seq![RowView { cells: Seq::empty() }]);
        }
        while item_ix < data_source.len()
            invariant
                item_ix <= data_source.len(),
                items == spec_item_views(data_source@),
                columns == column_breaks.len(),
                spec_row_views(data_rows@).push(open@) == spec_body_rows(
                    items.take(item_ix as int),
                    cell_styles@,
                    columns,
                ),
            decreases data_source.len() - item_ix,
        {
            let ghost before = spec_row_views(data_rows@);
            let ghost open_cells = open@.cells;
            proof {
                let longer = items.take(item_ix + 1);
                assert(longer.drop_last() =~= items.take(item_ix as int));
                assert(longer.last() == data_source@[item_ix as int]@);
                assert(before.push(open@).last() == open@);
                assert(before.push(open@).drop_last() =~= before);
            }
            if open.len() == column_breaks.len() {
                data_rows.push(open);
                open = Row::new();
                assert(spec_row_views(data_rows@) =~= before.push(RowView { cells: open_cells }));
            } else {
                assert(spec_row_views(data_rows@) =~= before);
            }
            let break_ix: usize = open.len();
            let cell_style: ContentStyle = if break_ix < cell_styles.len() {
                cell_styles[break_ix]
            } else {
                ContentStyle::default()
            };
            let ghost filling = open@.cells;
            open.add_cell(Cell::from_data_item(&data_source[item_ix], cell_style));
            proof {
                if filling.len() == 0 {
                    assert(open@.cells =~= seq![
                        CellView {
                            contents: data_source@[item_ix as int]@,
                            base_style: spec_cell_style(cell_styles@, 0),
                        },
                    ]);
                }
            }
            item_ix += 1;
        }
        proof {
            assert(items.take(item_ix as int) =~= items);
        }
        let ghost before = spec_row_views(data_rows@);
        data_rows.push(open);
        assert(spec_row_views(data_rows@) =~= before.push(open@));
        Table::new(Border::default(), column_breaks, column_headers, row_headers, data_rows)
    }

    /// Whether the table is a full grid.
    ///
    /// A table that is not is printed all the same: a body row is printed
    /// with the cells it has, and a cell beyond the last column is as wide
    /// as its content.
    pub fn is_rectangular(&self) -> (res: bool)
        ensures
            res == self@.is_rectangular(),
    {
        let columns: usize = self.column_headers.len();
        if self.column_breaks.len() != columns {
            return false;
        }
        let mut row_ix: usize = 0;
        while row_ix < self.data_rows.len()
            invariant
                row_ix <= self.data_rows.len(),
                columns == self@.column_headers.cells.len(),
                self@.column_breaks.len() == columns,
                forall|r: int|
                    0 <= r < row_ix ==> (#[trigger] self@.data_rows[r]).cells.len() == columns,
            decreases self.data_rows.len() - row_ix,
        {
            assert(self@.data_rows[row_ix as int] == self.data_rows@[row_ix as int]@);
            if self.data_rows[row_ix].len() != columns {
                return false;
            }
            row_ix += 1;
        }
        true
    }

    /// Whether the height of every cell of the table can be counted in a
    /// `usize`, so that the table can be printed.
    pub fn fits(&self) -> (res: bool)
        ensures
            res == self@.fits(),
    {
        let widths: Vec<usize> = self.measure_column_widths();
        let layout: Vec<CellWidth> = self.layout(widths.as_slice());
        if !self.column_headers.fits(layout.as_slice()) {
            return false;
        }
        let mut row_ix: usize = 0;
        while row_ix < self.data_rows.len()
            invariant
                row_ix <= self.data_rows.len(),
                layout@ == self@.layout(),
                forall|r: int|
                    0 <= r < row_ix ==> (#[trigger] self@.data_rows[r]).fits(self@.layout()),
            decreases self.data_rows.len() - row_ix,
        {
            assert(self@.data_rows[row_ix as int] == self.data_rows@[row_ix as int]@);
            if !self.data_rows[row_ix].fits(layout.as_slice()) {
                return false;
            }
            row_ix += 1;
        }
        true
    }

    /// The printed form of the table.
    ///
    /// The text is the top rule, the header row, a horizontal rule, the
    /// body rows with a horizontal rule between each two, and the bottom
    /// rule. Every column is as wide as its header cell is under the width
    /// policy of the column, in the rules and in every row.
    pub fn format(&self) -> (res: String)
        requires
            self@.fits(),
        ensures
            self@.is_text(res@),
            self@.is_plain() ==> res@ == self@.plain_text(),
    {
        let mut result: String = String::new();
        let widths: Vec<usize> = self.measure_column_widths();
        let header: String = self.format_header(widths.as_slice());
        result.append(header.as_str());
        let body: String = self.format_body(widths.as_slice());
        result.append(body.as_str());
        proof {
            let head = choose|head: Seq<char>|
                self@.column_headers.is_text(self@.border, self@.layout(), head) && header@
                    == self@.border.spec_top(self@.column_widths()).push('\n') + head
                    + self@.rule();
            let rows = choose|rows: Seq<Seq<char>>|
                self@.is_body(rows) && body@ == spec_ruled(rows, self@.rule())
                    + self@.border.spec_bottom(self@.column_widths()).push('\n');
            assert(result@ =~= self@.assembled(head, rows));
            if self@.is_plain() {
                lemma_plain_table_text(self@, result@);
            }
        }
        result
    }

    /// The top rule, the header row and the horizontal rule below it.
    fn format_header(&self, widths: &[usize]) -> (res: String)
        requires
            spec_widths(widths@) == self@.column_widths(),
            self@.column_headers.fits(self@.layout()),
        ensures
            exists|head: Seq<char>|
                self@.column_headers.is_text(self@.border, self@.layout(), head) && res@
                    == self@.border.spec_top(self@.column_widths()).push('\n') + head
                    + self@.rule(),
    {
        let layout: Vec<CellWidth> = self.layout(widths);
        let mut result: String = self.border.format_top(widths);
        push_char(&mut result, '\n');
        let head: String = self.column_headers.format(&self.border, layout.as_slice());
        result.append(head.as_str());
        result.append(self.border.format_horizontal_split(widths).as_str());
        push_char(&mut result, '\n');
        proof {
            assert(result@ =~= self@.border.spec_top(self@.column_widths()).push('\n') + head@
                + self@.rule());
        }
        result
    }

    /// The body rows with a horizontal rule between each two, and the
    /// bottom rule.
    fn format_body(&self, widths: &[usize]) -> (res: String)
        requires
            spec_widths(widths@) == self@.column_widths(),
            forall|r: int|
                0 <= r < self@.data_rows.len() ==> (#[trigger] self@.data_rows[r]).fits(
                    self@.layout(),
                ),
        ensures
            exists|rows: Seq<Seq<char>>|
                self@.is_body(rows) && res@ == spec_ruled(rows, self@.rule())
                    + self@.border.spec_bottom(self@.column_widths()).push('\n'),
    {
        let layout: Vec<CellWidth> = self.layout(widths);
        let mut result: String = String::new();
        let ghost mut rows: Seq<Seq<char>> = Seq::empty();
        let mut row_ix: usize = 0;
        while row_ix < self.data_rows.len()
            invariant
                row_ix <= self.data_rows.len(),
                spec_widths(widths@) == self@.column_widths(),
                layout@ == self@.layout(),
                forall|r: int|
                    0 <= r < self@.data_rows.len() ==> (#[trigger] self@.data_rows[r]).fits(
                        self@.layout(),
                    ),
                rows.len() == row_ix,
                forall|r: int|
                    0 <= r < row_ix ==> self@.data_rows[r].is_text(
                        self@.border,
                        self@.layout(),
                        #[trigger] rows[r],
                    ),
                result@ == if 0 < row_ix < self.data_rows.len() {
                    spec_ruled(rows, self@.rule()) + self@.rule()
                } else {
                    spec_ruled(rows, self@.rule())
                },
            decreases self.data_rows.len() - row_ix,
        {
            let row: &Row = &self.data_rows[row_ix];
            assert(self@.data_rows[row_ix as int] == row@);
            let text: String = row.format(&self.border, layout.as_slice());
            let ghost before = result@;
            result.append(text.as_str());
            proof {
                let longer = rows.push(text@);
                assert(longer.drop_last() =~= rows);
                assert(before + text@ =~= spec_ruled(longer, self@.rule()));
                rows = longer;
            }
            if row_ix < self.data_rows.len() - 1 {
                result.append(self.border.format_horizontal_split(widths).as_str());
                push_char(&mut result, '\n');
                assert(result@ =~= spec_ruled(rows, self@.rule()) + self@.rule());
            }
            row_ix += 1;
        }
        let ghost before = result@;
        result.append(self.border.format_bottom(widths).as_str());
        push_char(&mut result, '\n');
        proof {
            assert(result@ =~= before + self@.border.spec_bottom(self@.column_widths()).push('\n'));
            assert(self@.is_body(rows));
        }
        result
    }

    /// The policies that every row is laid out under: each column fixed at
    /// its width.
    fn layout(&self, widths: &[usize]) -> (res: Vec<CellWidth>)
        requires
            spec_widths(widths@) == self@.column_widths(),
        ensures
            res@ == self@.layout(),
    {
        let mut policies: Vec<CellWidth> = Vec::new();
        let mut ix: usize = 0;
        while ix < widths.len()
            invariant
                ix <= widths.len(),
                policies@ == Seq::new(ix as nat, |i: int| CellWidth::Fixed(widths@[i])),
            decreases widths.len() - ix,
        {
            policies.push(CellWidth::Fixed(widths[ix]));
            ix += 1;
            assert(policies@ =~= Seq::new(ix as nat, |i: int| CellWidth::Fixed(widths@[i])));
        }
        proof {
            let count = self@.column_headers.cells.len();
            assert(self@.column_widths().len() == count);
            assert(self@.layout().len() == count);
            assert(spec_widths(widths@).len() == widths@.len());
            assert forall|i: int| 0 <= i < widths@.len() implies policies@[i]
                == self@.layout()[i] by {
                assert(spec_widths(widths@)[i] == widths@[i] as nat);
                assert(self@.layout()[i] == CellWidth::Fixed(self@.column_widths()[i] as usize));
            }
            assert(policies@ =~= self@.layout());
        }
        policies
    }

    /// The width of every column: that of its header cell under the width
    /// policy of the column.
    fn measure_column_widths(&self) -> (res: Vec<usize>)
        ensures
            spec_widths(res@) == self@.column_widths(),
    {
        let mut widths: Vec<usize> = Vec::new();
        let mut cells = self.column_headers.iter();
        loop
            invariant
                widths.len() + cells.spec_remaining().len() == self@.column_headers.cells.len(),
                cells.spec_remaining() == self@.column_headers.cells.skip(widths.len() as int),
                spec_widths(widths@) == self@.column_widths().take(widths.len() as int),
            ensures
                widths.len() == self@.column_headers.cells.len(),
                spec_widths(widths@) == self@.column_widths().take(widths.len() as int),
            decreases cells.spec_remaining().len(),
        {
            let column_break_ix: usize = widths.len();
            match cells.next() {
                Some(cell) => {
                    let column_break: CellWidth = policy_at(
                        self.column_breaks.as_slice(),
                        column_break_ix,
                    );
                    assert(cell@ == self@.column_headers.cells[column_break_ix as int]);
                    widths.push(cell.measure_width(&column_break));
                    assert(self@.column_headers.cells.skip(column_break_ix as int).skip(1)
                        =~= self@.column_headers.cells.skip(column_break_ix + 1));
                    assert(spec_widths(widths@) =~= self@.column_widths().take(
                        column_break_ix + 1,
                    ));
                },
                None => {
                    break ;
                },
            }
        }
        assert(self@.column_widths().take(widths.len() as int) =~= self@.column_widths());
        widths
    }
}

/// In a table with columns, the body holds the items row by row: item `i`
/// stands in row `i / columns` at column `i % columns`, every row but the
/// last is full, and there are just as many rows as it takes, one at least.
pub proof fn lemma_body_rows_by_position(
    items: Seq<Seq<ContentView>>,
    styles: Seq<ContentStyle>,
    columns: nat,
)
    requires
        columns > 0,
    ensures
        spec_body_rows(items, styles, columns).len() == if items.len() == 0 {
            1
        } else {
            (items.len() - 1) / (columns as int) + 1
        },
        forall|r: int|
            0 <= r < spec_body_rows(items, styles, columns).len() - 1 ==> (#[trigger] spec_body_rows(
                items,
                styles,
                columns,
            )[r]).cells.len() == columns,
        forall|i: int|
            0 <= i < items.len() ==> {
                let row = i / (columns as int);
                let column = i % (columns as int);
                &&& row < spec_body_rows(items, styles, columns).len()
                &&& column < spec_body_rows(items, styles, columns)[row].cells.len()
                &&& spec_body_rows(items, styles, columns)[row].cells[column] == spec_data_cell(
                    #[trigger] items[i],
                    styles,
                    column,
                )
            },
{
    let rows = spec_body_rows(items, styles, columns);
    let last = rows.len() - 1;
    let n = columns as int;
    let k = items.len() as int;
    let open = rows[last].cells.len() as int;
    lemma_body_rows_shape(items, styles, columns);
    if k > 0 {
        assert((k - 1) / n == last) by (nonlinear_arith)
            requires
                n > 0,
                last >= 0,
                1 <= open <= n,
                open + last * n == k,
        ;
    }
    assert forall|i: int| 0 <= i < items.len() implies {
        let row = i / n;
        let column = i % n;
        &&& row < rows.len()
        &&& column < rows[row].cells.len()
        &&& rows[row].cells[column] == spec_data_cell(#[trigger] items[i], styles, column)
    } by {
        let row = i / n;
        let column = i % n;
        assert(0 <= row <= last && 0 <= column < n && row * n + column == i && (row == last
            ==> column < open)) by (nonlinear_arith)
            requires
                n > 0,
                last >= 0,
                0 <= i < k,
                0 <= open <= n,
                open + last * n == k,
                row == i / n,
                column == i % n,
        ;
        assert(rows[row].cells[column] == spec_data_cell(items[row * n + column], styles, column));
    }
}

/// The body that is filled from a list of items is a full grid exactly
/// when the items fill every row: there is at least one item, and their
/// number is a multiple of the number of columns.
pub proof fn lemma_body_is_rectangular(
    items: Seq<Seq<ContentView>>,
    styles: Seq<ContentStyle>,
    columns: nat,
)
    requires
        columns > 0,
    ensures
        (forall|r: int|
            0 <= r < spec_body_rows(items, styles, columns).len() ==> (#[trigger] spec_body_rows(
                items,
                styles,
                columns,
            )[r]).cells.len() == columns) <==> (items.len() > 0 && items.len() % columns == 0),
{
    let rows = spec_body_rows(items, styles, columns);
    let last = rows.len() - 1;
    let n = columns as int;
    let k = items.len() as int;
    let open = rows[last].cells.len() as int;
    lemma_body_rows_shape(items, styles, columns);
    assert((open == n) <==> (k > 0 && k % n == 0)) by (nonlinear_arith)
        requires
            n > 0,
            last >= 0,
            0 <= open <= n,
            k > 0 ==> open >= 1,
            open + last * n == k,
    ;
    if open == n {
        assert forall|r: int| 0 <= r < rows.len() implies (#[trigger] rows[r]).cells.len()
            == columns by {
            if r < last {
            }
        }
    } else {
        assert(rows[last].cells.len() != columns);
    }
}

/// The shape of the body of a table with columns: every row but the last
/// is full, the last row holds what is left, and the cell in row `r` at
/// column `c` is item `r * columns + c`.
proof fn lemma_body_rows_shape(
    items: Seq<Seq<ContentView>>,
    styles: Seq<ContentStyle>,
    columns: nat,
)
    requires
        columns > 0,
    ensures
        ({
            let rows = spec_body_rows(items, styles, columns);
            let last = rows.len() - 1;
            &&& rows.len() >= 1
            &&& forall|r: int| 0 <= r < last ==> (#[trigger] rows[r]).cells.len() == columns
            &&& rows[last].cells.len() + last * columns == items.len()
            &&& rows[last].cells.len() <= columns
            &&& items.len() > 0 ==> rows[last].cells.len() >= 1
            &&& forall|r: int, c: int|
                0 <= r < rows.len() && 0 <= c < rows[r].cells.len() ==> #[trigger] rows[r].cells[c]
                    == spec_data_cell(items[r * columns + c], styles, c)
        }),
    decreases items.len(),
{
    let rows = spec_body_rows(items, styles, columns);
    let n = columns as int;
    if items.len() > 0 {
        let shorter = items.drop_last();
        let before = spec_body_rows(shorter, styles, columns);
        lemma_body_rows_shape(shorter, styles, columns);
        let last = before.len() - 1;
        let open = before[last].cells;
        let k = items.len() as int;
        assert(open.len() + last * n == k - 1);
        assert((last + 1) * n == last * n + n) by (nonlinear_arith);
        assert forall|r: int, c: int|
            0 <= r < rows.len() && 0 <= c < rows[r].cells.len() implies #[trigger] rows[r].cells[c]
                == spec_data_cell(items[r * columns + c], styles, c) by {
            if r < last {
                assert(rows[r] == before[r]);
                assert(r * n + c < last * n) by (nonlinear_arith)
                    requires
                        0 <= r < last,
                        0 <= c < n,
                ;
                assert(shorter[r * n + c] == items[r * n + c]);
            } else if r == last {
                if open.len() == columns {
                    assert(rows[r] == before[r]);
                    assert(shorter[r * n + c] == items[r * n + c]);
                } else if c < open.len() {
                    assert(rows[r].cells[c] == open[c]);
                    assert(shorter[r * n + c] == items[r * n + c]);
                } else {
                    assert(r * n + c == k - 1);
                }
            } else {
                assert(c == 0);
                assert(r * n + c == k - 1);
            }
        }
    }
}

/// A table whose contents are single lines, printed in a border whose
/// glyphs are no line feeds, is printed on exactly its number of lines: its
/// text holds that many line feeds, whether it is coloured or not.
pub proof fn lemma_table_line_feeds(table: TableView, text: Seq<char>)
    requires
        table.holds_lines(),
        table.border.spec_draws_no_line_feed(),
        table.is_text(text),
    ensures
        spec_line_feeds(text) == table.printed_lines(),
{
    let (header, body) = choose|header: Seq<char>, body: Seq<Seq<char>>|
        table.column_headers.is_text(table.border, table.layout(), header) && table.is_body(body)
            && text == #[trigger] table.assembled(header, body);
    let border = table.border;
    let widths = table.column_widths();
    let top = border.spec_top(widths).push('\n');
    let bottom = border.spec_bottom(widths).push('\n');
    let rule = table.rule();
    lemma_rule_is_line(border.top_left, border.top, border.top_split, border.top_right, widths);
    lemma_rule_is_line(
        border.bottom_left,
        border.bottom,
        border.bottom_split,
        border.bottom_right,
        widths,
    );
    lemma_rule_is_line(
        border.left_split,
        border.horizontal_split,
        border.horizontal_split_intersect_both,
        border.right_split,
        widths,
    );
    lemma_ends_one_line(border.spec_top(widths));
    lemma_ends_one_line(border.spec_bottom(widths));
    lemma_ends_one_line(border.spec_horizontal_split(widths));
    lemma_row_line_feeds(table.column_headers, border, table.layout(), header);
    lemma_ruled_line_feeds(table, body, body.len() as int);
    assert(body.take(body.len() as int) =~= body);
    assert(table.data_rows.take(body.len() as int) =~= table.data_rows);
    let ruled = spec_ruled(body, rule);
    lemma_line_feeds_add(top, header);
    lemma_line_feeds_add(top + header, rule);
    lemma_line_feeds_add(top + header + rule, ruled);
    lemma_line_feeds_add(top + header + rule + ruled, bottom);
}

/// A single line followed by a line feed holds one line feed.
proof fn lemma_ends_one_line(line: Seq<char>)
    requires
        spec_is_line(line),
    ensures
        spec_line_feeds(line.push('\n')) == 1,
{
    lemma_line_has_no_line_feed(line);
    assert(line.push('\n').drop_last() =~= line);
}

/// The first `n` body rows with the rules between them hold a line feed
/// for every line of the rows and one for every rule.
proof fn lemma_ruled_line_feeds(table: TableView, body: Seq<Seq<char>>, n: int)
    requires
        table.holds_lines(),
        table.border.spec_draws_no_line_feed(),
        table.is_body(body),
        0 <= n <= body.len(),
        spec_line_feeds(table.rule()) == 1,
    ensures
        spec_line_feeds(spec_ruled(body.take(n), table.rule())) == spec_total_height(
            table.data_rows.take(n),
            table.layout(),
        ) + if n > 0 {
            n - 1
        } else {
            0
        },
    decreases n,
{
    if n > 0 {
        let rows = body.take(n);
        let rule = table.rule();
        lemma_ruled_line_feeds(table, body, n - 1);
        assert(rows.drop_last() =~= body.take(n - 1));
        assert(table.data_rows.take(n).drop_last() =~= table.data_rows.take(n - 1));
        assert(table.data_rows.take(n).last() == table.data_rows[n - 1]);
        assert(rows.last() == body[n - 1]);
        lemma_row_line_feeds(table.data_rows[n - 1], table.border, table.layout(), body[n - 1]);
        if n > 1 {
            lemma_line_feeds_add(spec_ruled(rows.drop_last(), rule), rule);
            lemma_line_feeds_add(spec_ruled(rows.drop_last(), rule) + rule, rows.last());
        }
    }
}

/// A table can always be printed without colouring.
pub proof fn lemma_plain_text_is_text(table: TableView)
    ensures
        table.is_text(table.plain_text()),
{
    let header = table.column_headers.plain_text(table.border, table.layout());
    let body = table.plain_body();
    lemma_row_plain_text_is_text(table.column_headers, table.border, table.layout());
    assert forall|r: int| 0 <= r < body.len() implies table.data_rows[r].is_text(
        table.border,
        table.layout(),
        #[trigger] body[r],
    ) by {
        lemma_row_plain_text_is_text(table.data_rows[r], table.border, table.layout());
    }
    assert(table.is_body(body));
    assert(table.plain_text() == table.assembled(header, body));
}

/// A table without colours is printed in one way only: without colouring.
pub proof fn lemma_plain_table_text(table: TableView, text: Seq<char>)
    requires
        table.is_plain(),
        table.is_text(text),
    ensures
        text == table.plain_text(),
{
    let (header, body) = choose|header: Seq<char>, body: Seq<Seq<char>>|
        table.column_headers.is_text(table.border, table.layout(), header) && table.is_body(body)
            && text == #[trigger] table.assembled(header, body);
    lemma_plain_row_text(table.column_headers, table.border, table.layout(), header);
    assert forall|r: int| 0 <= r < body.len() implies body[r] == table.plain_body()[r] by {
        lemma_plain_row_text(table.data_rows[r], table.border, table.layout(), body[r]);
    }
    assert(body =~= table.plain_body());
}

/// Printing a table without colours twice gives the same text twice.
pub proof fn lemma_format_is_repeatable(table: TableView, first: Seq<char>, second: Seq<char>)
    requires
        table.is_plain(),
        table.is_text(first),
        table.is_text(second),
    ensures
        first == second,
{
    lemma_plain_table_text(table, first);
    lemma_plain_table_text(table, second);
}

/// A column whose policy fixes its width is that wide, whatever its header
/// and the body hold.
pub proof fn lemma_fixed_column_width(table: TableView, column: int, n: usize)
    requires
        0 <= column < table.column_headers.cells.len(),
        column < table.column_breaks.len(),
        table.column_breaks[column] == CellWidth::Fixed(n),
    ensures
        table.column_widths()[column] == n,
{
}

/// Every line of a cell in one of the table's columns is exactly as wide as
/// the column, in the header and in the body, whatever the alignment and
/// whether the content wraps or truncates.
pub proof fn lemma_table_line_width(table: TableView, row: RowView, column: int, line: int)
    requires
        row == table.column_headers || table.data_rows.contains(row),
        0 <= column < row.cells.len(),
        column < table.column_headers.cells.len(),
        table.column_widths()[column] <= usize::MAX,
        0 <= line < row.column(table.layout(), column).len(),
    ensures
        row.column(table.layout(), column)[line].text.len() == table.column_widths()[column],
{
    lemma_row_columns_width(row, table.layout(), column, line);
}

} // verus!
