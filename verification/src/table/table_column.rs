//! Columns described by a header and a width.

use vstd::prelude::*;
use crate::content::{spec_content_views, Content};
use crate::content_style::{CellWidth, ContentStyle};
use crate::table::cell::{spec_widest, Cell, CellView};

verus! {

/// How wide a column is to be.
#[derive(Clone, Copy, Debug, PartialEq, Eq, Structural)]
pub enum ColumnWidth {
    /// The column is exactly this wide.
    Fixed(usize),
    /// The column is at least this wide.
    Minimum(usize),
}

/// A column: the cell that heads it, and its width.
pub struct TableColumn {
    header: Cell,
    width: ColumnWidth,
}

/// What a column holds.
pub struct TableColumnView {
    pub header: CellView,
    pub width: ColumnWidth,
}

impl View for TableColumn {
    type V = TableColumnView;

    closed spec fn view(&self) -> TableColumnView {
        TableColumnView { header: self.header@, width: self.width }
    }
}

impl TableColumnView {
    /// The number of characters the column takes: its fixed width, or the
    /// larger of its minimum width and the longest line of its header.
    pub open spec fn measured_width(self) -> nat {
        match self.width {
            ColumnWidth::Fixed(fixed) => fixed as nat,
            ColumnWidth::Minimum(minimum) => if spec_widest(self.header.contents) < minimum {
                minimum as nat
            } else {
                spec_widest(self.header.contents)
            },
        }
    }
}

impl TableColumn {
    /// A column headed by one line of content.
    pub fn new(header_content: Content, width: ColumnWidth) -> (res: TableColumn)
        ensures
            res@ == (TableColumnView {
                header: CellView {
                    contents: seq![header_content@],
                    base_style: ContentStyle::spec_default(),
                },
                width,
            }),
    {
        let mut contents: Vec<Content> = Vec::new();
        contents.push(header_content);
        assert(spec_content_views(contents@) =~= seq![header_content@]);
        TableColumn { header: Cell::new(contents, ContentStyle::default()), width }
    }

    /// A column of exactly `width` characters.
    pub fn fixed(header_content: Content, width: usize) -> (res: TableColumn)
        ensures
            res@.header.contents == seq![header_content@],
            res@.width == ColumnWidth::Fixed(width),
    {
        TableColumn::new(header_content, ColumnWidth::Fixed(width))
    }

    /// A column of at least `width` characters.
    pub fn min_width(header_content: Content, width: usize) -> (res: TableColumn)
        ensures
            res@.header.contents == seq![header_content@],
            res@.width == ColumnWidth::Minimum(width),
    {
        TableColumn::new(header_content, ColumnWidth::Minimum(width))
    }

    /// A column exactly as wide as its header.
    pub fn content(header_content: Content) -> (res: TableColumn)
        ensures
            res@.header.contents == seq![header_content@],
            res@.width matches ColumnWidth::Fixed(width) && width == header_content@.text.len(),
    {
        let width: usize = header_content.measure_width();
        TableColumn::new(header_content, ColumnWidth::Fixed(width))
    }

    /// The cell that heads the column.
    pub fn header_content(&self) -> (res: &Cell)
        ensures
            res@ == self@.header,
    {
        &self.header
    }

    /// The length of the longest line of the header.
    pub fn measure_content_width(&self) -> (res: usize)
        ensures
            res == spec_widest(self@.header.contents),
    {
        self.header.measure_width(&CellWidth::Content)
    }

    /// The number of characters the column takes.
    pub fn measure_width(&self) -> (res: usize)
        ensures
            res == self@.measured_width(),
    {
        match self.width {
            ColumnWidth::Fixed(fixed_width) => fixed_width,
            ColumnWidth::Minimum(min_width) => {
                let content_width: usize = self.measure_content_width();
                if content_width < min_width {
                    min_width
                } else {
                    content_width
                }
            },
        }
    }

    /// The number of lines of content in the header.
    pub fn measure_height(&self) -> (res: usize)
        ensures
            res == self@.header.contents.len(),
    {
        let contents: &Vec<Content> = self.header.contents();
        assert(spec_content_views(contents@).len() == contents@.len());
        contents.len()
    }
}

} // verus!
