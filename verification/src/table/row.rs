//! Rows: cells side by side, brought to one common height.

use vstd::prelude::*;
use vstd::string::*;
use crate::content_style::CellWidth;
use crate::paint::{
    lemma_plain_is_rendering, lemma_plain_texts_are_rendered, lemma_rendering_is_line,
    lemma_unpainted_are_plain,
    spec_are_rendered, spec_blank_line, spec_filled, spec_is_rendering, spec_plain_texts,
    StyledLine,
};
use crate::table::border::Border;
use crate::table::cell::{
    lemma_cell_lines_are_lines, lemma_cell_lines_height, lemma_cell_lines_width,
    lemma_plain_cell_lines, Cell, CellView,
};
use crate::text::{
    lemma_concat_push, lemma_joined_ends, lemma_joined_is_line, lemma_joined_step,
    lemma_line_feeds_of_lines, lemma_line_has_no_line_feed, push_char, repeat_char,
    spec_concat, spec_is_line, spec_joined, spec_joined_so_far, spec_line_feeds, spec_texts,
};

verus! {

/// A row of a table: its cells from left to right.
#[derive(Debug)]
pub struct Row {
    cells: Vec<Cell>,
}

/// What a row holds.
pub struct RowView {
    pub cells: Seq<CellView>,
}

/// What each cell in a list holds.
pub open spec fn spec_cell_views(cells: Seq<Cell>) -> Seq<CellView> {
    Seq::new(cells.len(), |i: int| cells[i]@)
}

impl View for Row {
    type V = RowView;

    closed spec fn view(&self) -> RowView {
        RowView { cells: spec_cell_views(self.cells@) }
    }
}

/// The width policy of column `ix`: the one listed for it, and the width
/// of the content for a column beyond the end of the list.
pub open spec fn spec_policy_at(policies: Seq<CellWidth>, ix: int) -> CellWidth {
    if 0 <= ix < policies.len() {
        policies[ix]
    } else {
        CellWidth::Content
    }
}

/// The height of the tallest of `cells`, each under the policy of its
/// column; zero where there are no cells.
pub open spec fn spec_tallest(cells: Seq<CellView>, policies: Seq<CellWidth>) -> nat
    decreases cells.len(),
{
    if cells.len() == 0 {
        0
    } else {
        let before = spec_tallest(cells.drop_last(), policies);
        let height = cells.last().height(spec_policy_at(policies, cells.len() - 1));
        if height > before {
            height
        } else {
            before
        }
    }
}

/// The texts of a grid of strings, column by column.
pub open spec fn spec_grid(columns: Seq<Vec<String>>) -> Seq<Seq<Seq<char>>> {
    Seq::new(columns.len(), |c: int| spec_texts(columns[c]@))
}

/// What each column of `grid` shows on line `line`, left to right; a column
/// that has no such line shows nothing.
pub open spec fn spec_grid_line(grid: Seq<Seq<Seq<char>>>, line: int) -> Seq<Seq<char>> {
    Seq::new(
        grid.len(),
        |c: int|
            if 0 <= line < grid[c].len() {
                grid[c][line]
            } else {
                Seq::empty()
            },
    )
}

/// One printed line of a row: the left border, the cells with the vertical
/// split between each two, the right border, and a line feed.
pub open spec fn spec_line_text(border: Border, cells: Seq<Seq<char>>) -> Seq<char> {
    seq![border.left] + spec_joined(cells, border.vertical_split) + seq![border.right, '\n']
}

/// The printed lines of a grid, top to bottom.
pub open spec fn spec_grid_lines(border: Border, grid: Seq<Seq<Seq<char>>>, height: nat) -> Seq<
    Seq<char>,
> {
    Seq::new(height, |line: int| spec_line_text(border, spec_grid_line(grid, line)))
}

/// The text of a grid of `height` lines: its printed lines one after the
/// other.
pub open spec fn spec_row_text(border: Border, grid: Seq<Seq<Seq<char>>>, height: nat) -> Seq<char> {
    spec_concat(spec_grid_lines(border, grid, height))
}

impl RowView {
    /// The height of the row: that of its tallest cell.
    pub open spec fn height(self, policies: Seq<CellWidth>) -> nat {
        spec_tallest(self.cells, policies)
    }

    /// Whether the height of every cell can be counted in a `usize`.
    pub open spec fn fits(self, policies: Seq<CellWidth>) -> bool {
        forall|ix: int|
            0 <= ix < self.cells.len() ==> (#[trigger] self.cells[ix]).height(
                spec_policy_at(policies, ix),
            ) <= usize::MAX
    }

    /// The lines of column `ix`: those of its cell, then blank lines as
    /// wide as the cell down to the height of the row.
    pub open spec fn column(self, policies: Seq<CellWidth>, ix: int) -> Seq<StyledLine> {
        let policy = spec_policy_at(policies, ix);
        spec_filled(self.cells[ix].lines(policy), self.cells[ix].width(policy), self.height(policies))
    }

    /// Whether the text of every content of the row is a single line.
    pub open spec fn holds_lines(self) -> bool {
        forall|c: int| 0 <= c < self.cells.len() ==> (#[trigger] self.cells[c]).holds_lines()
    }

    /// Whether no content of the row is laid out in a style with a colour.
    pub open spec fn is_plain(self) -> bool {
        forall|c: int| 0 <= c < self.cells.len() ==> (#[trigger] self.cells[c]).is_plain()
    }

    /// The uncoloured texts of every column.
    pub open spec fn plain_grid(self, policies: Seq<CellWidth>) -> Seq<Seq<Seq<char>>> {
        Seq::new(self.cells.len(), |c: int| spec_plain_texts(self.column(policies, c)))
    }

    /// The printed form of the row without any colouring.
    pub open spec fn plain_text(self, border: Border, policies: Seq<CellWidth>) -> Seq<char> {
        spec_row_text(border, self.plain_grid(policies), self.height(policies))
    }

    /// Whether `grid` can come of colouring the lines of every column.
    pub open spec fn is_rendered_as(
        self,
        policies: Seq<CellWidth>,
        grid: Seq<Seq<Seq<char>>>,
    ) -> bool {
        &&& grid.len() == self.cells.len()
        &&& forall|c: int|
            0 <= c < grid.len() ==> spec_are_rendered(#[trigger] grid[c], self.column(policies, c))
    }

    /// Whether `text` can be the printed form of the row: the text of a
    /// grid that can come of colouring its columns.
    pub open spec fn is_text(self, border: Border, policies: Seq<CellWidth>, text: Seq<char>) -> bool {
        exists|grid: Seq<Seq<Seq<char>>>| #[trigger]
            self.is_rendered_as(policies, grid) && text == spec_row_text(
                border,
                grid,
                self.height(policies),
            )
    }
}

/// Hands out the cells of a row, left to right.
pub struct CellIterator<'a> {
    cells: &'a Vec<Cell>,
    current_cell_ix: usize,
}

impl<'a> CellIterator<'a> {
    #[verifier::type_invariant]
    spec fn well_formed(&self) -> bool {
        self.current_cell_ix <= self.cells.len()
    }

    /// The cells that are still to come, the next one first.
    pub closed spec fn spec_remaining(&self) -> Seq<CellView> {
        spec_cell_views(self.cells@).skip(self.current_cell_ix as int)
    }

    /// The next cell, or `None` once every cell has been handed out.
    pub fn next(&mut self) -> (res: Option<&'a Cell>)
        ensures
            match res {
                Some(cell) => old(self).spec_remaining().len() > 0 && cell@ == old(
                    self,
                ).spec_remaining()[0] && final(self).spec_remaining() == old(
                    self,
                ).spec_remaining().skip(1),
                None => old(self).spec_remaining().len() == 0 && final(self).spec_remaining()
                    == old(self).spec_remaining(),
            },
    {
        proof {
            use_type_invariant(&*self);
        }
        if self.current_cell_ix < self.cells.len() {
            let cell: &Cell = &self.cells[self.current_cell_ix];
            self.current_cell_ix += 1;
            assert(self.spec_remaining() =~= old(self).spec_remaining().skip(1));
            Some(cell)
        } else {
            None
        }
    }
}

impl Default for Row {
    fn default() -> (res: Row)
        ensures
            res@.cells == Seq::<CellView>::empty(),
    {
        Row::new()
    }
}

impl Row {
    /// A row without cells.
    pub fn new() -> (res: Row)
        ensures
            res@.cells == Seq::<CellView>::empty(),
    {
        let cells: Vec<Cell> = Vec::new();
        assert(spec_cell_views(cells@) =~= Seq::empty());
        Row { cells }
    }

    /// A row of the given cells, left to right.
    pub fn from(cells: Vec<Cell>) -> (res: Row)
        ensures
            res@.cells == spec_cell_views(cells@),
    {
        Row { cells }
    }

    /// Adds a cell at the right end of the row.
    pub fn add_cell(&mut self, cell: Cell)
        ensures
            final(self)@.cells == old(self)@.cells.push(cell@),
    {
        self.cells.push(cell);
        assert(self@.cells =~= old(self)@.cells.push(cell@));
    }

    /// A walk over the cells of the row, left to right.
    pub fn iter(&self) -> (res: CellIterator<'_>)
        ensures
            res.spec_remaining() == self@.cells,
    {
        let res = CellIterator { cells: &self.cells, current_cell_ix: 0 };
        assert(res.spec_remaining() =~= self@.cells);
        res
    }

    /// The number of cells.
    pub fn len(&self) -> (res: usize)
        ensures
            res == self@.cells.len(),
    {
        self.cells.len()
    }

    /// Whether the row has no cells.
    pub fn is_empty(&self) -> (res: bool)
        ensures
            res == (self@.cells.len() == 0),
    {
        self.len() == 0
    }

    /// The printed form of the row under the width policies of its columns.
    ///
    /// The row is as high as its tallest cell. Every cell is laid out at
    /// its own width and filled with blank lines down to that height; each
    /// printed line runs from the left border through the cells, with the
    /// vertical split between each two, to the right border and a line
    /// feed.
    pub fn format(&self, border: &Border, column_breaks: &[CellWidth]) -> (res: String)
        requires
            self@.fits(column_breaks@),
        ensures
            self@.is_text(*border, column_breaks@, res@),
            self@.is_plain() ==> res@ == self@.plain_text(*border, column_breaks@),
    {
        let row_height: usize = self.measure_height(column_breaks);
        let mut columns: Vec<Vec<String>> = Vec::new();
        let mut cell_ix: usize = 0;
        while cell_ix < self.cells.len()
            invariant
                cell_ix <= self.cells.len(),
                self@.fits(column_breaks@),
                row_height == self@.height(column_breaks@),
                columns.len() == cell_ix,
                forall|c: int|
                    0 <= c < cell_ix ==> spec_are_rendered(
                        #[trigger] spec_grid(columns@)[c],
                        self@.column(column_breaks@, c),
                    ),
            decreases self.cells.len() - cell_ix,
        {
            let cell: &Cell = &self.cells[cell_ix];
            let column_break: CellWidth = policy_at(column_breaks, cell_ix);
            proof {
                assert(self@.cells[cell_ix as int] == cell@);
                lemma_tallest_bounds(self@.cells, column_breaks@, cell_ix as int);
            }
            let column: Vec<String> = Row::column_lines(cell, &column_break, row_height);
            let ghost before = spec_grid(columns@);
            columns.push(column);
            assert(spec_grid(columns@) =~= before.push(spec_texts(column@)));
            cell_ix += 1;
        }
        let res: String = Row::assemble(border, &columns, row_height);
        proof {
            assert(self@.is_rendered_as(column_breaks@, spec_grid(columns@)));
            if self@.is_plain() {
                lemma_plain_row_text(self@, *border, column_breaks@, res@);
            }
        }
        res
    }

    /// The lines of `cell` under a width policy, filled with blank lines
    /// down to `height`.
    fn column_lines(cell: &Cell, column_break: &CellWidth, height: usize) -> (res: Vec<String>)
        requires
            cell@.height(*column_break) <= height,
        ensures
            spec_are_rendered(
                spec_texts(res@),
                spec_filled(
                    cell@.lines(*column_break),
                    cell@.width(*column_break),
                    height as nat,
                ),
            ),
    {
        let ghost lines = cell@.lines(*column_break);
        let ghost filled = spec_filled(lines, cell@.width(*column_break), height as nat);
        proof {
            lemma_cell_lines_height(cell@, *column_break);
        }
        let mut content_iterator = cell.get_iterator(column_break);
        let cell_width: usize = cell.measure_width(column_break);
        let mut column: Vec<String> = Vec::new();
        let mut line_ix: usize = 0;
        while line_ix < height
            invariant
                line_ix <= height,
                lines.len() <= height,
                cell_width == cell@.width(*column_break),
                filled == spec_filled(lines, cell_width as nat, height as nat),
                column.len() == line_ix,
                spec_are_rendered(content_iterator.spec_remaining(), lines.skip(
                    if line_ix <= lines.len() {
                        line_ix as int
                    } else {
                        lines.len() as int
                    },
                )),
                forall|i: int|
                    0 <= i < line_ix ==> spec_is_rendering(
                        #[trigger] spec_texts(column@)[i],
                        filled[i].text,
                        filled[i].foreground,
                        filled[i].background,
                    ),
            decreases height - line_ix,
        {
            let ghost before = spec_texts(column@);
            let ghost remaining = content_iterator.spec_remaining();
            let line: String = match content_iterator.next() {
                Some(content) => {
                    proof {
                        assert(lines.skip(line_ix as int)[0] == lines[line_ix as int]);
                        assert(lines.skip(line_ix as int).skip(1) =~= lines.skip(line_ix + 1));
                        assert(spec_is_rendering(
                            remaining[0],
                            lines[line_ix as int].text,
                            lines[line_ix as int].foreground,
                            lines[line_ix as int].background,
                        ));
                    }
                    content
                },
                None => {
                    let blank: String = repeat_char(' ', cell_width);
                    proof {
                        lemma_plain_is_rendering(blank@, None, None);
                    }
                    blank
                },
            };
            column.push(line);
            assert(spec_texts(column@) =~= before.push(line@));
            line_ix += 1;
        }
        column
    }

    /// The text of a grid of finished lines, given column by column.
    ///
    /// Line `l` of the text runs from the left border through line `l` of
    /// every column, with the vertical split between each two, to the right
    /// border and a line feed. A column with fewer than `height` lines
    /// shows nothing on the lines it lacks.
    pub fn assemble(border: &Border, columns: &Vec<Vec<String>>, height: usize) -> (res: String)
        ensures
            res@ == spec_row_text(*border, spec_grid(columns@), height as nat),
    {
        let ghost grid = spec_grid(columns@);
        let ghost all = spec_grid_lines(*border, grid, height as nat);
        let mut result: String = String::new();
        let mut line_ix: usize = 0;
        proof {
            assert(all.take(0) =~= Seq::empty());
        }
        while line_ix < height
            invariant
                line_ix <= height,
                grid == spec_grid(columns@),
                all == spec_grid_lines(*border, grid, height as nat),
                result@ == spec_concat(all.take(line_ix as int)),
            decreases height - line_ix,
        {
            let ghost cells = spec_grid_line(grid, line_ix as int);
            let mut line: String = border.format_left();
            let mut cell_ix: usize = 0;
            proof {
                lemma_joined_ends(cells, border.vertical_split);
            }
            while cell_ix < columns.len()
                invariant
                    cell_ix <= columns.len(),
                    line_ix < height,
                    grid == spec_grid(columns@),
                    cells == spec_grid_line(grid, line_ix as int),
                    line@ == seq![border.left] + spec_joined_so_far(
                        cells,
                        border.vertical_split,
                        cell_ix as int,
                    ),
                decreases columns.len() - cell_ix,
            {
                proof {
                    lemma_joined_step(cells, border.vertical_split, cell_ix as int);
                }
                let ghost before = line@;
                if line_ix < columns[cell_ix].len() {
                    line.append(columns[cell_ix][line_ix].as_str());
                }
                assert(line@ =~= before + cells[cell_ix as int]);
                if cell_ix + 1 < columns.len() {
                    line.append(border.format_vertical_split().as_str());
                    assert(line@ =~= seq![border.left] + (spec_joined_so_far(
                        cells,
                        border.vertical_split,
                        cell_ix as int,
                    ) + cells[cell_ix as int]).push(border.vertical_split));
                } else {
                    assert(line@ =~= seq![border.left] + (spec_joined_so_far(
                        cells,
                        border.vertical_split,
                        cell_ix as int,
                    ) + cells[cell_ix as int]));
                }
                cell_ix += 1;
            }
            line.append(border.format_right().as_str());
            push_char(&mut line, '\n');
            proof {
                assert(line@ =~= spec_line_text(*border, cells));
                assert(all.take(line_ix + 1) =~= all.take(line_ix as int).push(line@));
                lemma_concat_push(all.take(line_ix as int), line@);
            }
            result.append(line.as_str());
            line_ix += 1;
        }
        proof {
            assert(all.take(height as int) =~= all);
        }
        result
    }

    /// Whether the height of every cell of the row can be counted in a
    /// `usize`, so that the row can be measured and printed.
    pub fn fits(&self, column_breaks: &[CellWidth]) -> (res: bool)
        ensures
            res == self@.fits(column_breaks@),
    {
        let mut cell_ix: usize = 0;
        while cell_ix < self.cells.len()
            invariant
                cell_ix <= self.cells.len(),
                forall|ix: int|
                    0 <= ix < cell_ix ==> (#[trigger] self@.cells[ix]).height(
                        spec_policy_at(column_breaks@, ix),
                    ) <= usize::MAX,
            decreases self.cells.len() - cell_ix,
        {
            let column_break: CellWidth = policy_at(column_breaks, cell_ix);
            assert(self@.cells[cell_ix as int] == self.cells@[cell_ix as int]@);
            if self.cells[cell_ix].checked_measure_height(&column_break).is_none() {
                return false;
            }
            cell_ix += 1;
        }
        true
    }

    /// The height of the row under the width policies of its columns: the
    /// height of its tallest cell.
    pub fn measure_height(&self, column_breaks: &[CellWidth]) -> (res: usize)
        requires
            self@.fits(column_breaks@),
        ensures
            res == self@.height(column_breaks@),
    {
        let mut tallest_height: usize = 0;
        let mut cell_ix: usize = 0;
        while cell_ix < self.cells.len()
            invariant
                cell_ix <= self.cells.len(),
                self@.fits(column_breaks@),
                tallest_height == spec_tallest(self@.cells.take(cell_ix as int), column_breaks@),
            decreases self.cells.len() - cell_ix,
        {
            let column_break: CellWidth = policy_at(column_breaks, cell_ix);
            proof {
                let longer = self@.cells.take(cell_ix + 1);
                assert(longer.drop_last() =~= self@.cells.take(cell_ix as int));
                assert(longer.last() == self.cells@[cell_ix as int]@);
                assert(self@.cells[cell_ix as int] == self.cells@[cell_ix as int]@);
            }
            let cell_height: usize = self.cells[cell_ix].measure_height(&column_break);
            if cell_height > tallest_height {
                tallest_height = cell_height;
            }
            cell_ix += 1;
        }
        proof {
            assert(self@.cells.take(cell_ix as int) =~= self@.cells);
        }
        tallest_height
    }
}

/// The width policy of column `ix`.
pub fn policy_at(column_breaks: &[CellWidth], ix: usize) -> (res: CellWidth)
    ensures
        res == spec_policy_at(column_breaks@, ix as int),
{
    if ix < column_breaks.len() {
        column_breaks[ix]
    } else {
        CellWidth::default()
    }
}

/// A row can always be printed without colouring.
pub proof fn lemma_row_plain_text_is_text(row: RowView, border: Border, policies: Seq<CellWidth>)
    ensures
        row.is_text(border, policies, row.plain_text(border, policies)),
{
    let grid = row.plain_grid(policies);
    assert forall|c: int| 0 <= c < grid.len() implies spec_are_rendered(
        #[trigger] grid[c],
        row.column(policies, c),
    ) by {
        lemma_plain_texts_are_rendered(row.column(policies, c));
    }
    assert(row.is_rendered_as(policies, grid));
}

/// A row without colours is printed in one way only: without colouring.
pub proof fn lemma_plain_row_text(
    row: RowView,
    border: Border,
    policies: Seq<CellWidth>,
    text: Seq<char>,
)
    requires
        row.is_plain(),
        row.is_text(border, policies, text),
    ensures
        text == row.plain_text(border, policies),
{
    let grid = choose|grid: Seq<Seq<Seq<char>>>| #[trigger]
        row.is_rendered_as(policies, grid) && text == spec_row_text(
            border,
            grid,
            row.height(policies),
        );
    assert forall|c: int| 0 <= c < grid.len() implies grid[c] == row.plain_grid(policies)[c] by {
        lemma_plain_cell_lines(row.cells[c], spec_policy_at(policies, c));
        lemma_unpainted_are_plain(grid[c], row.column(policies, c));
    }
    assert(grid =~= row.plain_grid(policies));
}

/// A printed line of cells that are single lines, between border glyphs
/// that are no line feeds, holds one line feed: the one at its end.
pub proof fn lemma_line_text_is_one_line(border: Border, cells: Seq<Seq<char>>)
    requires
        border.left != '\n',
        border.right != '\n',
        border.vertical_split != '\n',
        forall|c: int| 0 <= c < cells.len() ==> spec_is_line(#[trigger] cells[c]),
    ensures
        spec_line_feeds(spec_line_text(border, cells)) == 1,
{
    let body = seq![border.left] + spec_joined(cells, border.vertical_split) + seq![border.right];
    lemma_joined_is_line(cells, border.vertical_split);
    assert(spec_is_line(body));
    lemma_line_has_no_line_feed(body);
    assert(spec_line_text(border, cells) =~= body.push('\n'));
    assert(body.push('\n').drop_last() =~= body);
}

/// A row whose contents are single lines, printed in a border whose glyphs
/// are no line feeds, is printed on as many lines as the row is high: its
/// text holds that many line feeds, whether it is coloured or not.
pub proof fn lemma_row_line_feeds(
    row: RowView,
    border: Border,
    policies: Seq<CellWidth>,
    text: Seq<char>,
)
    requires
        row.holds_lines(),
        border.left != '\n',
        border.right != '\n',
        border.vertical_split != '\n',
        row.is_text(border, policies, text),
    ensures
        spec_line_feeds(text) == row.height(policies),
{
    let grid = choose|grid: Seq<Seq<Seq<char>>>| #[trigger]
        row.is_rendered_as(policies, grid) && text == spec_row_text(
            border,
            grid,
            row.height(policies),
        );
    let lines = spec_grid_lines(border, grid, row.height(policies));
    assert forall|l: int| 0 <= l < lines.len() implies spec_line_feeds(#[trigger] lines[l])
        == 1 by {
        let cells = spec_grid_line(grid, l);
        assert forall|c: int| 0 <= c < cells.len() implies spec_is_line(#[trigger] cells[c]) by {
            if 0 <= l < grid[c].len() {
                let policy = spec_policy_at(policies, c);
                let column = row.column(policies, c);
                let own = row.cells[c].lines(policy);
                assert(spec_are_rendered(grid[c], column));
                if l < own.len() {
                    lemma_cell_lines_are_lines(row.cells[c], policy, l);
                }
                assert(spec_is_line(column[l].text));
                assert(spec_is_rendering(
                    grid[c][l],
                    column[l].text,
                    column[l].foreground,
                    column[l].background,
                ));
                lemma_rendering_is_line(
                    grid[c][l],
                    column[l].text,
                    column[l].foreground,
                    column[l].background,
                );
            }
        }
        lemma_line_text_is_one_line(border, cells);
    }
    lemma_line_feeds_of_lines(lines);
}

/// No cell of a row is taller than the row.
pub proof fn lemma_tallest_bounds(cells: Seq<CellView>, policies: Seq<CellWidth>, ix: int)
    requires
        0 <= ix < cells.len(),
    ensures
        cells[ix].height(spec_policy_at(policies, ix)) <= spec_tallest(cells, policies),
    decreases cells.len(),
{
    if ix < cells.len() - 1 {
        lemma_tallest_bounds(cells.drop_last(), policies, ix);
    }
}

/// A row with cells is exactly as high as one of them.
pub proof fn lemma_tallest_reached(cells: Seq<CellView>, policies: Seq<CellWidth>)
    requires
        cells.len() > 0,
    ensures
        exists|ix: int|
            0 <= ix < cells.len() && (#[trigger] cells[ix]).height(spec_policy_at(policies, ix))
                == spec_tallest(cells, policies),
    decreases cells.len(),
{
    let last = cells.len() - 1;
    let before = spec_tallest(cells.drop_last(), policies);
    if cells[last].height(spec_policy_at(policies, last)) > before || cells.len() == 1 {
        assert(cells[last].height(spec_policy_at(policies, last)) == spec_tallest(cells, policies));
    } else {
        lemma_tallest_reached(cells.drop_last(), policies);
        let ix = choose|ix: int|
            0 <= ix < cells.drop_last().len() && (#[trigger] cells.drop_last()[ix]).height(
                spec_policy_at(policies, ix),
            ) == before;
        assert(cells[ix] == cells.drop_last()[ix]);
    }
}

/// Every column of a row has exactly as many lines as the row is high: the
/// lines of its cell, none of them dropped, and blank lines below them.
pub proof fn lemma_row_columns_height(row: RowView, policies: Seq<CellWidth>, ix: int)
    requires
        0 <= ix < row.cells.len(),
    ensures
        row.column(policies, ix).len() == row.height(policies),
        row.cells[ix].lines(spec_policy_at(policies, ix)).len() <= row.height(policies),
        row.column(policies, ix).take(
            row.cells[ix].lines(spec_policy_at(policies, ix)).len() as int,
        ) == row.cells[ix].lines(spec_policy_at(policies, ix)),
        forall|line: int|
            row.cells[ix].lines(spec_policy_at(policies, ix)).len() <= line < row.height(policies)
                ==> #[trigger] row.column(policies, ix)[line] == spec_blank_line(
                row.cells[ix].width(spec_policy_at(policies, ix)),
            ),
{
    let policy = spec_policy_at(policies, ix);
    lemma_cell_lines_height(row.cells[ix], policy);
    lemma_tallest_bounds(row.cells, policies, ix);
    let lines = row.cells[ix].lines(policy);
    assert(row.column(policies, ix).take(lines.len() as int) =~= lines);
}

/// Every line of a column is exactly as wide as the column's cell.
pub proof fn lemma_row_columns_width(row: RowView, policies: Seq<CellWidth>, ix: int, line: int)
    requires
        0 <= ix < row.cells.len(),
        0 <= line < row.column(policies, ix).len(),
    ensures
        row.column(policies, ix)[line].text.len() == row.cells[ix].width(
            spec_policy_at(policies, ix),
        ),
{
    let policy = spec_policy_at(policies, ix);
    if line < row.cells[ix].lines(policy).len() {
        lemma_cell_lines_width(row.cells[ix], policy, line);
    }
}

} // verus!
