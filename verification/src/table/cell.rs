//! Cells: one grid rectangle of a table, holding lines of content stacked
//! on top of each other.

use vstd::prelude::*;
use crate::content::{
    lemma_lines_stay_lines, lemma_plain_lines_width, spec_content_lines, spec_content_views,
    spec_effective_style, spec_line_count, Content, ContentView,
};
use crate::content_style::{CellWidth, ContentStyle, StyleError, Wrap};
use crate::data_item::DataItem;
use crate::paint::{
    lemma_plain_is_rendering, spec_all_unpainted, spec_are_rendered, spec_filled, StyledLine,
};
use crate::text::{repeat_char, spec_is_line, spec_split, spec_texts, split};

verus! {

/// A table cell: lines of content, and the style of those that have none
/// of their own.
#[derive(Debug)]
pub struct Cell {
    contents: Vec<Content>,
    base_style: ContentStyle,
}

/// What a cell holds.
pub struct CellView {
    pub contents: Seq<ContentView>,
    pub base_style: ContentStyle,
}

impl View for Cell {
    type V = CellView;

    closed spec fn view(&self) -> CellView {
        CellView { contents: spec_content_views(self.contents@), base_style: self.base_style }
    }
}

/// The length of the longest text among `contents`, zero where there is
/// none.
pub open spec fn spec_widest(contents: Seq<ContentView>) -> nat
    decreases contents.len(),
{
    if contents.len() == 0 {
        0
    } else {
        let before = spec_widest(contents.drop_last());
        if contents.last().text.len() > before {
            contents.last().text.len()
        } else {
            before
        }
    }
}

/// The number of lines that a cell of `width` sets aside for one piece of
/// content: one where it does not wrap or fits the width, and otherwise one
/// more than the number of times the width goes into its length. At width
/// zero nothing wraps, and one line is set aside.
pub open spec fn spec_reserved_height(content: ContentView, base: ContentStyle, width: nat) -> nat {
    if spec_effective_style(content.style, base).wrap == Wrap::Truncate || content.text.len()
        <= width || width == 0 {
        1
    } else {
        content.text.len() / width + 1
    }
}

/// The number of lines that a cell of `width` sets aside for `contents`:
/// the sum of what it sets aside for each.
pub open spec fn spec_stacked_height(contents: Seq<ContentView>, base: ContentStyle, width: nat) -> nat
    decreases contents.len(),
{
    if contents.len() == 0 {
        0
    } else {
        spec_stacked_height(contents.drop_last(), base, width) + spec_reserved_height(
            contents.last(),
            base,
            width,
        )
    }
}

/// The lines of `contents` at `width`, those of the first content on top.
pub open spec fn spec_stacked_lines(contents: Seq<ContentView>, base: ContentStyle, width: nat) -> Seq<
    StyledLine,
>
    decreases contents.len(),
{
    if contents.len() == 0 {
        Seq::empty()
    } else {
        spec_stacked_lines(contents.drop_last(), base, width) + spec_content_lines(
            contents.last(),
            base,
            width,
        )
    }
}

impl CellView {
    /// The width of the cell under a width policy: the fixed width, the
    /// larger of minimum and widest content, or the widest content.
    pub open spec fn width(self, policy: CellWidth) -> nat {
        match policy {
            CellWidth::Fixed(fixed) => fixed as nat,
            CellWidth::Minimum(minimum) => if minimum > spec_widest(self.contents) {
                minimum as nat
            } else {
                spec_widest(self.contents)
            },
            CellWidth::Content => spec_widest(self.contents),
        }
    }

    /// The number of lines of the cell under a width policy.
    pub open spec fn height(self, policy: CellWidth) -> nat {
        spec_stacked_height(self.contents, self.base_style, self.width(policy))
    }

    /// The lines of the cell under a width policy: the lines of its
    /// contents, then blank lines up to its height.
    pub open spec fn lines(self, policy: CellWidth) -> Seq<StyledLine> {
        spec_filled(
            spec_stacked_lines(self.contents, self.base_style, self.width(policy)),
            self.width(policy),
            self.height(policy),
        )
    }

    /// Whether no content of the cell is laid out in a style with a colour.
    pub open spec fn is_plain(self) -> bool {
        forall|i: int|
            0 <= i < self.contents.len() ==> spec_effective_style(
                (#[trigger] self.contents[i]).style,
                self.base_style,
            ).foreground_color is None && spec_effective_style(
                self.contents[i].style,
                self.base_style,
            ).background_color is None
    }

    /// Whether the text of every content of the cell is a single line.
    pub open spec fn holds_lines(self) -> bool {
        forall|i: int| 0 <= i < self.contents.len() ==> spec_is_line((#[trigger] self.contents[i]).text)
    }

    /// The width policy that the cell asks for as a column header: that of
    /// the style of its first content, and the content's width where there
    /// is no such style.
    pub open spec fn cell_width(self) -> CellWidth {
        if self.contents.len() > 0 && self.contents[0].style is Some {
            self.contents[0].style->0.width
        } else {
            CellWidth::Content
        }
    }
}

/// The style of content number `ix` of a cell that is built from a list of
/// style notations: the notation with that number, and the default style
/// where the list is shorter.
pub open spec fn spec_style_at(styles: Seq<Seq<char>>, ix: int) -> Result<ContentStyle, StyleError> {
    if ix < styles.len() {
        ContentStyle::spec_from_format(styles[ix])
    } else {
        Ok(ContentStyle::spec_default())
    }
}

/// The contents of a cell built from style notations and texts, or the
/// error of the first notation in use that denotes no style.
pub open spec fn spec_styled_contents(styles: Seq<Seq<char>>, texts: Seq<Seq<char>>) -> Result<
    Seq<ContentView>,
    StyleError,
>
    decreases texts.len(),
{
    if texts.len() == 0 {
        Ok(Seq::empty())
    } else {
        match spec_styled_contents(styles, texts.drop_last()) {
            Err(e) => Err(e),
            Ok(before) => match spec_style_at(styles, texts.len() - 1) {
                Err(e) => Err(e),
                Ok(style) => Ok(before.push(ContentView { text: texts.last(), style: Some(style) })),
            },
        }
    }
}

/// The texts that a list of string slices holds.
pub open spec fn spec_slice_texts(strings: Seq<&str>) -> Seq<Seq<char>> {
    Seq::new(strings.len(), |i: int| strings[i]@)
}

/// Hands out the lines of a cell, top to bottom.
pub struct TableCellContentIterator {
    lines: Vec<String>,
    next_line_ix: usize,
}

impl TableCellContentIterator {
    #[verifier::type_invariant]
    spec fn well_formed(&self) -> bool {
        self.next_line_ix <= self.lines.len()
    }

    /// The lines that are still to come, the next one first.
    pub closed spec fn spec_remaining(&self) -> Seq<Seq<char>> {
        spec_texts(self.lines@).skip(self.next_line_ix as int)
    }

    /// The next line, or `None` once every line has been handed out.
    pub fn next(&mut self) -> (res: Option<String>)
        ensures
            match res {
                Some(line) => old(self).spec_remaining().len() > 0 && line@ == old(
                    self,
                ).spec_remaining()[0] && final(self).spec_remaining() == old(
                    self,
                ).spec_remaining().skip(1),
                None => old(self).spec_remaining().len() == 0 && final(self).spec_remaining()
                    == old(self).spec_remaining(),
            },
    {
        proof {
            use_type_invariant(&*self);
        }
        if self.next_line_ix < self.lines.len() {
            let line: String = self.lines[self.next_line_ix].clone();
            self.next_line_ix += 1;
            assert(self.spec_remaining() =~= old(self).spec_remaining().skip(1));
            Some(line)
        } else {
            None
        }
    }
}

impl Cell {
    /// A cell without content, in the default style.
    pub fn empty() -> (res: Cell)
        ensures
            res@ == (CellView { contents: Seq::empty(), base_style: ContentStyle::spec_default() }),
    {
        let contents: Vec<Content> = Vec::new();
        assert(spec_content_views(contents@) =~= Seq::empty());
        Cell { contents, base_style: ContentStyle::default() }
    }

    /// A cell with the given contents, top to bottom, and base style.
    pub fn new(contents: Vec<Content>, base_style: ContentStyle) -> (res: Cell)
        ensures
            res@ == (CellView { contents: spec_content_views(contents@), base_style }),
    {
        Cell { contents, base_style }
    }

    /// A cell whose lines of content have the given texts, top to bottom,
    /// each in the default style.
    pub fn from_contents(contents: Vec<String>) -> (res: Cell)
        ensures
            res@.base_style == ContentStyle::spec_default(),
            res@.contents == Seq::new(
                contents.len() as nat,
                |i: int|
                    ContentView { text: contents[i]@, style: Some(ContentStyle::spec_default()) },
            ),
    {
        let mut styled: Vec<Content> = Vec::new();
        let mut ix: usize = 0;
        while ix < contents.len()
            invariant
                ix <= contents.len(),
                spec_content_views(styled@) == Seq::new(
                    ix as nat,
                    |i: int|
                        ContentView {
                            text: contents[i]@,
                            style: Some(ContentStyle::spec_default()),
                        },
                ),
            decreases contents.len() - ix,
        {
            let ghost before = spec_content_views(styled@);
            styled.push(Content::new(contents[ix].clone(), Some(ContentStyle::default())));
            assert(spec_content_views(styled@) =~= before.push(
                ContentView {
                    text: contents[ix as int]@,
                    style: Some(ContentStyle::spec_default()),
                },
            ));
            ix += 1;
            assert(spec_content_views(styled@) =~= Seq::new(
                ix as nat,
                |i: int|
                    ContentView { text: contents[i]@, style: Some(ContentStyle::spec_default()) },
            ));
        }
        Cell { contents: styled, base_style: ContentStyle::default() }
    }

    /// A cell whose lines of content each come with a style notation.
    ///
    /// `format` holds the notations, separated by single spaces; the first
    /// belongs to the first content, and so on. Content beyond the last
    /// notation gets the default style, and notations beyond the last
    /// content are not read.
    pub fn from_styled_content(format: &str, contents: Vec<&str>) -> (res: Result<Cell, StyleError>)
        ensures
            match res {
                Ok(cell) => spec_styled_contents(
                    spec_split(format@, ' '),
                    spec_slice_texts(contents@),
                ) == Ok::<Seq<ContentView>, StyleError>(cell@.contents) && cell@.base_style
                    == ContentStyle::spec_default(),
                Err(e) => spec_styled_contents(
                    spec_split(format@, ' '),
                    spec_slice_texts(contents@),
                ) == Err::<Seq<ContentView>, StyleError>(e),
            },
    {
        let styles: Vec<String> = split(format, ' ');
        let ghost notations: Seq<Seq<char>> = spec_split(format@, ' ');
        let ghost texts: Seq<Seq<char>> = spec_slice_texts(contents@);
        let mut styled: Vec<Content> = Vec::new();
        let mut style_ix: usize = 0;
        proof {
            assert(texts.take(0) =~= Seq::empty());
            assert(spec_content_views(styled@) =~= Seq::empty());
        }
        while style_ix < contents.len()
            invariant
                style_ix <= contents.len(),
                notations == spec_texts(styles@),
                notations == spec_split(format@, ' '),
                texts == spec_slice_texts(contents@),
                spec_styled_contents(notations, texts.take(style_ix as int)) == Ok::<
                    Seq<ContentView>,
                    StyleError,
                >(spec_content_views(styled@)),
            decreases contents.len() - style_ix,
        {
            let parsed: Result<ContentStyle, StyleError> = if style_ix < styles.len() {
                ContentStyle::from_format(styles[style_ix].as_str())
            } else {
                Ok(ContentStyle::default())
            };
            proof {
                let longer = texts.take(style_ix + 1);
                assert(longer.drop_last() =~= texts.take(style_ix as int));
                assert(longer.last() == contents@[style_ix as int]@);
                assert(parsed == spec_style_at(notations, style_ix as int));
            }
            match parsed {
                Err(e) => {
                    proof {
                        assert(spec_styled_contents(notations, texts.take(style_ix + 1)) == Err::<
                            Seq<ContentView>,
                            StyleError,
                        >(e));
                        lemma_styled_contents_error(notations, texts, style_ix + 1);
                    }
                    return Err(e);
                },
                Ok(style) => {
                    let ghost before = spec_content_views(styled@);
                    styled.push(Content::new(contents[style_ix].to_owned(), Some(style)));
                    assert(spec_content_views(styled@) =~= before.push(
                        ContentView { text: contents@[style_ix as int]@, style: Some(style) },
                    ));
                },
            }
            style_ix += 1;
        }
        proof {
            assert(texts.take(contents.len() as int) =~= texts);
        }
        Ok(Cell { contents: styled, base_style: ContentStyle::default() })
    }

    /// A cell with a copy of the lines of `data_item` and the given base
    /// style.
    pub fn from_data_item(data_item: &DataItem, base_style: ContentStyle) -> (res: Cell)
        ensures
            res@ == (CellView { contents: data_item@, base_style }),
    {
        let mut contents: Vec<Content> = Vec::new();
        let mut ix: usize = 0;
        while ix < data_item.lines.len()
            invariant
                ix <= data_item.lines.len(),
                spec_content_views(contents@) == data_item@.take(ix as int),
            decreases data_item.lines.len() - ix,
        {
            let ghost before = spec_content_views(contents@);
            contents.push(data_item.lines[ix].duplicate());
            assert(spec_content_views(contents@) =~= before.push(data_item.lines@[ix as int]@));
            ix += 1;
            assert(spec_content_views(contents@) =~= data_item@.take(ix as int));
        }
        assert(data_item@.take(ix as int) =~= data_item@);
        Cell { contents, base_style }
    }

    /// The contents of the cell, top to bottom.
    pub fn contents(&self) -> (res: &Vec<Content>)
        ensures
            spec_content_views(res@) == self@.contents,
    {
        &self.contents
    }

    /// The style of the contents that have none of their own.
    pub fn base_style(&self) -> (res: ContentStyle)
        ensures
            res == self@.base_style,
    {
        self.base_style
    }

    /// The width policy that this cell asks for as a column header.
    pub fn get_cell_width(&self) -> (res: CellWidth)
        ensures
            res == self@.cell_width(),
    {
        if self.contents.len() == 0 {
            CellWidth::default()
        } else {
            match self.contents[0].own_style() {
                Some(style) => style.width,
                None => CellWidth::default(),
            }
        }
    }

    /// A walk over the lines of this cell under a width policy: the lines
    /// of its contents, each as wide as the cell, then blank lines up to
    /// the height of the cell.
    pub fn get_iterator(&self, column_break: &CellWidth) -> (res: TableCellContentIterator)
        requires
            self@.height(*column_break) <= usize::MAX,
        ensures
            spec_are_rendered(res.spec_remaining(), self@.lines(*column_break)),
    {
        let cell_width: usize = self.measure_width(column_break);
        let target_height: usize = self.measure_height(column_break);
        let ghost stacked = spec_stacked_lines(self@.contents, self@.base_style, cell_width as nat);
        let mut lines: Vec<String> = Vec::new();
        let mut line_ix: usize = 0;
        while line_ix < self.contents.len()
            invariant
                line_ix <= self.contents.len(),
                spec_are_rendered(
                    spec_texts(lines@),
                    spec_stacked_lines(
                        self@.contents.take(line_ix as int),
                        self@.base_style,
                        cell_width as nat,
                    ),
                ),
            decreases self.contents.len() - line_ix,
        {
            let mut part: Vec<String> = self.contents[line_ix].lines(&self.base_style, cell_width);
            proof {
                let longer = self@.contents.take(line_ix + 1);
                assert(longer.drop_last() =~= self@.contents.take(line_ix as int));
                assert(longer.last() == self.contents@[line_ix as int]@);
                assert(spec_texts(lines@ + part@) =~= spec_texts(lines@) + spec_texts(part@));
            }
            lines.append(&mut part);
            line_ix += 1;
        }
        proof {
            assert(self@.contents.take(line_ix as int) =~= self@.contents);
        }
        while lines.len() < target_height
            invariant
                lines.len() >= stacked.len(),
                lines.len() > stacked.len() ==> lines.len() <= target_height,
                spec_are_rendered(
                    spec_texts(lines@),
                    spec_filled(stacked, cell_width as nat, lines.len() as nat),
                ),
            decreases target_height - lines.len(),
        {
            let blank: String = repeat_char(' ', cell_width);
            let ghost before = spec_texts(lines@);
            proof {
                lemma_plain_is_rendering(blank@, None, None);
            }
            lines.push(blank);
            assert(spec_texts(lines@) =~= before.push(blank@));
        }
        let res = TableCellContentIterator { lines, next_line_ix: 0 };
        assert(res.spec_remaining() =~= spec_texts(lines@));
        res
    }

    /// The number of lines of this cell under a width policy.
    pub fn measure_height(&self, column_break: &CellWidth) -> (res: usize)
        requires
            self@.height(*column_break) <= usize::MAX,
        ensures
            res == self@.height(*column_break),
    {
        match self.checked_measure_height(column_break) {
            Some(height) => height,
            None => 0,
        }
    }

    /// The number of lines of this cell under a width policy, or `None`
    /// where that number is too large for a `usize`.
    pub fn checked_measure_height(&self, column_break: &CellWidth) -> (res: Option<usize>)
        ensures
            match res {
                Some(height) => height == self@.height(*column_break),
                None => self@.height(*column_break) > usize::MAX,
            },
    {
        let cell_width: usize = self.measure_width(column_break);
        let mut height: usize = 0;
        let mut ix: usize = 0;
        while ix < self.contents.len()
            invariant
                ix <= self.contents.len(),
                cell_width == self@.width(*column_break),
                height == spec_stacked_height(
                    self@.contents.take(ix as int),
                    self@.base_style,
                    cell_width as nat,
                ),
            decreases self.contents.len() - ix,
        {
            let line: &Content = &self.contents[ix];
            let line_width: usize = line.measure_width();
            let style: ContentStyle = line.effective_style(&self.base_style);
            proof {
                let longer = self@.contents.take(ix + 1);
                assert(longer.drop_last() =~= self@.contents.take(ix as int));
                assert(longer.last() == line@);
                lemma_stacked_height_grows(
                    self@.contents,
                    self@.base_style,
                    cell_width as nat,
                    (ix + 1) as nat,
                );
            }
            let wraps: bool = match style.wrap {
                Wrap::Wrap => true,
                Wrap::Truncate => false,
            };
            let reserved: Option<usize> = if !wraps || line_width <= cell_width || cell_width == 0 {
                Some(1)
            } else {
                (line_width / cell_width).checked_add(1)
            };
            let sum: Option<usize> = match reserved {
                Some(lines) => height.checked_add(lines),
                None => None,
            };
            match sum {
                Some(total) => {
                    height = total;
                },
                None => {
                    return None;
                },
            }
            ix += 1;
        }
        proof {
            assert(self@.contents.take(ix as int) =~= self@.contents);
        }
        Some(height)
    }

    /// The width of this cell under a width policy.
    pub fn measure_width(&self, column_break: &CellWidth) -> (res: usize)
        ensures
            res == self@.width(*column_break),
    {
        match column_break {
            CellWidth::Fixed(fixed) => *fixed,
            CellWidth::Minimum(minimum_width) => {
                let content_width: usize = self.measure_content_width();
                if *minimum_width > content_width {
                    *minimum_width
                } else {
                    content_width
                }
            },
            CellWidth::Content => self.measure_content_width(),
        }
    }

    /// The length of the longest text in this cell, whether or not it will
    /// be wrapped or truncated.
    pub fn measure_content_width(&self) -> (res: usize)
        ensures
            res == spec_widest(self@.contents),
    {
        let mut largest: usize = 0;
        let mut ix: usize = 0;
        while ix < self.contents.len()
            invariant
                ix <= self.contents.len(),
                largest == spec_widest(self@.contents.take(ix as int)),
            decreases self.contents.len() - ix,
        {
            let content_width: usize = self.contents[ix].measure_width();
            proof {
                let longer = self@.contents.take(ix + 1);
                assert(longer.drop_last() =~= self@.contents.take(ix as int));
                assert(longer.last() == self.contents@[ix as int]@);
            }
            if content_width > largest {
                largest = content_width;
            }
            ix += 1;
        }
        proof {
            assert(self@.contents.take(ix as int) =~= self@.contents);
        }
        largest
    }
}

/// No content of a cell is longer than the cell's widest content.
pub proof fn lemma_widest_bounds(contents: Seq<ContentView>, i: int)
    requires
        0 <= i < contents.len(),
    ensures
        contents[i].text.len() <= spec_widest(contents),
    decreases contents.len(),
{
    if i < contents.len() - 1 {
        lemma_widest_bounds(contents.drop_last(), i);
    }
}

/// The widest content of a cell that has content is as long as one of its
/// contents.
pub proof fn lemma_widest_reached(contents: Seq<ContentView>)
    requires
        contents.len() > 0,
    ensures
        exists|i: int|
            0 <= i < contents.len() && (#[trigger] contents[i]).text.len() == spec_widest(contents),
    decreases contents.len(),
{
    let last = contents.len() - 1;
    if contents[last].text.len() >= spec_widest(contents.drop_last()) {
        assert(contents[last].text.len() == spec_widest(contents));
    } else {
        lemma_widest_reached(contents.drop_last());
        let i = choose|i: int|
            0 <= i < contents.drop_last().len() && (#[trigger] contents.drop_last()[i]).text.len()
                == spec_widest(contents.drop_last());
        assert(contents[i] == contents.drop_last()[i]);
    }
}

/// A cell never has more lines of content than it sets aside: its lines are
/// exactly as many as its height, the lines of content first and blank
/// lines after them.
pub proof fn lemma_cell_lines_height(cell: CellView, policy: CellWidth)
    ensures
        cell.lines(policy).len() == cell.height(policy),
        spec_stacked_lines(cell.contents, cell.base_style, cell.width(policy)).len()
            <= cell.height(policy),
{
    lemma_stacked_lines_fit(cell.contents, cell.base_style, cell.width(policy));
}

/// Every line of a cell, of content or blank, is exactly as wide as the
/// cell.
pub proof fn lemma_cell_lines_width(cell: CellView, policy: CellWidth, i: int)
    requires
        0 <= i < cell.lines(policy).len(),
    ensures
        cell.lines(policy)[i].text.len() == cell.width(policy),
{
    let stacked = spec_stacked_lines(cell.contents, cell.base_style, cell.width(policy));
    if i < stacked.len() {
        lemma_stacked_lines_width(cell.contents, cell.base_style, cell.width(policy), i);
    }
}

/// A cell with a fixed width policy is as wide as the policy says, whatever
/// it holds.
pub proof fn lemma_fixed_width(cell: CellView, n: usize)
    ensures
        cell.width(CellWidth::Fixed(n)) == n,
{
}

/// Every line of a cell whose contents are single lines is a single line.
pub proof fn lemma_cell_lines_are_lines(cell: CellView, policy: CellWidth, i: int)
    requires
        cell.holds_lines(),
        0 <= i < cell.lines(policy).len(),
    ensures
        spec_is_line(cell.lines(policy)[i].text),
{
    let stacked = spec_stacked_lines(cell.contents, cell.base_style, cell.width(policy));
    if i < stacked.len() {
        lemma_stacked_lines_are_lines(cell.contents, cell.base_style, cell.width(policy), i);
    }
}

/// Stacked content of single lines gives single lines.
proof fn lemma_stacked_lines_are_lines(
    contents: Seq<ContentView>,
    base: ContentStyle,
    width: nat,
    i: int,
)
    requires
        forall|c: int| 0 <= c < contents.len() ==> spec_is_line((#[trigger] contents[c]).text),
        0 <= i < spec_stacked_lines(contents, base, width).len(),
    ensures
        spec_is_line(spec_stacked_lines(contents, base, width)[i].text),
    decreases contents.len(),
{
    if contents.len() > 0 {
        let before = contents.drop_last();
        let above = spec_stacked_lines(before, base, width);
        if i < above.len() {
            assert forall|c: int| 0 <= c < before.len() implies spec_is_line(
                (#[trigger] before[c]).text,
            ) by {
                assert(before[c] == contents[c]);
            }
            lemma_stacked_lines_are_lines(before, base, width, i);
        } else {
            let last = contents.last();
            assert(last == contents[contents.len() - 1]);
            lemma_lines_stay_lines(
                last.text,
                spec_effective_style(last.style, base),
                width,
                i - above.len(),
            );
        }
    }
}

/// No line of a cell without colours is to be given a colour.
pub proof fn lemma_plain_cell_lines(cell: CellView, policy: CellWidth)
    requires
        cell.is_plain(),
    ensures
        spec_all_unpainted(cell.lines(policy)),
{
    lemma_plain_stacked_lines(cell.contents, cell.base_style, cell.width(policy));
}

/// Stacked content whose styles have no colour gives lines without colour.
proof fn lemma_plain_stacked_lines(contents: Seq<ContentView>, base: ContentStyle, width: nat)
    requires
        forall|i: int|
            0 <= i < contents.len() ==> spec_effective_style(
                (#[trigger] contents[i]).style,
                base,
            ).foreground_color is None && spec_effective_style(
                contents[i].style,
                base,
            ).background_color is None,
    ensures
        spec_all_unpainted(spec_stacked_lines(contents, base, width)),
    decreases contents.len(),
{
    if contents.len() > 0 {
        let before = contents.drop_last();
        assert forall|i: int| 0 <= i < before.len() implies spec_effective_style(
            (#[trigger] before[i]).style,
            base,
        ).foreground_color is None && spec_effective_style(
            before[i].style,
            base,
        ).background_color is None by {
            assert(before[i] == contents[i]);
        }
        lemma_plain_stacked_lines(before, base, width);
        assert(contents.last() == contents[contents.len() - 1]);
    }
}

/// Content takes no more lines than are set aside for it.
proof fn lemma_stacked_lines_fit(contents: Seq<ContentView>, base: ContentStyle, width: nat)
    ensures
        spec_stacked_lines(contents, base, width).len() <= spec_stacked_height(
            contents,
            base,
            width,
        ),
    decreases contents.len(),
{
    if contents.len() > 0 {
        lemma_stacked_lines_fit(contents.drop_last(), base, width);
        let last = contents.last();
        let len = last.text.len();
        let style = spec_effective_style(last.style, base);
        if style.wrap == Wrap::Wrap && width > 0 && len <= width {
            assert(spec_line_count(len, Wrap::Wrap, width) <= 1) by (nonlinear_arith)
                requires
                    width > 0,
                    len <= width,
                    spec_line_count(len, Wrap::Wrap, width) == (if len % width == 0 {
                        len / width
                    } else {
                        len / width + 1
                    }),
            ;
        }
    }
}

/// Every line of stacked content is as wide as the width it was laid out at.
proof fn lemma_stacked_lines_width(
    contents: Seq<ContentView>,
    base: ContentStyle,
    width: nat,
    i: int,
)
    requires
        0 <= i < spec_stacked_lines(contents, base, width).len(),
    ensures
        spec_stacked_lines(contents, base, width)[i].text.len() == width,
    decreases contents.len(),
{
    if contents.len() > 0 {
        let before = spec_stacked_lines(contents.drop_last(), base, width);
        if i < before.len() {
            lemma_stacked_lines_width(contents.drop_last(), base, width, i);
        } else {
            let last = contents.last();
            lemma_plain_lines_width(
                last.text,
                spec_effective_style(last.style, base),
                width,
                i - before.len(),
            );
        }
    }
}

/// The lines set aside for the first `n` contents are no more than those set
/// aside for all.
proof fn lemma_stacked_height_grows(
    contents: Seq<ContentView>,
    base: ContentStyle,
    width: nat,
    n: nat,
)
    requires
        n <= contents.len(),
    ensures
        spec_stacked_height(contents.take(n as int), base, width) <= spec_stacked_height(
            contents,
            base,
            width,
        ),
    decreases contents.len() - n,
{
    if n == contents.len() {
        assert(contents.take(n as int) =~= contents);
    } else {
        lemma_stacked_height_grows(contents, base, width, n + 1);
        let longer = contents.take(n + 1 as int);
        assert(longer.drop_last() =~= contents.take(n as int));
    }
}

/// An error among the first `n` texts is the error of the whole list.
proof fn lemma_styled_contents_error(styles: Seq<Seq<char>>, texts: Seq<Seq<char>>, n: int)
    requires
        0 <= n <= texts.len(),
        spec_styled_contents(styles, texts.take(n)) is Err,
    ensures
        spec_styled_contents(styles, texts) == spec_styled_contents(styles, texts.take(n)),
    decreases texts.len() - n,
{
    if n == texts.len() {
        assert(texts.take(n) =~= texts);
    } else {
        let longer = texts.take(n + 1);
        assert(longer.drop_last() =~= texts.take(n));
        lemma_styled_contents_error(styles, texts, n + 1);
    }
}

} // verus!
