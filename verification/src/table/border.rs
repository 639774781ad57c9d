//! The glyphs a table is framed and ruled with.

use vstd::prelude::*;
use crate::color::Color;
use crate::text::{
    lemma_joined_ends, lemma_joined_is_line, lemma_joined_len, lemma_joined_step, push_char,
    push_repeated, spec_is_line, spec_joined, spec_joined_so_far, spec_repeat, spec_total_len,
};

verus! {

/// The glyphs of a table's frame and rules, and a colour.
///
/// A border is plain configuration: rendering reads the glyphs and writes
/// them as they are.
#[derive(Debug)]
pub struct Border {
    pub top_left: char,
    pub top: char,
    pub top_right: char,
    pub top_split: char,
    pub bottom_left: char,
    pub bottom: char,
    pub bottom_right: char,
    pub bottom_split: char,
    pub left: char,
    pub left_split: char,
    pub right: char,
    pub right_split: char,
    pub vertical_split: char,
    pub vertical_split_intersect_left: char,
    pub vertical_split_intersect_right: char,
    pub vertical_split_intersect_both: char,
    pub horizontal_split: char,
    pub horizontal_split_intersect_top: char,
    pub horizontal_split_intersect_bottom: char,
    pub horizontal_split_intersect_both: char,
    pub color: Color,
}

/// For each column a run of `fill` as long as the column is wide.
pub open spec fn spec_runs(fill: char, widths: Seq<nat>) -> Seq<Seq<char>> {
    Seq::new(widths.len(), |i: int| spec_repeat(fill, widths[i]))
}

/// The widths in a slice of machine integers, as numbers.
pub open spec fn spec_widths(widths: Seq<usize>) -> Seq<nat> {
    Seq::new(widths.len(), |i: int| widths[i] as nat)
}

/// A horizontal rule over columns of the given widths: `left`, a run of
/// `fill` for each column with `split` between each two, and `right`.
pub open spec fn spec_rule(
    left: char,
    fill: char,
    split: char,
    right: char,
    widths: Seq<nat>,
) -> Seq<char> {
    seq![left] + spec_joined(spec_runs(fill, widths), split) + seq![right]
}

/// The sum of the widths.
pub open spec fn spec_sum(widths: Seq<nat>) -> nat
    decreases widths.len(),
{
    if widths.len() == 0 {
        0
    } else {
        spec_sum(widths.drop_last()) + widths.last()
    }
}

impl Border {
    /// The ASCII border: `+` at corners and crossings, `-` and `|` along
    /// the edges, coloured cyan.
    pub open spec fn spec_default() -> Border {
        Border {
            top_left: '+',
            top: '-',
            top_right: '+',
            top_split: '+',
            bottom_left: '+',
            bottom: '-',
            bottom_right: '+',
            bottom_split: '+',
            left: '|',
            left_split: '+',
            right: '|',
            right_split: '+',
            vertical_split: '|',
            vertical_split_intersect_left: '+',
            vertical_split_intersect_right: '+',
            vertical_split_intersect_both: '+',
            horizontal_split: '-',
            horizontal_split_intersect_top: '+',
            horizontal_split_intersect_bottom: '+',
            horizontal_split_intersect_both: '+',
            color: Color::Cyan,
        }
    }

    /// Whether none of the glyphs that are printed is a line feed.
    pub open spec fn spec_draws_no_line_feed(self) -> bool {
        &&& self.top_left != '\n' && self.top != '\n' && self.top_right != '\n' && self.top_split
            != '\n'
        &&& self.bottom_left != '\n' && self.bottom != '\n' && self.bottom_right != '\n'
            && self.bottom_split != '\n'
        &&& self.left != '\n' && self.right != '\n' && self.vertical_split != '\n'
        &&& self.left_split != '\n' && self.right_split != '\n' && self.horizontal_split != '\n'
            && self.horizontal_split_intersect_both != '\n'
    }

    /// The rule above the header row.
    pub open spec fn spec_top(self, widths: Seq<nat>) -> Seq<char> {
        spec_rule(self.top_left, self.top, self.top_split, self.top_right, widths)
    }

    /// The rule below the last row.
    pub open spec fn spec_bottom(self, widths: Seq<nat>) -> Seq<char> {
        spec_rule(self.bottom_left, self.bottom, self.bottom_split, self.bottom_right, widths)
    }

    /// The rule between two rows.
    pub open spec fn spec_horizontal_split(self, widths: Seq<nat>) -> Seq<char> {
        spec_rule(
            self.left_split,
            self.horizontal_split,
            self.horizontal_split_intersect_both,
            self.right_split,
            widths,
        )
    }

    /// The ASCII border.
    pub fn default() -> (res: Border)
        ensures
            res == Self::spec_default(),
    {
        Border {
            top_left: '+',
            top: '-',
            top_right: '+',
            top_split: '+',
            bottom_left: '+',
            bottom: '-',
            bottom_right: '+',
            bottom_split: '+',
            left: '|',
            left_split: '+',
            right: '|',
            right_split: '+',
            vertical_split: '|',
            vertical_split_intersect_left: '+',
            vertical_split_intersect_right: '+',
            vertical_split_intersect_both: '+',
            horizontal_split: '-',
            horizontal_split_intersect_top: '+',
            horizontal_split_intersect_bottom: '+',
            horizontal_split_intersect_both: '+',
            color: Color::Cyan,
        }
    }

    /// The rule above the header row, for columns of the given widths.
    pub fn format_top(&self, widths: &[usize]) -> (res: String)
        ensures
            res@ == self.spec_top(spec_widths(widths@)),
    {
        format_rule(self.top_left, self.top, self.top_split, self.top_right, widths)
    }

    /// The rule below the last row, for columns of the given widths.
    pub fn format_bottom(&self, widths: &[usize]) -> (res: String)
        ensures
            res@ == self.spec_bottom(spec_widths(widths@)),
    {
        format_rule(self.bottom_left, self.bottom, self.bottom_split, self.bottom_right, widths)
    }

    /// The glyph at the left end of a line of cells.
    pub fn format_left(&self) -> (res: String)
        ensures
            res@ == seq![self.left],
    {
        single(self.left)
    }

    /// The glyph at the right end of a line of cells.
    pub fn format_right(&self) -> (res: String)
        ensures
            res@ == seq![self.right],
    {
        single(self.right)
    }

    /// The rule between two rows, for columns of the given widths.
    pub fn format_horizontal_split(&self, widths: &[usize]) -> (res: String)
        ensures
            res@ == self.spec_horizontal_split(spec_widths(widths@)),
    {
        format_rule(
            self.left_split,
            self.horizontal_split,
            self.horizontal_split_intersect_both,
            self.right_split,
            widths,
        )
    }

    /// The glyph between two cells of a line.
    pub fn format_vertical_split(&self) -> (res: String)
        ensures
            res@ == seq![self.vertical_split],
    {
        single(self.vertical_split)
    }
}

/// A string of the one character `c`.
fn single(c: char) -> (res: String)
    ensures
        res@ == seq![c],
{
    let mut result: String = String::new();
    push_char(&mut result, c);
    assert(result@ =~= seq![c]);
    result
}

/// Writes a horizontal rule.
fn format_rule(left: char, fill: char, split: char, right: char, widths: &[usize]) -> (res: String)
    ensures
        res@ == spec_rule(left, fill, split, right, spec_widths(widths@)),
{
    let ghost runs = spec_runs(fill, spec_widths(widths@));
    let mut result: String = single(left);
    let mut ix: usize = 0;
    proof {
        lemma_joined_ends(runs, split);
    }
    while ix < widths.len()
        invariant
            ix <= widths.len(),
            runs == spec_runs(fill, spec_widths(widths@)),
            result@ == seq![left] + spec_joined_so_far(runs, split, ix as int),
        decreases widths.len() - ix,
    {
        proof {
            lemma_joined_step(runs, split, ix as int);
        }
        let ghost before = result@;
        push_repeated(&mut result, fill, widths[ix]);
        if ix < widths.len() - 1 {
            push_char(&mut result, split);
            assert(result@ =~= seq![left] + (spec_joined_so_far(runs, split, ix as int)
                + runs[ix as int]).push(split));
        } else {
            assert(result@ =~= seq![left] + (spec_joined_so_far(runs, split, ix as int)
                + runs[ix as int]));
        }
        ix += 1;
    }
    push_char(&mut result, right);
    assert(result@ =~= spec_rule(left, fill, split, right, spec_widths(widths@)));
    result
}

/// A rule drawn with glyphs that are no line feeds is a single line.
pub proof fn lemma_rule_is_line(left: char, fill: char, split: char, right: char, widths: Seq<nat>)
    requires
        left != '\n',
        fill != '\n',
        split != '\n',
        right != '\n',
    ensures
        spec_is_line(spec_rule(left, fill, split, right, widths)),
{
    let runs = spec_runs(fill, widths);
    assert forall|p: int| 0 <= p < runs.len() implies spec_is_line(#[trigger] runs[p]) by {}
    lemma_joined_is_line(runs, split);
}

/// A rule is as long as its columns are wide together, plus one glyph
/// between each two columns and the two glyphs at its ends.
pub proof fn lemma_rule_len(left: char, fill: char, split: char, right: char, widths: Seq<nat>)
    ensures
        spec_rule(left, fill, split, right, widths).len() == spec_sum(widths) + 2 + if widths.len()
            > 0 {
            widths.len() - 1
        } else {
            0
        },
{
    lemma_joined_len(spec_runs(fill, widths), split);
    lemma_runs_len(fill, widths);
}

/// The runs of a rule are together as long as the columns are wide.
proof fn lemma_runs_len(fill: char, widths: Seq<nat>)
    ensures
        spec_total_len(spec_runs(fill, widths)) == spec_sum(widths),
    decreases widths.len(),
{
    if widths.len() > 0 {
        lemma_runs_len(fill, widths.drop_last());
        assert(spec_runs(fill, widths).drop_last() =~= spec_runs(fill, widths.drop_last()));
    }
}

} // verus!
