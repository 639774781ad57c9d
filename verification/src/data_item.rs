//! One item of table data: the lines of content that fill one cell.

use vstd::prelude::*;
use crate::content::{spec_content_views, Content, ContentView};

verus! {

/// The content of one cell, as a data source hands it over.
pub struct DataItem {
    pub lines: Vec<Content>,
}

impl View for DataItem {
    type V = Seq<ContentView>;

    open spec fn view(&self) -> Seq<ContentView> {
        spec_content_views(self.lines@)
    }
}

impl DataItem {
    /// An item that holds the given lines, top to bottom.
    pub fn from(lines: Vec<Content>) -> (res: DataItem)
        ensures
            res@ == spec_content_views(lines@),
    {
        DataItem { lines }
    }

    /// An item of one unstyled line with the text of `s`.
    pub fn from_str(s: &str) -> (res: DataItem)
        ensures
            res@ == seq![ContentView { text: s@, style: None }],
    {
        let mut lines: Vec<Content> = Vec::new();
        lines.push(Content::from_str(s));
        assert(spec_content_views(lines@) =~= seq![ContentView { text: s@, style: None }]);
        DataItem { lines }
    }
}

} // verus!
