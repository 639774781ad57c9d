//! A data source over a vector of values that can be displayed.

use vstd::prelude::*;
use vstd::string::*;
use crate::content::{Content, ContentView};
use crate::content_style::ContentStyle;
use crate::data_item::DataItem;

verus! {

/// Hands out the values of a vector as data items, first to last.
pub struct VecDataSource<T> {
    current_ix: usize,
    data: Vec<T>,
}

impl<T> VecDataSource<T> {
    #[verifier::type_invariant]
    spec fn well_formed(&self) -> bool {
        self.current_ix <= self.data.len()
    }

    /// The values that are still to come, the next one first.
    pub closed spec fn spec_remaining(&self) -> Seq<T> {
        self.data@.skip(self.current_ix as int)
    }
}

impl<T: std::fmt::Display> VecDataSource<T> {

    /// A source that hands out `data` from its first value on.
    pub fn from(data: Vec<T>) -> (res: VecDataSource<T>)
        ensures
            res.spec_remaining() == data@,
    {
        let res = VecDataSource { current_ix: 0, data };
        assert(res.spec_remaining() =~= data@);
        res
    }

    /// The next value as a data item of one line in the default style,
    /// whose text is the value as it displays; `None` once every value has
    /// been handed out.
    pub fn next(&mut self) -> (res: Option<DataItem>)
        ensures
            match res {
                Some(item) => old(self).spec_remaining().len() > 0 && final(self).spec_remaining()
                    == old(self).spec_remaining().skip(1) && item@.len() == 1 && item@[0].style
                    == Some(ContentStyle::spec_default()) && exists|shown: String|
                    #[trigger] to_string_from_display_ensures::<T>(
                        &old(self).spec_remaining()[0],
                        shown,
                    ) && shown@ == item@[0].text,
                None => old(self).spec_remaining().len() == 0 && final(self).spec_remaining()
                    == old(self).spec_remaining(),
            },
    {
        proof {
            use_type_invariant(&*self);
        }
        if self.current_ix < self.data.len() {
            let shown: String = self.data[self.current_ix].to_string();
            let ghost text = shown@;
            assert(to_string_from_display_ensures::<T>(&old(self).spec_remaining()[0], shown));
            let content: Content = Content::new(shown, Some(ContentStyle::default()));
            let mut lines: Vec<Content> = Vec::new();
            lines.push(content);
            let item: DataItem = DataItem::from(lines);
            self.current_ix += 1;
            assert(self.spec_remaining() =~= old(self).spec_remaining().skip(1));
            assert(item@[0] == (ContentView {
                text,
                style: Some(ContentStyle::spec_default()),
            }));
            Some(item)
        } else {
            None
        }
    }
}

} // verus!
