//! A walk over the finished lines of one piece of content.

use vstd::prelude::*;
use crate::text::spec_texts;

verus! {

/// Hands out the lines of a piece of content, first to last.
pub struct ContentIterator {
    parts: Vec<String>,
    next_part_ix: usize,
}

impl ContentIterator {
    #[verifier::type_invariant]
    spec fn well_formed(&self) -> bool {
        self.next_part_ix <= self.parts.len()
    }

    /// The lines that are still to come, the next one first.
    pub closed spec fn spec_remaining(&self) -> Seq<Seq<char>> {
        Seq::new(
            (self.parts.len() - self.next_part_ix) as nat,
            |i: int| self.parts[self.next_part_ix + i]@,
        )
    }

    /// A walk over `parts` that starts at the first of them.
    pub fn new(parts: Vec<String>) -> (res: ContentIterator)
        ensures
            res.spec_remaining() == spec_texts(parts@),
    {
        let res = ContentIterator { parts, next_part_ix: 0 };
        assert(res.spec_remaining() =~= spec_texts(parts@));
        res
    }

    /// The next line, or `None` once every line has been handed out.
    pub fn next(&mut self) -> (res: Option<String>)
        ensures
            match res {
                Some(line) => old(self).spec_remaining().len() > 0 && line@ == old(
                    self,
                ).spec_remaining()[0] && final(self).spec_remaining() == old(
                    self,
                ).spec_remaining().skip(1),
                None => old(self).spec_remaining().len() == 0 && final(self).spec_remaining()
                    == old(self).spec_remaining(),
            },
    {
        proof {
            use_type_invariant(&*self);
        }
        if self.next_part_ix < self.parts.len() {
            let line_part: String = self.parts[self.next_part_ix].clone();
            self.next_part_ix += 1;
            assert(self.spec_remaining() =~= old(self).spec_remaining().skip(1));
            Some(line_part)
        } else {
            None
        }
    }
}

} // verus!
