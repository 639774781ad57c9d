//! The mark of a source of table data.

use vstd::prelude::*;

verus! {

/// A source that table data can be drawn from.
pub trait DataSource {
}

} // verus!
