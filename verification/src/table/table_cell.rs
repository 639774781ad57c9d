//! `TableCell`, another name for [`Cell`](crate::table::cell::Cell).

pub use crate::table::cell::{Cell as TableCell, TableCellContentIterator};
