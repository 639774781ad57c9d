//! `TableRow`, another name for [`Row`](crate::table::row::Row).

pub use crate::table::row::{CellIterator, Row as TableRow};
