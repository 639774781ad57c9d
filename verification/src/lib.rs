//! Fixed-width, bordered text tables for terminal display.
//!
//! Content is styled text; cells stack content; rows place cells side by
//! side; a table draws a header row and body rows inside a border. All
//! widths count characters.

pub mod color;
pub mod content;
pub mod content_iterator;
pub mod content_style;
pub mod data_item;
pub mod data_source;
pub mod paint;
pub mod table;
pub mod text;
pub mod vec_data_source;

pub use content_style::ContentStyle;
