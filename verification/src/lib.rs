//! A line-oriented text filter that compares two whitespace-delimited
//! columns of each input line and rewrites the target column so that the
//! suffix differing from the source column is marked for highlighted
//! rendering.

mod args;
mod driver;
mod prefix;
mod render;
mod select;
mod spans;

pub use args::parse_cols;
pub use args::parse_usize;
pub use driver::process_line;
pub use prefix::common_prefix;
pub use render::diff_color;
pub use select::LineParts;
pub use select::get_line_parts;
pub use spans::Span;
pub use spans::get_line_cols;
