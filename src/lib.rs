//! Pixel sorting: each row and column of an image is cut into spans by a
//! threshold test on single pixels, and the pixels inside each span are sorted.

pub mod buffer;
pub mod color;
pub mod finder;
pub mod laws;
pub mod line_sorter;
pub mod options;
pub mod sort;
pub mod sorter;

pub use buffer::Image;
pub use color::PColor;
pub use finder::{find_span_end, find_span_start, get_first_x, get_first_y, get_next_x, get_next_y};
pub use line_sorter::sort_line;
pub use options::{Direction, Mode, Options, DEFAULT_BRIGHTNESS};
pub use sort::{sort, sort_column, sort_row, sort_with_options};
