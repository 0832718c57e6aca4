//! A console progress bar: a small state object that counts completed units
//! of work and renders a fixed-width textual bar with a percentage.

pub use colored::Color as Colors;

pub mod bar;
pub mod render;

pub use bar::{BarState, DisplayMode, RichProgressBar};
pub use render::{
    bar_string, compose_inline, compose_new_line, decimal_string, filled_length, NEW_LINE_WIDTH,
};
