//! The terminal engine: screen grid, scrollback, cell attributes, cursor and
//! input modes, driven by a terminal byte stream.

pub mod ascii_laws;
pub mod attrs;
pub mod callbacks;
pub mod cell;
pub mod clean_laws;
pub mod codes;
pub mod differences;
pub mod edit_laws;
pub mod event;
pub mod grid;
pub mod grid_model;
pub mod input_laws;
pub mod laws;
pub mod line_laws;
pub mod mode_laws;
pub mod parser;
pub mod perform;
pub mod redraw;
pub mod reflow;
pub mod reflow_laws;
pub mod row;
pub mod screen;
pub mod screen_laws;
pub mod screen_model;
pub mod term;
pub mod text_laws;
pub mod unicode;
pub mod view_laws;
pub mod wide;

pub use attrs::{Blink, Color};
pub use callbacks::Callbacks;
pub use cell::Cell;
pub use parser::Parser;
pub use row::Row;
pub use screen::{MouseProtocolEncoding, MouseProtocolMode, Screen};
