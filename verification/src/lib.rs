//! Verified core of the ratty terminal emulator.
//!
//! [`ratty_vt`] is the terminal engine: cells, rows, grids, the screen and the parser
//! that drives it. The other modules hold what a terminal does around the engine: its
//! replies, its keyboard and mouse, graphics, the camera, the control protocol, and the
//! formats it reads and writes.

pub mod camera;
pub mod camera_laws;
pub mod capture;
pub mod cli;
pub mod command_laws;
pub mod commands;
pub mod config;
pub mod control;
pub mod cursor_effects;
pub mod decimal;
pub mod direct_render;
pub mod inline;
pub mod key_laws;
pub mod keyboard;
pub mod kitty;
pub mod model;
pub mod mouse;
pub mod mouse_laws;
pub mod number;
pub mod observation;
pub mod paths;
pub mod performance;
pub mod picture_laws;
pub mod record_laws;
pub mod ratty_vt;
pub mod rendering;
pub mod rgp;
pub mod rgp_laws;
pub mod runtime;
pub mod runtime_laws;
pub mod scene;
pub mod setup_laws;
pub mod snapshot;
pub mod snapshot_laws;
pub mod table;
pub mod text;
pub mod text_laws;
