//! The terminal on the pixel surface: its command table, its state and
//! the frames it draws.

pub mod commands;
pub mod laws;
pub mod model;
pub mod terminal;
pub mod window;
