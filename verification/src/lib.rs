//! An interactive text console over an in-memory file tree: scrollback,
//! selection, command dispatch, and the small device models around them.

pub mod text;
pub mod filesystem;
pub mod filesystem_laws;
pub mod scrollback;
pub mod selection;
pub mod surface;
pub mod ui;
pub mod drivers;
pub mod terminal;
pub mod console;
pub mod window;
pub mod gui;
pub mod kernel;
