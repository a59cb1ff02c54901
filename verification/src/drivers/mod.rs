//! The two input sources as the console sees them: a queue of decoded
//! characters and the state of the pointer.

pub mod keyboard;
pub mod mouse;
