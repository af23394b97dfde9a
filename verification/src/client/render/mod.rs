//! Drawing into the window.

pub mod context;
