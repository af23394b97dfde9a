//! The windowed client.

pub mod application;
pub mod render;
