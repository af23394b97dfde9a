//! What the client and its tasks share.

pub mod primitive;
pub mod runtime;
