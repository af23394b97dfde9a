//! The runtime core and the client state machine of Cubic.

pub mod channel;
pub mod client;
pub mod common;
pub mod runtime;
pub mod table;
pub mod task_result;
pub mod token;
