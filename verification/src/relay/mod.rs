//! The relay that carries gestures and focus across an SSH session.

pub mod client;
pub mod protocol;
pub mod server;
pub mod store;
