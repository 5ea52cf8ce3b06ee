//! Routing of editor targets to running Neovim sessions.

pub mod foreground;
pub mod open;
pub mod registry;
pub mod remote;
pub mod target;
pub mod tool_path;
pub mod transport;
