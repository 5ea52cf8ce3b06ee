//! The decisions behind the subcommands: argument parsing and the plans that
//! their side effects follow.

pub mod eza;
pub mod navigate;
pub mod nvim;
pub mod relay;
pub mod tmux;
pub mod vscode;
