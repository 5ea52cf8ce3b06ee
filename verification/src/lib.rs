//! Terminal navigation core: the routing policy, parsers and decision rules
//! behind the `termnav` command, each stated and proved as a contract.

pub mod assets;
pub mod bytes;
pub mod cli;
pub mod click;
pub mod commands;
pub mod digest;
pub mod focus;
pub mod http;
pub mod json;
pub mod laws;
pub mod links;
pub mod navigation;
pub mod nvim;
pub mod paths;
pub mod patterns;
pub mod process;
pub mod relay;
pub mod runtime;
pub mod shell;
pub mod ssh;
pub mod terminal;
pub mod text;
pub mod version;
pub mod vscode;
