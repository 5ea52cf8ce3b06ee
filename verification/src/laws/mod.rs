//! What holds across the library, stated over what its functions take and
//! return: the relations that make the vocabulary and the routes what they are
//! meant to be.

pub mod click;
pub mod clients;
pub mod commands;
pub mod editor;
pub mod focus;
pub mod host;
pub mod link;
pub mod listing;
pub mod messages;
pub mod navigation;
pub mod readings;
pub mod relay;
pub mod route;
pub mod session;
pub mod ssh;
pub mod state;
pub mod target;
pub mod text;
pub mod windows;
