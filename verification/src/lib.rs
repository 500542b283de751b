//! Core of a small IRC server: the entity model, the command parser, the
//! action dispatcher and the event loop that serialises every state change.
//!
//! The library never touches a socket. The event loop takes one event at a
//! time and answers with the list of lines to write and connections to close;
//! the program around it performs them.

pub mod casemap;
pub mod config;
pub mod laws;
pub mod models;
pub mod numerics;
pub mod server;
pub mod text;
pub mod wire;
pub mod worker;
