//! The rules of a server that runs interactive commands in pseudo-terminals and offers them to a
//! client as tools.
//!
//! What touches the outside world (terminals, threads, clocks that are waited for, the protocol)
//! is left to the program around this library.

pub mod ansi;
pub mod ansi_laws;
pub mod buffer;
pub mod command;
pub mod ident;
pub mod params;
pub mod service;
pub mod service_laws;
pub mod sessions;
pub mod spawn;
pub mod stream;
pub mod text;
