//! A line-oriented command processor for a serial link.
//!
//! A request line names a command; the command's text result is split into
//! framing records and handed back as an Intel HEX object file.  The crate
//! holds the rules of that exchange and performs no I/O of its own: callers
//! read lines and the clock, run programs, fetch and read feeds, and write
//! to the device.

pub mod commands;
pub mod config;
pub mod feed;
pub mod frame;
pub mod parser;
pub mod session;
pub mod text;
pub mod wire;
