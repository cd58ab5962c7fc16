//! Stock quote streaming: the command protocol, the quote record format, and
//! the bookkeeping of quotes, clients and connections.

pub mod cli;
pub mod client;
pub mod config;
pub mod decimal;
pub mod defs;
pub mod errors;
pub mod float_text;
pub mod generator;
pub mod protocol;
pub mod quote_book;
pub mod quote_wire;
pub mod registry;
pub mod server_control;
pub mod text;
