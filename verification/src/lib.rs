//! Parsing and formatting of `host:port` network addresses.
//!
//! `strutil` holds the text functions: the clean split of a text on a delimiter and
//! decimal numbers. `netutil` holds the address parser and the address type.
//! `lemmas` and `laws` hold what is proved of them.

pub mod laws;
pub mod lemmas;
pub mod netutil;
pub mod strutil;

pub use netutil::{format_host_port, to_host_port, AddrError, HostAddr, SockAddr};
