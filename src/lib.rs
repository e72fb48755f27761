//! A library for parsing netrc files and finding the credentials that apply
//! to a host, following the permissive rules of common command-line clients.
pub mod config;
pub mod host;
pub mod laws;
pub mod netrc_parser;
pub mod raw_netrc_parser;
pub mod token;

pub use crate::host::Host;
pub use crate::netrc_parser::{NetrcParser, ValidatedEntry};
pub use crate::raw_netrc_parser::{RawEntry, RawNetrcParser};
