//! A small web toolkit, verified with Verus: an HTTP message codec, a
//! routing table, and a Jinja-style template renderer with a file cache.
//!
//! The library itself performs no I/O.  Sockets and template files are read
//! by the surrounding program, which feeds plain strings and bytes to the
//! verified code and carries out the actions it decides on.

pub mod flask;
pub mod http;
pub mod jinja;
pub mod laws;
pub mod misc;
pub mod strmap;
pub mod text;
