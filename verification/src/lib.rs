//! A line-oriented JSON-RPC 2.0 server core.
//!
//! The library is the protocol engine: a JSON value type with a verified
//! serializer and parser, envelope decoding, method dispatch, the tool
//! registry, and the tool invoker's planning and result building. All I/O
//! (standard input and output, HTTP fetches, external processes) lives
//! outside the library and reaches it only through plain values.

pub mod envelope;
pub mod invoke;
pub mod json;
pub mod laws;
pub mod parse;
pub mod registry;
pub mod server;
pub mod ser;
pub mod text;

pub use json::Json;
pub use json::JsonView;
