//! A small HTTP/1.1 server framework: request parsing, pattern-based routing
//! and response serialisation. The library is verified with Verus; its
//! calls into code that Verus does not read stand in `pattern` (the word
//! class of `regex`) and in `server` (the two decoders).

pub mod laws;
pub mod params;
pub mod parser;
pub mod pattern;
pub mod request;
pub mod response;
pub mod router;
pub mod search;
pub mod server;
pub mod text;
