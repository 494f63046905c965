//! Core of a line-oriented HTTP(S) request runner: a script parser that turns
//! "hop script" text into a connection descriptor and an ordered list of
//! request descriptors, a wire-protocol engine that serializes requests to
//! HTTP/1.1 bytes and decodes responses, an assertion engine that compares
//! response facts against expected values, and a batch orchestrator that
//! sequences the requests and tallies results.

pub mod bytes;
pub mod decimal;
pub mod errors;
pub mod hop_lang;
pub mod http;
pub mod lexer;
pub mod markers;
pub mod network;
pub mod test_bed;
pub mod tokens;
