//! A client core for a network REPL service speaking bencoded messages over a
//! byte stream: message framing, request construction, response aggregation
//! and session bookkeeping. Socket handling lives with the caller.

pub mod codec;
pub mod error;
pub mod eval;
pub mod framing;
pub mod message;
pub mod reader;
pub mod session;
pub mod words;
