//! Resolution and transport engine of a small web client: URL parsing,
//! HTTP/1.1 response framing, chunked and gzip decoding, a response cache
//! and a bounded redirect state machine.
use vstd::prelude::*;

pub mod bytes;
pub mod cache;
pub mod decode;
pub mod error;
pub mod fetch;
pub mod http;
pub mod render;
pub mod url;

verus! {

} // verus!
