//! The ways a fetch can fail.
use vstd::prelude::*;

verus! {

/// Why a URL could not be fetched.
#[derive(Debug, Clone, Copy, PartialEq, Eq, Structural)]
pub enum FetchError {
    /// The URL could not be parsed, or names an unsupported scheme.
    MalformedUrl,
    /// Name resolution, connecting, the TLS handshake or a read failed.
    TransportError,
    /// The server's response breaks HTTP/1.1 framing.
    ProtocolError,
    /// The body could not be decompressed, or is not UTF-8 text.
    EncodingError,
    /// The redirect chain is longer than the limit.
    TooManyRedirects,
}

} // verus!
