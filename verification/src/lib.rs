//! A minimal HTTP/1.1 server core: incremental request framing, head
//! decoding, exact-length body assembly, a routing table, and response
//! serialization. The transport (sockets) stays outside; the core works
//! over a byte source/sink abstraction.

pub mod assemble;
pub mod head;
pub mod headers;
pub mod laws;
pub mod length;
pub mod mem;
pub mod method;
pub mod request;
pub mod response;
pub mod router;
pub mod scan;
pub mod server;
pub mod text;
pub mod wire;

use vstd::prelude::*;

// the ghost sequence type appears in the specification methods of the
// `Transport` trait; re-exported so an outside implementor can name it
pub use vstd::prelude::Seq;

verus! {

/// A connection could not be framed into a request: the head is not
/// well formed, the `Content-Length` value is not a plain non-negative
/// integer that fits the machine, the stream ended too early, or the
/// body is not valid UTF-8 text.
#[derive(Clone, Copy, Debug, PartialEq, Eq, Structural)]
pub enum FramingError {
    MalformedHead,
    BadContentLength,
    UnexpectedEof,
    BodyNotText,
}

} // verus!
