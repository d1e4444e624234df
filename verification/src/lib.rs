//! Server-side HTTP/1.x connection processing: the per-connection request
//! parser and body-delivery state machine.
//!
//! The machine is driven by transport events (bytes arrived, bytes flushed,
//! exception, deadline, wakeup) delivered to a [`parser::Parser`].  Each event
//! returns the next state together with the next transport expectation and a
//! deadline, or `None` to close the connection.  Input and output byte queues
//! are `netbuf::Buf` values owned by the surrounding event loop.

use vstd::prelude::*;

pub mod buf;
pub mod head;
pub mod parser;
pub mod properties;
pub mod protocol;
pub mod response;


verus! {

/// A header block must end with its CRLF-CRLF delimiter within this many bytes.
pub const MAX_HEADERS_SIZE: usize = 32768;

/// A chunk-size line must end with its CRLF delimiter within this many bytes.
pub const MAX_CHUNK_HEAD: usize = 128;

} // verus!
