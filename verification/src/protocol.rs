//! The contracts the parser is driven by: the transport expectation
//! vocabulary, connection configuration, the handler's delivery-mode choice,
//! and the handler trait itself.

use crate::buf::buf_bytes;
use crate::head::Head;
use crate::response::Response;
use vstd::prelude::*;

verus! {

/// Per-connection configuration, supplied by the surrounding server.
#[derive(Clone, Copy, PartialEq, Eq, Structural, Debug)]
pub struct Config {
    /// Idle/byte-level timeout in deadline ticks.
    pub byte_timeout: u64,
    /// Ceiling on any buffered-delivery capacity: the transport's maximum
    /// buffer size.
    pub max_buf_size: usize,
}

impl Config {
    /// Sanity bounds that keep all expectation arithmetic inside `usize`.
    pub open spec fn wf(&self) -> bool {
        1 <= self.max_buf_size && 2 * self.max_buf_size + crate::MAX_CHUNK_HEAD + 16
            <= usize::MAX
    }
}

/// How the handler wants the request body presented: one buffered call of at
/// most `cap` bytes, or a stream of roughly `hint`-sized pieces.
#[derive(Clone, Copy, PartialEq, Eq, Structural, Debug)]
pub enum RecvMode {
    Buffered(usize),
    Progressive(usize),
}

/// The delimiters the transport can be asked to find.
#[derive(Clone, Copy, PartialEq, Eq, Structural, Debug)]
pub enum Needle {
    Crlf,
    CrlfCrlf,
}

/// What the transport should wait for before the next event: `Bytes(n)` for
/// at least `n` buffered input bytes, `Delimiter(off, needle, max)` for the
/// needle found at or after `off` within `max` bytes, `Flush(n)` for the
/// output queue drained to at most `n` bytes, `Sleep` for an external
/// wakeup.
#[derive(Clone, Copy, PartialEq, Eq, Structural, Debug)]
pub enum Expectation {
    Bytes(usize),
    Delimiter(usize, Needle, usize),
    Flush(usize),
    Sleep,
}

/// Out-of-band transport events.
#[derive(Clone, Copy, PartialEq, Eq, Structural, Debug)]
pub enum Exception {
    LimitReached,
    EndOfStream,
    ReadError,
    WriteError,
}

/// `min(now + timeout, u64::MAX)`: deadlines saturate instead of wrapping.
pub open spec fn spec_deadline_after(now: u64, timeout: u64) -> u64 {
    if now + timeout <= u64::MAX {
        (now + timeout) as u64
    } else {
        u64::MAX
    }
}

pub fn deadline_after(now: u64, timeout: u64) -> (r: u64)
    ensures
        r == spec_deadline_after(now, timeout),
{
    if timeout <= u64::MAX - now {
        now + timeout
    } else {
        u64::MAX
    }
}

pub fn min64(a: u64, b: u64) -> (r: u64)
    ensures
        r == if a <= b {
            a
        } else {
            b
        },
{
    if a <= b {
        a
    } else {
        b
    }
}

/// The application handler for one request, chosen per head and driven
/// through a strict lifecycle: `headers_received`, `request_start`, then
/// either one `request_received` (buffered modes) or `request_chunk`
/// repeated and one `request_end` (progressive modes); `bad_request` is the
/// terminal notification for malformed input after the handler exists.
/// Returning `None` from a lifecycle callback abandons the request.
///
/// Implementations live outside the library; the one thing assumed of them
/// (stated as `ensures` below) is that they only append to the outbound
/// queue, never rewriting bytes the transport may already have flushed.
pub trait Server: Sized {
    /// Handler selection: the handler value, its delivery mode, and the
    /// per-request deadline, or a status code to reject with.
    fn headers_received(head: &Head, cfg: &Config) -> Result<(Self, RecvMode, u64), u16>;

    /// The request line and headers are complete; the body follows.
    fn request_start(self, head: Head, resp: &mut Response, out: &mut netbuf::Buf) -> (r: Option<
        Self,
    >)
        ensures
            buf_bytes(*old(out)).is_prefix_of(buf_bytes(*final(out))),
    ;

    /// Buffered modes: the whole body in one call.
    fn request_received(self, data: &[u8], resp: &mut Response, out: &mut netbuf::Buf) -> (r:
        Option<Self>)
        ensures
            buf_bytes(*old(out)).is_prefix_of(buf_bytes(*final(out))),
    ;

    /// Progressive modes: one decoded piece of the body.
    fn request_chunk(self, data: &[u8], resp: &mut Response, out: &mut netbuf::Buf) -> (r: Option<
        Self,
    >)
        ensures
            buf_bytes(*old(out)).is_prefix_of(buf_bytes(*final(out))),
    ;

    /// Progressive modes: the body is complete.
    fn request_end(self, resp: &mut Response, out: &mut netbuf::Buf) -> (r: Option<Self>)
        ensures
            buf_bytes(*old(out)).is_prefix_of(buf_bytes(*final(out))),
    ;

    /// Terminal notification: the body was malformed; the connection closes
    /// after the error response is flushed.
    fn bad_request(self, resp: &mut Response, out: &mut netbuf::Buf)
        ensures
            buf_bytes(*old(out)).is_prefix_of(buf_bytes(*final(out))),
    ;
}

} // verus!
