//! The response handle: a small record of whether the response on the
//! current request has started and finished, and whether the request was
//! HEAD, together with the functions that append response bytes and error
//! pages to the outbound queue.
//!
//! The outbound queue itself is a `netbuf::Buf` owned by the event loop and
//! passed alongside the handle; both the parser and the handler only ever
//! append to it.

use crate::buf::{buf_bytes, buf_extend};
use crate::head::Version;
use vstd::prelude::*;

verus! {

/// State of the in-progress response to one request.
pub struct Response {
    pub started: bool,
    pub complete: bool,
    pub is_head: bool,
}

impl Response {
    pub open spec fn spec_started(&self) -> bool {
        self.started
    }

    pub open spec fn spec_complete(&self) -> bool {
        self.complete
    }

    pub open spec fn spec_is_head(&self) -> bool {
        self.is_head
    }

    /// A fresh handle; `is_head` suppresses the body on the wire (kept as a
    /// flag for the response writer).
    pub fn new(is_head: bool) -> (r: Response)
        ensures
            !r.spec_started(),
            !r.spec_complete(),
            r.spec_is_head() == is_head,
    {
        Response { started: false, complete: false, is_head }
    }

    pub fn is_started(&self) -> (r: bool)
        ensures
            r == self.spec_started(),
    {
        self.started
    }

    pub fn is_complete(&self) -> (r: bool)
        ensures
            r == self.spec_complete(),
    {
        self.complete
    }

    pub fn is_head_response(&self) -> (r: bool)
        ensures
            r == self.spec_is_head(),
    {
        self.is_head
    }

    /// Append raw response bytes to the outbound queue; the response counts
    /// as started from the first appended byte.
    pub fn write_raw(&mut self, out: &mut netbuf::Buf, data: &[u8])
        ensures
            buf_bytes(*final(out)) == buf_bytes(*old(out)) + data@,
            final(self).spec_started(),
            final(self).spec_complete() == old(self).spec_complete(),
            final(self).spec_is_head() == old(self).spec_is_head(),
    {
        buf_extend(out, data);
        self.started = true;
    }

    /// Mark the response finished.  Reports whether a response was actually
    /// written: recycling the connection after an error is allowed only then.
    pub fn finish(&mut self) -> (r: bool)
        ensures
            r == old(self).spec_started(),
            final(self).spec_started() == old(self).spec_started(),
            final(self).spec_complete() == (old(self).spec_complete() || old(
                self,
            ).spec_started()),
            final(self).spec_is_head() == old(self).spec_is_head(),
    {
        if self.started {
            self.complete = true;
        }
        self.started
    }
}

// ---------------------------------------------------------------------------
// Error pages and the interim 100 Continue line
// ---------------------------------------------------------------------------

/// The three ASCII digits of a status code in 100..=999.
pub open spec fn spec_status_digits(code: u16) -> Seq<u8> {
    seq![
        (0x30 + (code / 100) % 10) as u8,
        (0x30 + (code / 10) % 10) as u8,
        (0x30 + code % 10) as u8,
    ]
}

pub open spec fn spec_reason(code: u16) -> Seq<u8> {
    if code == 400 {
        seq![0x42u8, 0x61, 0x64, 0x20, 0x52, 0x65, 0x71, 0x75, 0x65, 0x73, 0x74]
    } else if code == 413 {
        seq![
            0x50u8,
            0x61,
            0x79,
            0x6c,
            0x6f,
            0x61,
            0x64,
            0x20,
            0x54,
            0x6f,
            0x6f,
            0x20,
            0x4c,
            0x61,
            0x72,
            0x67,
            0x65,
        ]
    } else {
        seq![0x45u8, 0x72, 0x72, 0x6f, 0x72]
    }
}

/// `HTTP/1.1 <code> <reason>\r\ncontent-length: 0\r\n\r\n`
pub open spec fn spec_error_page(code: u16) -> Seq<u8> {
    seq![0x48u8, 0x54, 0x54, 0x50, 0x2f, 0x31, 0x2e, 0x31, 0x20] + spec_status_digits(code) + seq![
        0x20u8,
    ] + spec_reason(code) + seq![
        0x0du8,
        0x0a,
        0x63,
        0x6f,
        0x6e,
        0x74,
        0x65,
        0x6e,
        0x74,
        0x2d,
        0x6c,
        0x65,
        0x6e,
        0x67,
        0x74,
        0x68,
        0x3a,
        0x20,
        0x30,
        0x0d,
        0x0a,
        0x0d,
        0x0a,
    ]
}

fn append_vec(dst: &mut Vec<u8>, src: &Vec<u8>)
    ensures
        final(dst)@ == old(dst)@ + src@,
{
    let mut i: usize = 0;
    while i < src.len()
        invariant
            0 <= i <= src@.len(),
            dst@.len() == old(dst)@.len() + i,
            forall|j: int| 0 <= j < old(dst)@.len() ==> dst@[j] == old(dst)@[j],
            forall|j: int| 0 <= j < i ==> dst@[old(dst)@.len() + j] == src@[j],
        decreases src@.len() - i,
    {
        dst.push(src[i]);
        i += 1;
    }
    proof {
        assert(dst@ =~= old(dst)@ + src@);
    }
}

/// The bytes of the minimal error page for a status code.
pub fn error_page_bytes(code: u16) -> (r: Vec<u8>)
    requires
        100 <= code <= 999,
    ensures
        r@ == spec_error_page(code),
{
    let mut p: Vec<u8> = vec![0x48u8, 0x54, 0x54, 0x50, 0x2f, 0x31, 0x2e, 0x31, 0x20];
    p.push((0x30 + (code / 100) % 10) as u8);
    p.push((0x30 + (code / 10) % 10) as u8);
    p.push((0x30 + code % 10) as u8);
    p.push(0x20);
    let reason: Vec<u8> = if code == 400 {
        vec![0x42u8, 0x61, 0x64, 0x20, 0x52, 0x65, 0x71, 0x75, 0x65, 0x73, 0x74]
    } else if code == 413 {
        vec![0x50u8, 0x61, 0x79, 0x6c, 0x6f, 0x61, 0x64, 0x20, 0x54, 0x6f, 0x6f, 0x20, 0x4c, 0x61, 0x72, 0x67, 0x65]
    } else {
        vec![0x45u8, 0x72, 0x72, 0x6f, 0x72]
    };
    append_vec(&mut p, &reason);
    let tail: Vec<u8> = vec![0x0du8, 0x0a, 0x63, 0x6f, 0x6e, 0x74, 0x65, 0x6e, 0x74, 0x2d, 0x6c, 0x65, 0x6e, 0x67, 0x74, 0x68, 0x3a, 0x20, 0x30, 0x0d, 0x0a, 0x0d, 0x0a];
    append_vec(&mut p, &tail);
    proof {
        assert(p@ =~= spec_error_page(code));
    }
    p
}

/// Render the minimal error page into the outbound queue through the
/// response handle (which thereby counts as started).
pub fn emit_error_page(code: u16, resp: &mut Response, out: &mut netbuf::Buf)
    requires
        100 <= code <= 999,
    ensures
        buf_bytes(*final(out)) == buf_bytes(*old(out)) + spec_error_page(code),
        final(resp).spec_started(),
        final(resp).spec_complete() == old(resp).spec_complete(),
        final(resp).spec_is_head() == old(resp).spec_is_head(),
{
    let page = error_page_bytes(code);
    resp.write_raw(out, page.as_slice());
}

/// `<version> 100 Continue\r\n\r\n`
pub open spec fn spec_continue_line(v: Version) -> Seq<u8> {
    seq![0x48u8, 0x54, 0x54, 0x50, 0x2f, 0x31, 0x2e]
        + (if v == Version::Http11 {
        seq![0x31u8]
    } else {
        seq![0x30u8]
    }) + seq![
        0x20u8,
        0x31,
        0x30,
        0x30,
        0x20,
        0x43,
        0x6f,
        0x6e,
        0x74,
        0x69,
        0x6e,
        0x75,
        0x65,
        0x0d,
        0x0a,
        0x0d,
        0x0a,
    ]
}

pub fn continue_line_bytes(v: Version) -> (r: Vec<u8>)
    ensures
        r@ == spec_continue_line(v),
{
    let mut p: Vec<u8> = vec![0x48u8, 0x54, 0x54, 0x50, 0x2f, 0x31, 0x2e];
    match v {
        Version::Http11 => p.push(0x31),
        Version::Http10 => p.push(0x30),
    }
    let tail: Vec<u8> = vec![0x20u8, 0x31, 0x30, 0x30, 0x20, 0x43, 0x6f, 0x6e, 0x74, 0x69, 0x6e, 0x75, 0x65, 0x0d, 0x0a, 0x0d, 0x0a];
    append_vec(&mut p, &tail);
    proof {
        assert(p@ =~= spec_continue_line(v));
    }
    p
}

} // verus!
