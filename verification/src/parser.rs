//! The per-connection state machine: five top-level states, the
//! body-progress cursor, and the event handlers that drive a [`Server`]
//! handler while framing the request body out of the input queue.
//!
//! Each event handler consumes the current state and returns `Some((next
//! state, next transport expectation, deadline))`, or `None` to close the
//! connection.

use crate::buf::{buf_bytes, buf_consume, buf_len, buf_range_vec, buf_remove_range};
use crate::head::{
    body_kind, copy_range, find1, has_expect_continue, parse_head, parse_hex, spec_body_kind,
    spec_find1, spec_has_expect_continue, spec_parse_head, spec_parse_hex, BodyKind, Head, Method,
    CR, LF,
};
use crate::protocol::{
    deadline_after, min64, spec_deadline_after, Config, Exception, Expectation, Needle, RecvMode,
    Server,
};
use crate::response::{
    continue_line_bytes, emit_error_page, spec_continue_line, spec_error_page, Response,
};
use crate::{MAX_CHUNK_HEAD, MAX_HEADERS_SIZE};
use vstd::prelude::*;

verus! {

pub const SEMI: u8 = 59;

/// Position inside the request body currently being read.
#[derive(Clone, Copy, PartialEq, Eq, Structural, Debug)]
pub enum BodyProgress {
    /// Buffered fixed-size request (bytes left)
    BufferFixed(usize),
    /// Buffered request till end of input (byte limit)
    BufferEOF(usize),
    /// Buffered request with chunked encoding
    /// (limit, bytes buffered, bytes left for current chunk)
    BufferChunked(usize, usize, usize),
    /// Progressive fixed-size request (size hint, bytes left)
    ProgressiveFixed(usize, u64),
    /// Progressive till end of input (size hint)
    ProgressiveEOF(usize),
    /// Progressive with chunked encoding
    /// (hint, offset, bytes left for current chunk)
    ProgressiveChunked(usize, usize, u64),
}

/// A request mid-body: the handler (`None` once it has abandoned the
/// request), the per-request deadline, the body cursor, and the response
/// state.
pub struct ReadBody<M> {
    pub machine: Option<M>,
    pub deadline: u64,
    pub progress: BodyProgress,
    pub response: Response,
}

pub enum ParserImpl<M> {
    Idle,
    ReadHeaders,
    ReadingBody(ReadBody<M>),
    /// Handler is producing the response; no input is consumed.
    Processing(M, Response, u64),
    /// Response finished; close once the output queue has drained.
    DoneResponse,
}

pub struct Parser<M>(pub ParserImpl<M>);

impl BodyProgress {
    /// Bounds that every reachable cursor satisfies; they keep the
    /// expectation arithmetic inside `usize`.
    pub open spec fn wf(&self, cfg: Config) -> bool {
        match *self {
            BodyProgress::BufferFixed(x) => x <= cfg.max_buf_size,
            BodyProgress::BufferEOF(lim) => lim <= cfg.max_buf_size,
            BodyProgress::BufferChunked(lim, off, rem) => lim <= cfg.max_buf_size && off + rem
                <= lim,
            BodyProgress::ProgressiveFixed(hint, _left) => 1 <= hint && hint <= cfg.max_buf_size,
            BodyProgress::ProgressiveEOF(hint) => 1 <= hint && hint <= cfg.max_buf_size,
            BodyProgress::ProgressiveChunked(hint, off, _left) => 1 <= hint && hint
                <= cfg.max_buf_size && off < hint,
        }
    }
}

impl<M> ParserImpl<M> {
    pub open spec fn wf(&self, cfg: Config) -> bool {
        match self {
            ParserImpl::ReadingBody(rb) => rb.progress.wf(cfg),
            _ => true,
        }
    }
}

impl<M> Parser<M> {
    pub open spec fn wf(&self, cfg: Config) -> bool {
        self.0.wf(cfg)
    }
}

// ---------------------------------------------------------------------------
// The expectation computer
// ---------------------------------------------------------------------------

/// The transport expectation belonging to a body cursor: fixed and EOF
/// modes wait for bytes, chunked modes between chunks wait for
/// the CRLF ending the next chunk-size line, within `MAX_CHUNK_HEAD` bytes.
pub open spec fn spec_progress_expectation(p: BodyProgress) -> Expectation {
    match p {
        BodyProgress::BufferFixed(x) => Expectation::Bytes(x),
        BodyProgress::BufferEOF(x) => Expectation::Bytes(x),
        BodyProgress::BufferChunked(_, off, rem) => if rem == 0 {
            Expectation::Delimiter(off, Needle::Crlf, (off + MAX_CHUNK_HEAD) as usize)
        } else {
            Expectation::Bytes((off + rem) as usize)
        },
        BodyProgress::ProgressiveFixed(hint, left) => Expectation::Bytes(
            if hint as u64 <= left {
                hint
            } else {
                left as usize
            },
        ),
        BodyProgress::ProgressiveEOF(hint) => Expectation::Bytes(hint),
        BodyProgress::ProgressiveChunked(hint, off, left) => if left == 0 {
            Expectation::Delimiter(off, Needle::Crlf, (off + MAX_CHUNK_HEAD) as usize)
        } else {
            Expectation::Bytes(
                if off + left <= hint {
                    (off + left) as usize
                } else {
                    hint
                },
            )
        },
    }
}

pub open spec fn spec_state_expectation<M>(s: ParserImpl<M>) -> Expectation {
    match s {
        ParserImpl::Idle => Expectation::Bytes(1),
        ParserImpl::ReadHeaders => Expectation::Delimiter(0, Needle::CrlfCrlf, MAX_HEADERS_SIZE),
        ParserImpl::ReadingBody(rb) => spec_progress_expectation(rb.progress),
        ParserImpl::Processing(_, _, _) => Expectation::Sleep,
        ParserImpl::DoneResponse => Expectation::Flush(0),
    }
}

/// The effective deadline: the sooner of the byte-level deadline and the
/// per-request deadline where one exists; a sleeping handler keeps its own.
pub open spec fn spec_state_deadline<M>(s: ParserImpl<M>, cfg: Config, now: u64) -> u64 {
    let byte = spec_deadline_after(now, cfg.byte_timeout);
    match s {
        ParserImpl::ReadingBody(rb) => if byte <= rb.deadline {
            byte
        } else {
            rb.deadline
        },
        ParserImpl::Processing(_, _, d) => d,
        _ => byte,
    }
}

impl<M: Server> ParserImpl<M> {
    /// Re-assert the expectation and deadline belonging to the current
    /// state.
    pub fn request(self, cfg: &Config, now: u64) -> (r: Option<(Parser<M>, Expectation, u64)>)
        requires
            cfg.wf(),
            self.wf(*cfg),
        ensures
            r matches Some(t) && t.0.0 == self && t.1 == spec_state_expectation(self) && t.2
                == spec_state_deadline(self, *cfg, now),
    {
        let byte_dline = deadline_after(now, cfg.byte_timeout);
        let (exp, dline): (Expectation, u64) = match &self {
            ParserImpl::Idle => (Expectation::Bytes(1), byte_dline),
            ParserImpl::ReadHeaders => (
                Expectation::Delimiter(0, Needle::CrlfCrlf, MAX_HEADERS_SIZE),
                byte_dline,
            ),
            ParserImpl::ReadingBody(rb) => {
                proof {
                    assert(rb.progress.wf(*cfg));
                }
                let exp = match rb.progress {
                    BodyProgress::BufferFixed(x) => Expectation::Bytes(x),
                    BodyProgress::BufferEOF(x) => Expectation::Bytes(x),
                    BodyProgress::BufferChunked(_, off, rem) => if rem == 0 {
                        Expectation::Delimiter(off, Needle::Crlf, off + MAX_CHUNK_HEAD)
                    } else {
                        Expectation::Bytes(off + rem)
                    },
                    BodyProgress::ProgressiveFixed(hint, left) => Expectation::Bytes(
                        if hint as u64 <= left {
                            hint
                        } else {
                            left as usize
                        },
                    ),
                    BodyProgress::ProgressiveEOF(hint) => Expectation::Bytes(hint),
                    BodyProgress::ProgressiveChunked(hint, off, left) => if left == 0 {
                        Expectation::Delimiter(off, Needle::Crlf, off + MAX_CHUNK_HEAD)
                    } else {
                        let want: usize = if left >= hint as u64 {
                            hint
                        } else {
                            let s: usize = off + left as usize;
                            if s <= hint {
                                s
                            } else {
                                hint
                            }
                        };
                        Expectation::Bytes(want)
                    },
                };
                (exp, min64(byte_dline, rb.deadline))
            },
            ParserImpl::Processing(_, _, d) => (Expectation::Sleep, *d),
            ParserImpl::DoneResponse => (Expectation::Flush(0), byte_dline),
        };
        Some((Parser(self), exp, dline))
    }
}

// ---------------------------------------------------------------------------
// Small state helpers
// ---------------------------------------------------------------------------

impl<M: Server> Parser<M> {
    /// Flush whatever stands in the output queue, then close.
    pub fn flush(cfg: &Config, now: u64) -> (r: Option<(Parser<M>, Expectation, u64)>)
        ensures
            r matches Some(t) && t.0.0 is DoneResponse && t.1 == Expectation::Flush(0) && t.2
                == spec_deadline_after(now, cfg.byte_timeout),
    {
        Some(
            (
                Parser(ParserImpl::DoneResponse),
                Expectation::Flush(0),
                deadline_after(now, cfg.byte_timeout),
            ),
        )
    }

    /// Write a 400 page unless a response has already started, finish the
    /// response, and close after the flush.
    pub fn bad_request(response: Response, out: &mut netbuf::Buf, cfg: &Config, now: u64) -> (r:
        Option<(Parser<M>, Expectation, u64)>)
        ensures
            r matches Some(t) && t.0.0 is DoneResponse && t.1 == Expectation::Flush(0) && t.2
                == spec_deadline_after(now, cfg.byte_timeout),
            !response.spec_started() ==> buf_bytes(*final(out)) == buf_bytes(*old(out))
                + spec_error_page(400),
            response.spec_started() ==> buf_bytes(*final(out)) == buf_bytes(*old(out)),
    {
        let mut response = response;
        if !response.is_started() {
            emit_error_page(400, &mut response, out);
        }
        response.finish();
        Self::flush(cfg, now)
    }

    /// As `bad_request`, for errors before any response handle exists.
    pub fn raw_bad_request(out: &mut netbuf::Buf, cfg: &Config, now: u64) -> (r: Option<
        (Parser<M>, Expectation, u64),
    >)
        ensures
            r matches Some(t) && t.0.0 is DoneResponse && t.1 == Expectation::Flush(0) && t.2
                == spec_deadline_after(now, cfg.byte_timeout),
            buf_bytes(*final(out)) == buf_bytes(*old(out)) + spec_error_page(400),
    {
        let resp = Response::new(false);
        Self::bad_request(resp, out, cfg, now)
    }

    /// The body is done: a live handler moves to `Processing` under the
    /// request deadline; an abandoned request recycles the connection when
    /// its response was completed.  A handler that abandons a request is
    /// expected to have completed the response first; when it has not, the
    /// connection is never recycled — it closes once the output has
    /// flushed.
    pub fn complete(machine: Option<M>, response: Response, deadline: u64, cfg: &Config, now: u64)
        -> (r: Option<(Parser<M>, Expectation, u64)>)
        requires
            cfg.wf(),
        ensures
            machine matches Some(m) ==> r matches Some(t) && t.0.0 == ParserImpl::Processing(
                m,
                response,
                deadline,
            ) && t.1 == Expectation::Sleep && t.2 == deadline,
            machine is None && response.spec_complete() ==> (r matches Some(t) && t.0.0 is Idle
                && t.1 == Expectation::Bytes(1) && t.2 == spec_deadline_after(
                now,
                cfg.byte_timeout,
            )),
            machine is None && !response.spec_complete() ==> (r matches Some(t) && t.0.0
                is DoneResponse && t.1 == Expectation::Flush(0) && t.2 == spec_deadline_after(
                now,
                cfg.byte_timeout,
            )),
    {
        match machine {
            Some(m) => Some(
                (
                    Parser(ParserImpl::Processing(m, response, deadline)),
                    Expectation::Sleep,
                    deadline,
                ),
            ),
            None => {
                if response.is_complete() {
                    ParserImpl::Idle.request(cfg, now)
                } else {
                    Self::flush(cfg, now)
                }
            },
        }
    }

    /// A new connection: idle, waiting for the first byte.
    pub fn create(cfg: &Config, now: u64) -> (r: Option<(Parser<M>, Expectation, u64)>)
        ensures
            r matches Some(t) && t.0.0 is Idle && t.1 == Expectation::Bytes(1) && t.2
                == spec_deadline_after(now, cfg.byte_timeout),
    {
        Some(
            (
                Parser(ParserImpl::Idle),
                Expectation::Bytes(1),
                deadline_after(now, cfg.byte_timeout),
            ),
        )
    }

    /// The output queue has drained: close when the response is done,
    /// otherwise keep the current expectation.
    pub fn bytes_flushed(self, cfg: &Config, now: u64) -> (r: Option<
        (Parser<M>, Expectation, u64),
    >)
        requires
            cfg.wf(),
            self.wf(*cfg),
        ensures
            self.0 is DoneResponse ==> r is None,
            !(self.0 is DoneResponse) ==> (r matches Some(t) && t.0.0 == self.0 && t.1
                == spec_state_expectation(self.0) && t.2 == spec_state_deadline(
                self.0,
                *cfg,
                now,
            )),
    {
        match self.0 {
            ParserImpl::DoneResponse => None,
            me => me.request(cfg, now),
        }
    }

    /// A deadline expired: tear the connection down with no response.
    pub fn timeout(self) -> (r: Option<(Parser<M>, Expectation, u64)>)
        ensures
            r is None,
    {
        None
    }

    /// An external wakeup.  In `Processing` it polls the response: a
    /// completed response recycles the connection, otherwise the handler
    /// keeps sleeping.  Every other state re-asserts its expectation.
    pub fn wakeup(self, cfg: &Config, now: u64) -> (r: Option<(Parser<M>, Expectation, u64)>)
        requires
            cfg.wf(),
            self.wf(*cfg),
        ensures
            !(self.0 is Processing) ==> (r matches Some(t) && t.0.0 == self.0 && t.1
                == spec_state_expectation(self.0) && t.2 == spec_state_deadline(self.0, *cfg, now)),
            self.0 matches ParserImpl::Processing(m, resp, d) ==> (resp.spec_complete()
                ==> (r matches Some(t) && t.0.0 is Idle && t.1 == Expectation::Bytes(1))),
            self.0 matches ParserImpl::Processing(m, resp, d) ==> (!resp.spec_complete()
                ==> (r matches Some(t) && t.0.0 == self.0 && t.1 == Expectation::Sleep && t.2 == d)),
    {
        match self.0 {
            ParserImpl::Processing(m, resp, d) => {
                if resp.is_complete() {
                    ParserImpl::Idle.request(cfg, now)
                } else {
                    Some((Parser(ParserImpl::Processing(m, resp, d)), Expectation::Sleep, d))
                }
            },
            me => me.request(cfg, now),
        }
    }
}

/// Begin reading a head block: wait for the CRLF-CRLF delimiter within
/// `MAX_HEADERS_SIZE` bytes.
pub fn start_headers<M: Server>(cfg: &Config, now: u64) -> (r: Option<
    (Parser<M>, Expectation, u64),
>)
    ensures
        r matches Some(t) && t.0.0 is ReadHeaders && t.1 == Expectation::Delimiter(
            0,
            Needle::CrlfCrlf,
            MAX_HEADERS_SIZE,
        ) && t.2 == spec_deadline_after(now, cfg.byte_timeout),
{
    Some(
        (
            Parser(ParserImpl::ReadHeaders),
            Expectation::Delimiter(0, Needle::CrlfCrlf, MAX_HEADERS_SIZE),
            deadline_after(now, cfg.byte_timeout),
        ),
    )
}

// ---------------------------------------------------------------------------
// Event contracts
// ---------------------------------------------------------------------------

/// What the transport guarantees when it reports a delimiter event: `end` is
/// the position of the first CRLF at or after `off`, and it lies inside the
/// buffered input.
pub open spec fn spec_delim_event(inp: Seq<u8>, off: int, end: int) -> bool {
    &&& 0 <= off <= end
    &&& end + 2 <= inp.len()
    &&& inp[end] == CR && inp[end + 1] == LF
    &&& forall|j: int| off <= j < end ==> !(#[trigger] inp[j] == CR && inp[j + 1] == LF)
}

/// What the transport guarantees for a `bytes_arrived` event in each state:
/// the expectation the state registered has been met.  A `BufferEOF` body is
/// only ever advanced by the end-of-stream event.
pub open spec fn spec_event_ok<M>(s: ParserImpl<M>, inp: Seq<u8>, end: int) -> bool {
    match s {
        ParserImpl::ReadHeaders => {
            &&& 0 <= end
            &&& end + 4 <= inp.len()
            &&& inp[end] == CR && inp[end + 1] == LF && inp[end + 2] == CR && inp[end + 3] == LF
        },
        ParserImpl::ReadingBody(rb) => match rb.progress {
            BodyProgress::BufferFixed(x) => x <= inp.len(),
            BodyProgress::BufferEOF(_) => false,
            BodyProgress::BufferChunked(_, off, rem) => if rem == 0 {
                spec_delim_event(inp, off as int, end)
            } else {
                off + rem <= inp.len()
            },
            BodyProgress::ProgressiveFixed(_, _) => true,
            BodyProgress::ProgressiveEOF(_) => true,
            BodyProgress::ProgressiveChunked(_, off, left) => if left == 0 {
                spec_delim_event(inp, off as int, end)
            } else {
                off <= inp.len()
            },
        },
        _ => true,
    }
}

/// States in which the transport can report `LimitReached`: an oversized
/// head block, or an oversized chunk-size line.
pub open spec fn spec_limit_event_ok<M>(s: ParserImpl<M>) -> bool {
    match s {
        ParserImpl::ReadHeaders => true,
        ParserImpl::ReadingBody(rb) => match rb.progress {
            BodyProgress::BufferChunked(_, _, rem) => rem == 0,
            BodyProgress::ProgressiveChunked(_, _, left) => left == 0,
            _ => false,
        },
        _ => false,
    }
}

/// The chunk-size digits of the line `inp[off..end]`: everything up to the
/// first `;` (which starts chunk extensions).
pub open spec fn spec_chunk_line(inp: Seq<u8>, off: int, end: int) -> Seq<u8> {
    let l = inp.subrange(off, end);
    match spec_find1(l, SEMI, 0, l.len() as int) {
        Some(k) => l.subrange(0, k),
        None => l,
    }
}

pub open spec fn spec_chunk_size(inp: Seq<u8>, off: int, end: int) -> Option<u64> {
    spec_parse_hex(spec_chunk_line(inp, off, end))
}

// ---------------------------------------------------------------------------
// The head parser adapter
// ---------------------------------------------------------------------------

/// Clamp a handler-chosen status to one the error page can render.
pub open spec fn spec_clamp_status(st: u16) -> u16 {
    if 100 <= st && st <= 999 {
        st
    } else {
        500u16
    }
}

/// Delivery modes the transport can honour: a buffered capacity below the
/// transport buffer ceiling, or a positive progressive hint within it.
pub open spec fn spec_mode_ok(mode: RecvMode, cfg: Config) -> bool {
    match mode {
        RecvMode::Buffered(x) => x < cfg.max_buf_size,
        RecvMode::Progressive(x) => 1 <= x && x <= cfg.max_buf_size,
    }
}

/// The payload-too-large rule: a fixed body at least as large as the
/// declared buffered capacity is rejected before any body callback.
pub open spec fn spec_too_large(bk: BodyKind, mode: RecvMode) -> bool {
    match (bk, mode) {
        (BodyKind::Fixed(x), RecvMode::Buffered(y)) => x >= y as u64,
        _ => false,
    }
}

/// Everything the library decides once the handler has answered
/// `headers_received` for a parsed head.  Exact, for every possible answer:
/// a rejection writes the (clamped) status page and never keeps alive; an
/// unservable delivery mode writes a 500 page and never keeps alive; a bad
/// body framing writes its status page and never keeps alive; a fixed body
/// at least as large as the buffered capacity writes the 413 page, with
/// keep-alive exactly when the declared body was empty; otherwise the
/// request is accepted — the cursor carries the handler's chosen mode and
/// deadline, and the `100 Continue` line precedes anything the handler
/// writes when the head asked for it.
pub fn after_selection<M: Server>(
    head: Head,
    sel: Result<(M, RecvMode, u64), u16>,
    output: &mut netbuf::Buf,
    cfg: &Config,
) -> (r: Result<ReadBody<M>, bool>)
    requires
        cfg.wf(),
    ensures
        sel matches Err(st) ==> (r matches Err(ka) && ka == false && buf_bytes(*final(output))
            == buf_bytes(*old(output)) + spec_error_page(spec_clamp_status(st))),
        sel matches Ok(t) ==> (!spec_mode_ok(t.1, *cfg) ==> (r matches Err(ka) && ka == false
            && buf_bytes(*final(output)) == buf_bytes(*old(output)) + spec_error_page(500))),
        sel matches Ok(t) ==> (spec_mode_ok(t.1, *cfg) ==> (spec_body_kind(head@) matches Err(st)
            ==> (r matches Err(ka) && ka == false && buf_bytes(*final(output)) == buf_bytes(
            *old(output),
        ) + spec_error_page(st)))),
        sel matches Ok(t) ==> (spec_mode_ok(t.1, *cfg) ==> (spec_body_kind(head@) matches Ok(bk)
            ==> (bk is Upgrade ==> (r matches Err(ka) && ka == false && buf_bytes(*final(output))
            == buf_bytes(*old(output)) + spec_error_page(400))))),
        sel matches Ok(t) ==> (spec_mode_ok(t.1, *cfg) ==> (spec_body_kind(head@) matches Ok(bk)
            ==> ((!(bk is Upgrade) && spec_too_large(bk, t.1)) ==> (r matches Err(ka) && ka == (bk
            == BodyKind::Fixed(0)) && buf_bytes(*final(output)) == buf_bytes(*old(output))
            + spec_error_page(413))))),
        sel matches Ok(t) ==> (spec_mode_ok(t.1, *cfg) ==> (spec_body_kind(head@) matches Ok(bk)
            ==> ((!(bk is Upgrade) && !spec_too_large(bk, t.1)) ==> (r matches Ok(rb)
            && rb.progress == spec_start_body(t.1, bk) && rb.deadline == t.2 && rb.progress.wf(
            *cfg,
        ) && (spec_has_expect_continue(head@) ==> (buf_bytes(*old(output)) + spec_continue_line(
            head@.version,
        )).is_prefix_of(buf_bytes(*final(output)))) && (!spec_has_expect_continue(head@)
            ==> buf_bytes(*old(output)).is_prefix_of(buf_bytes(*final(output)))))))),
{
    let is_head = matches!(head.method, Method::Head);
    match sel {
        Err(status) => {
            // Handler rejected the request; it was never created.
            let st: u16 = if 100 <= status && status <= 999 {
                status
            } else {
                500
            };
            let mut resp = Response::new(is_head);
            emit_error_page(st, &mut resp, output);
            resp.finish();
            Err(false)
        },
        Ok((m, mode, dline)) => {
            // A delivery mode the transport cannot honour is a handler
            // programming error; reject it synchronously.
            let mode_ok = match mode {
                RecvMode::Buffered(x) => x < cfg.max_buf_size,
                RecvMode::Progressive(x) => 1 <= x && x <= cfg.max_buf_size,
            };
            if !mode_ok {
                let mut resp = Response::new(is_head);
                emit_error_page(500, &mut resp, output);
                resp.finish();
                return Err(false);
            }
            match body_kind(&head) {
                Err(status) => {
                    let mut resp = Response::new(is_head);
                    emit_error_page(status, &mut resp, output);
                    resp.finish();
                    Err(false)
                },
                Ok(bk) => {
                    let can_keep_alive = matches!(bk, BodyKind::Fixed(0));
                    if matches!(bk, BodyKind::Upgrade) {
                        // Upgrades are unsupported.
                        let mut resp = Response::new(is_head);
                        emit_error_page(400, &mut resp, output);
                        resp.finish();
                        return Err(false);
                    }
                    let too_large = match (bk, mode) {
                        (BodyKind::Fixed(x), RecvMode::Buffered(y)) => x >= y as u64,
                        _ => false,
                    };
                    if too_large {
                        let mut resp = Response::new(is_head);
                        emit_error_page(413, &mut resp, output);
                        let okay = resp.finish();
                        return Err(can_keep_alive && okay);
                    }
                    if has_expect_continue(&head) {
                        // The handler has approved the request, so the
                        // interim status goes out at once.
                        let line = continue_line_bytes(head.version);
                        crate::buf::buf_extend(output, line.as_slice());
                    }
                    let mut resp = Response::new(is_head);
                    let machine = m.request_start(head, &mut resp, output);
                    let progress = start_body(mode, bk);
                    Ok(ReadBody { machine, deadline: dline, progress, response: resp })
                },
            }
        },
    }
}

/// Parse a complete head block (`end` is where its CRLF-CRLF delimiter
/// starts), pick the handler, and set up body reading.  On failure the error
/// page has been written and the `bool` says whether the connection may be
/// recycled: only a parsed request with an empty declared body and a written
/// error response qualifies.
fn parse_headers<M: Server>(
    input: &mut netbuf::Buf,
    output: &mut netbuf::Buf,
    end: usize,
    cfg: &Config,
) -> (r: Result<ReadBody<M>, bool>)
    requires
        cfg.wf(),
        end + 4 <= buf_bytes(*old(input)).len(),
    ensures
        buf_bytes(*final(input)) == buf_bytes(*old(input)).skip(end + 4),
        ({
            let hb = buf_bytes(*old(input)).subrange(0, end + 4);
            let o0 = buf_bytes(*old(output));
            let o1 = buf_bytes(*final(output));
            &&& (spec_parse_head(hb) is None ==> (r matches Err(ka) && ka == false && o1 == o0
                + spec_error_page(400)))
            &&& (r matches Err(ka) ==> exists|st: u16|
                100 <= st <= 999 && o1 == o0 + spec_error_page(st))
            &&& (r matches Err(ka) ==> (ka ==> (spec_parse_head(hb) matches Some(h)
                && spec_body_kind(h) == Result::<BodyKind, u16>::Ok(BodyKind::Fixed(0)) && o1
                == o0 + spec_error_page(413))))
            &&& (r matches Ok(rb) ==> (spec_parse_head(hb) matches Some(h) && {
                &&& spec_body_kind(h) matches Ok(bk) && !(bk is Upgrade) && (exists|
                    mode: RecvMode,
                |
                    rb.progress == spec_start_body(mode, bk))
                &&& rb.progress.wf(*cfg)
                &&& (spec_has_expect_continue(h) ==> (o0 + spec_continue_line(
                    h.version,
                )).is_prefix_of(o1))
                &&& (!spec_has_expect_continue(h) ==> o0.is_prefix_of(o1))
            }))
        }),
{
    let ghost i0 = buf_bytes(*input);
    let n = buf_len(input);
    assert(end + 4 <= n);
    let head_vec = buf_range_vec(input, 0, end + 4);
    buf_consume(input, end + 4);
    match parse_head(&head_vec) {
        None => {
            // Malformed head: the method is not even decidable, so the
            // connection cannot be recycled.
            let mut resp = Response::new(false);
            emit_error_page(400, &mut resp, output);
            resp.finish();
            Err(false)
        },
        Some(head) => {
            let ghost ghead = head@;
            let sel = M::headers_received(&head, cfg);
            let ghost gsel = sel;
            let r = after_selection(head, sel, output, cfg);
            proof {
                match &r {
                    Ok(rb) => match gsel {
                        Ok(t) => {
                            assert(exists|md: RecvMode|
                                rb.progress == spec_start_body(
                                    md,
                                    spec_body_kind(ghead)->Ok_0,
                                )) by {
                                assert(rb.progress == spec_start_body(
                                    t.1,
                                    spec_body_kind(ghead)->Ok_0,
                                ));
                            }
                        },
                        Err(_) => {},
                    },
                    Err(_) => {},
                }
            }
            r
        },
    }
}

/// The initial body cursor for a delivery mode and a body framing.
pub open spec fn spec_start_body(mode: RecvMode, body: BodyKind) -> BodyProgress {
    match (mode, body) {
        (RecvMode::Buffered(_), BodyKind::Fixed(y)) => BodyProgress::BufferFixed(y as usize),
        (RecvMode::Buffered(x), BodyKind::Chunked) => BodyProgress::BufferChunked(x, 0, 0),
        (RecvMode::Buffered(x), BodyKind::Eof) => BodyProgress::BufferEOF(x),
        (RecvMode::Progressive(x), BodyKind::Fixed(y)) => BodyProgress::ProgressiveFixed(x, y),
        (RecvMode::Progressive(x), BodyKind::Chunked) => BodyProgress::ProgressiveChunked(x, 0, 0),
        (RecvMode::Progressive(x), BodyKind::Eof) => BodyProgress::ProgressiveEOF(x),
        (_, BodyKind::Upgrade) => BodyProgress::BufferFixed(0),
    }
}

proof fn lemma_prefix_append(a: Seq<u8>, b: Seq<u8>)
    ensures
        a.is_prefix_of(a + b),
{
    assert(a =~= (a + b).subrange(0, a.len() as int));
}

proof fn lemma_prefix_trans(a: Seq<u8>, b: Seq<u8>, c: Seq<u8>)
    requires
        a.is_prefix_of(b),
        b.is_prefix_of(c),
    ensures
        a.is_prefix_of(c),
{
    assert(a =~= c.subrange(0, a.len() as int));
}

/// The states a finished body can lead to: the handler moves to
/// `Processing` under the request deadline, or (having abandoned the
/// request) the connection recycles or closes.
pub open spec fn spec_completion_post<M>(t: (Parser<M>, Expectation, u64), deadline: u64) -> bool {
    &&& (t.0.0 is Processing || t.0.0 is Idle || t.0.0 is DoneResponse)
    &&& (t.0.0 matches ParserImpl::Processing(m2, rsp, d) ==> d == deadline && t.1
        == Expectation::Sleep && t.2 == deadline)
    &&& (t.0.0 is Idle ==> t.1 == Expectation::Bytes(1))
    &&& (t.0.0 is DoneResponse ==> t.1 == Expectation::Flush(0))
}

/// The exact effect of one `bytes_arrived` event on a body cursor: how the
/// input queue changes and which states can come next.  What the handler
/// chooses (whether it stays alive, what it appends to the output) is left
/// open; every byte the parser itself consumes or splices out of the input
/// queue is pinned down.  In particular no input byte is ever consumed
/// twice: each step removes exactly the bytes it delivered plus the chunked
/// framing it spliced out.
pub open spec fn spec_body_step_post<M>(
    rb: ReadBody<M>,
    i0: Seq<u8>,
    i1: Seq<u8>,
    o0: Seq<u8>,
    o1: Seq<u8>,
    end: int,
    r: Option<(Parser<M>, Expectation, u64)>,
) -> bool {
    match rb.progress {
        BodyProgress::BufferFixed(x) => {
            &&& i1 == i0.skip(x as int)
            &&& r is Some
            &&& (r matches Some(t) ==> spec_completion_post(t, rb.deadline))
        },
        BodyProgress::BufferEOF(_) => true,
        BodyProgress::BufferChunked(lim, off, rem) => if rem == 0 {
            if end == off {
                // The CRLF that closed the previous chunk: splice it out and
                // keep waiting for the size line.
                &&& i1 == i0.take(off as int) + i0.skip(off + 2)
                &&& o1 == o0
                &&& (r matches Some(t) && t.0.0 matches ParserImpl::ReadingBody(rb2) && rb2 == rb)
            } else {
                match spec_chunk_size(i0, off as int, end) {
                    None => {
                        &&& i1 == i0.skip(end + 2)
                        &&& (r matches Some(t) && t.0.0 is DoneResponse && t.1
                            == Expectation::Flush(0))
                        &&& (rb.machine is None && !rb.response.spec_started() ==> o1 == o0
                            + spec_error_page(400))
                    },
                    Some(sz) => if sz == 0 {
                        &&& i1 == i0.skip(end + 2)
                        &&& r is Some
                        &&& (r matches Some(t) ==> spec_completion_post(t, rb.deadline))
                    } else if off + sz > lim {
                        &&& i1 == i0.skip(end + 2)
                        &&& (r matches Some(t) && t.0.0 is DoneResponse && t.1
                            == Expectation::Flush(0))
                        &&& (rb.machine is None && !rb.response.spec_started() ==> o1 == o0
                            + spec_error_page(400))
                    } else {
                        &&& i1 == i0.take(off as int) + i0.skip(end + 2)
                        &&& o1 == o0
                        &&& (r matches Some(t) && t.0.0 matches ParserImpl::ReadingBody(rb2)
                            && rb2.progress == BodyProgress::BufferChunked(lim, off, sz as usize)
                            && rb2.machine == rb.machine && rb2.deadline == rb.deadline
                            && rb2.response == rb.response)
                    },
                }
            }
        } else {
            &&& i1 == i0
            &&& o1 == o0
            &&& (r matches Some(t) && t.0.0 matches ParserImpl::ReadingBody(rb2) && rb2.progress
                == BodyProgress::BufferChunked(lim, (off + rem) as usize, 0) && rb2.machine
                == rb.machine && rb2.deadline == rb.deadline && rb2.response == rb.response)
        },
        BodyProgress::ProgressiveFixed(hint, left) => {
            let got = if i0.len() <= left {
                i0.len() as int
            } else {
                left as int
            };
            &&& i1 == i0.skip(got)
            &&& r is Some
            &&& (left > got ==> (r matches Some(t) && t.0.0 matches ParserImpl::ReadingBody(rb2)
                && rb2.progress == BodyProgress::ProgressiveFixed(hint, (left - got) as u64)
                && rb2.deadline == rb.deadline))
            &&& (left <= got ==> (r matches Some(t) ==> spec_completion_post(t, rb.deadline)))
        },
        BodyProgress::ProgressiveEOF(_) => {
            &&& i1 == i0.skip(i0.len() as int)
            &&& (r matches Some(t) && t.0.0 matches ParserImpl::ReadingBody(rb2) && rb2.progress
                == rb.progress && rb2.deadline == rb.deadline)
        },
        BodyProgress::ProgressiveChunked(hint, off, left) => if left == 0 {
            if end == off {
                &&& i1 == i0.take(off as int) + i0.skip(off + 2)
                &&& o1 == o0
                &&& (r matches Some(t) && t.0.0 matches ParserImpl::ReadingBody(rb2) && rb2 == rb)
            } else {
                match spec_chunk_size(i0, off as int, end) {
                    None => {
                        &&& i1 == i0.skip(end + 2)
                        &&& (r matches Some(t) && t.0.0 is DoneResponse && t.1
                            == Expectation::Flush(0))
                        &&& (rb.machine is None && !rb.response.spec_started() ==> o1 == o0
                            + spec_error_page(400))
                    },
                    Some(sz) => if sz == 0 {
                        &&& i1 == i0.skip(end + 2)
                        &&& r is Some
                        &&& (r matches Some(t) ==> spec_completion_post(t, rb.deadline))
                    } else {
                        &&& i1 == i0.take(off as int) + i0.skip(end + 2)
                        &&& o1 == o0
                        &&& (r matches Some(t) && t.0.0 matches ParserImpl::ReadingBody(rb2)
                            && rb2.progress == BodyProgress::ProgressiveChunked(hint, off, sz)
                            && rb2.machine == rb.machine && rb2.deadline == rb.deadline
                            && rb2.response == rb.response)
                    },
                }
            }
        } else {
            let ln = if off + left <= i0.len() {
                off + left
            } else {
                i0.len() as int
            };
            if ln < hint {
                &&& i1 == i0
                &&& o1 == o0
                &&& (r matches Some(t) && t.0.0 matches ParserImpl::ReadingBody(rb2)
                    && rb2.progress == BodyProgress::ProgressiveChunked(
                    hint,
                    ln as usize,
                    (left - (ln - off)) as u64,
                ) && rb2.machine == rb.machine && rb2.deadline == rb.deadline && rb2.response
                    == rb.response)
            } else {
                &&& i1 == i0.skip(ln)
                &&& (r matches Some(t) && t.0.0 matches ParserImpl::ReadingBody(rb2)
                    && rb2.progress == BodyProgress::ProgressiveChunked(
                    hint,
                    0,
                    (left - (ln - off)) as u64,
                ) && rb2.deadline == rb.deadline)
            }
        },
    }
}

/// The initial body cursor.  Upgrades are rejected before this point; the
/// size of a buffered fixed body has been checked against the capacity.
pub fn start_body(mode: RecvMode, body: BodyKind) -> (r: BodyProgress)
    requires
        !(body is Upgrade),
        body matches BodyKind::Fixed(y) ==> (mode is Buffered ==> y <= usize::MAX),
    ensures
        r == spec_start_body(mode, body),
{
    match (mode, body) {
        (RecvMode::Buffered(_), BodyKind::Fixed(y)) => BodyProgress::BufferFixed(y as usize),
        (RecvMode::Buffered(x), BodyKind::Chunked) => BodyProgress::BufferChunked(x, 0, 0),
        (RecvMode::Buffered(x), BodyKind::Eof) => BodyProgress::BufferEOF(x),
        (RecvMode::Progressive(x), BodyKind::Fixed(y)) => BodyProgress::ProgressiveFixed(x, y),
        (RecvMode::Progressive(x), BodyKind::Chunked) => BodyProgress::ProgressiveChunked(x, 0, 0),
        (RecvMode::Progressive(x), BodyKind::Eof) => BodyProgress::ProgressiveEOF(x),
        (_, BodyKind::Upgrade) => BodyProgress::BufferFixed(0),
    }
}

// ---------------------------------------------------------------------------
// The main events
// ---------------------------------------------------------------------------

impl<M: Server> Parser<M> {
    /// The transport delivered input.  Dispatch on state: begin or finish a
    /// head block, or advance the body cursor — delivering decoded body
    /// bytes to the handler and splicing chunked framing out of the input
    /// queue.  For delimiter expectations `end` is where the delimiter
    /// starts.
    #[verifier::rlimit(60)]
    pub fn bytes_read(
        self,
        input: &mut netbuf::Buf,
        output: &mut netbuf::Buf,
        end: usize,
        cfg: &Config,
        now: u64,
    ) -> (r: Option<(Parser<M>, Expectation, u64)>)
        requires
            cfg.wf(),
            self.wf(*cfg),
            spec_event_ok(self.0, buf_bytes(*old(input)), end as int),
        ensures
            r matches Some(t) ==> t.0.wf(*cfg),
            r matches Some(t) ==> t.1 == spec_state_expectation(t.0.0) && t.2
                == spec_state_deadline(t.0.0, *cfg, now),
            buf_bytes(*old(output)).is_prefix_of(buf_bytes(*final(output))),
            self.0 is Idle ==> (r matches Some(t) && t.0.0 is ReadHeaders && t.1
                == Expectation::Delimiter(0, Needle::CrlfCrlf, MAX_HEADERS_SIZE) && buf_bytes(
                *final(input),
            ) == buf_bytes(*old(input)) && buf_bytes(*final(output)) == buf_bytes(*old(output))),
            self.0 is DoneResponse ==> (r matches Some(t) && t.0.0 is DoneResponse && t.1
                == Expectation::Flush(0) && buf_bytes(*final(input)) == buf_bytes(*old(input))
                && buf_bytes(*final(output)) == buf_bytes(*old(output))),
            self.0 matches ParserImpl::Processing(m, rsp, d) ==> (r matches Some(t) && t.0.0
                == ParserImpl::Processing(m, rsp, d) && t.1 == Expectation::Sleep && t.2 == d
                && buf_bytes(*final(input)) == buf_bytes(*old(input)) && buf_bytes(*final(output))
                == buf_bytes(*old(output))),
            self.0 is ReadHeaders ==> (buf_bytes(*final(input)) == buf_bytes(*old(input)).skip(
                end + 4,
            ) && r is Some),
            self.0 is ReadHeaders ==> (spec_parse_head(
                buf_bytes(*old(input)).subrange(0, end + 4),
            ) is None ==> (r matches Some(t) && t.0.0 is DoneResponse && t.1 == Expectation::Flush(
                0,
            ) && buf_bytes(*final(output)) == buf_bytes(*old(output)) + spec_error_page(400))),
            self.0 is ReadHeaders ==> (r matches Some(t) ==> (t.0.0 is ReadingBody || t.0.0 is Idle
                || t.0.0 is DoneResponse)),
            self.0 is ReadHeaders ==> (r matches Some(t) ==> ((t.0.0 is Idle || t.0.0
                is DoneResponse) ==> exists|st: u16|
                100 <= st <= 999 && buf_bytes(*final(output)) == buf_bytes(*old(output))
                    + spec_error_page(st))),
            self.0 is ReadHeaders ==> (r matches Some(t) ==> (t.0.0 is Idle ==> (spec_parse_head(
                buf_bytes(*old(input)).subrange(0, end + 4),
            ) matches Some(h) && spec_body_kind(h) == Result::<BodyKind, u16>::Ok(
                BodyKind::Fixed(0),
            ) && buf_bytes(*final(output)) == buf_bytes(*old(output)) + spec_error_page(413)))),
            self.0 is ReadHeaders ==> (r matches Some(t) ==> (t.0.0 matches ParserImpl::ReadingBody(
                rb2,
            ) ==> (spec_parse_head(buf_bytes(*old(input)).subrange(0, end + 4)) matches Some(h) && {
                &&& spec_body_kind(h) matches Ok(bk) && !(bk is Upgrade) && (exists|mode: RecvMode|
                    rb2.progress == spec_start_body(mode, bk))
                &&& (spec_has_expect_continue(h) ==> (buf_bytes(*old(output)) + spec_continue_line(
                    h.version,
                )).is_prefix_of(buf_bytes(*final(output))))
            }))),
            self.0 matches ParserImpl::ReadingBody(rb) ==> spec_body_step_post(
                rb,
                buf_bytes(*old(input)),
                buf_bytes(*final(input)),
                buf_bytes(*old(output)),
                buf_bytes(*final(output)),
                end as int,
                r,
            ),
    {
        let ghost i0 = buf_bytes(*input);
        let ghost o0 = buf_bytes(*output);
        let Parser(state) = self;
        match state {
            ParserImpl::Idle => start_headers::<M>(cfg, now),
            ParserImpl::ReadHeaders => {
                match parse_headers::<M>(input, output, end, cfg) {
                    Ok(rb) => {
                        proof {
                            lemma_prefix_append(o0, Seq::<u8>::empty());
                        }
                        ParserImpl::ReadingBody(rb).request(cfg, now)
                    },
                    Err(can_keep) => {
                        proof {
                            lemma_prefix_append(o0, buf_bytes(*output).skip(o0.len() as int));
                            assert(o0 + buf_bytes(*output).skip(o0.len() as int) =~= buf_bytes(
                                *output,
                            ));
                        }
                        if can_keep {
                            ParserImpl::Idle.request(cfg, now)
                        } else {
                            Self::flush(cfg, now)
                        }
                    },
                }
            },
            ParserImpl::ReadingBody(rb) => {
                let ReadBody { machine, deadline, progress, response } = rb;
                match progress {
                    BodyProgress::BufferFixed(x) => {
                        let data = buf_range_vec(input, 0, x);
                        let mut resp = response;
                        let m1 = match machine {
                            Some(m) => m.request_received(data.as_slice(), &mut resp, output),
                            None => None,
                        };
                        buf_consume(input, x);
                        Self::complete(m1, resp, deadline, cfg, now)
                    },
                    BodyProgress::BufferEOF(_) => {
                        // Only the end-of-stream event advances this state;
                        // the event contract excludes it here.
                        proof {
                            assert(false);
                        }
                        Self::flush(cfg, now)
                    },
                    BodyProgress::BufferChunked(lim, off, rem) => {
                        if rem == 0 {
                            let n = buf_len(input);
                            assert(end + 2 <= n);
                            let lf = buf_range_vec(input, off, end);
                            let ce = match find1(&lf, SEMI, 0, lf.len()) {
                                Some(k) => k,
                                None => lf.len(),
                            };
                            let line = copy_range(&lf, 0, ce);
                            proof {
                                assert(line@ == spec_chunk_line(i0, off as int, end as int));
                            }
                            if end == off {
                                // Stray CRLF left by the previous chunk.
                                buf_remove_range(input, off, off + 2);
                                ParserImpl::ReadingBody(
                                    ReadBody {
                                        machine,
                                        deadline,
                                        progress: BodyProgress::BufferChunked(lim, off, 0),
                                        response,
                                    },
                                ).request(cfg, now)
                            } else {
                                match parse_hex(&line) {
                                    None => {
                                        buf_consume(input, end + 2);
                                        let mut resp = response;
                                        match machine {
                                            Some(m) => m.bad_request(&mut resp, output),
                                            None => (),
                                        }
                                        let ghost o_mid = buf_bytes(*output);
                                        let r = Self::bad_request(resp, output, cfg, now);
                                        proof {
                                            lemma_prefix_append(o_mid, spec_error_page(400));
                                            lemma_prefix_trans(o0, o_mid, buf_bytes(*output));
                                        }
                                        r
                                    },
                                    Some(sz) => {
                                        if sz == 0 {
                                            buf_remove_range(input, off, end + 2);
                                            let data = buf_range_vec(input, 0, off);
                                            let mut resp = response;
                                            let m1 = match machine {
                                                Some(m) => m.request_received(
                                                    data.as_slice(),
                                                    &mut resp,
                                                    output,
                                                ),
                                                None => None,
                                            };
                                            buf_consume(input, off);
                                            proof {
                                                assert(buf_bytes(*input) =~= i0.skip(
                                                    end as int + 2,
                                                ));
                                            }
                                            Self::complete(m1, resp, deadline, cfg, now)
                                        } else if sz > (lim - off) as u64 {
                                            // The chunk would overflow the
                                            // buffered capacity.
                                            buf_consume(input, end + 2);
                                            let mut resp = response;
                                            match machine {
                                                Some(m) => m.bad_request(&mut resp, output),
                                                None => (),
                                            }
                                            let ghost o_mid = buf_bytes(*output);
                                            let r = Self::bad_request(resp, output, cfg, now);
                                            proof {
                                                lemma_prefix_append(o_mid, spec_error_page(400));
                                                lemma_prefix_trans(
                                                    o0,
                                                    o_mid,
                                                    buf_bytes(*output),
                                                );
                                            }
                                            r
                                        } else {
                                            buf_remove_range(input, off, end + 2);
                                            ParserImpl::ReadingBody(
                                                ReadBody {
                                                    machine,
                                                    deadline,
                                                    progress: BodyProgress::BufferChunked(
                                                        lim,
                                                        off,
                                                        sz as usize,
                                                    ),
                                                    response,
                                                },
                                            ).request(cfg, now)
                                        }
                                    },
                                }
                            }
                        } else {
                            // The chunk's payload has arrived; it now counts
                            // as part of the accumulated body prefix.
                            ParserImpl::ReadingBody(
                                ReadBody {
                                    machine,
                                    deadline,
                                    progress: BodyProgress::BufferChunked(lim, off + rem, 0),
                                    response,
                                },
                            ).request(cfg, now)
                        }
                    },
                    BodyProgress::ProgressiveFixed(hint, left) => {
                        let ln = buf_len(input);
                        let real_bytes: usize = if (ln as u64) <= left {
                            ln
                        } else {
                            left as usize
                        };
                        let data = buf_range_vec(input, 0, real_bytes);
                        let mut resp = response;
                        let m1 = match machine {
                            Some(m) => m.request_chunk(data.as_slice(), &mut resp, output),
                            None => None,
                        };
                        buf_consume(input, real_bytes);
                        let left2 = left - real_bytes as u64;
                        if left2 == 0 {
                            let m2 = match m1 {
                                Some(m) => m.request_end(&mut resp, output),
                                None => None,
                            };
                            proof {
                                lemma_prefix_trans(
                                    o0,
                                    buf_bytes(*output),
                                    buf_bytes(*output),
                                );
                            }
                            Self::complete(m2, resp, deadline, cfg, now)
                        } else {
                            ParserImpl::ReadingBody(
                                ReadBody {
                                    machine: m1,
                                    deadline,
                                    progress: BodyProgress::ProgressiveFixed(hint, left2),
                                    response: resp,
                                },
                            ).request(cfg, now)
                        }
                    },
                    BodyProgress::ProgressiveEOF(hint) => {
                        let ln = buf_len(input);
                        let data = buf_range_vec(input, 0, ln);
                        let mut resp = response;
                        let m1 = match machine {
                            Some(m) => m.request_chunk(data.as_slice(), &mut resp, output),
                            None => None,
                        };
                        buf_consume(input, ln);
                        ParserImpl::ReadingBody(
                            ReadBody {
                                machine: m1,
                                deadline,
                                progress: BodyProgress::ProgressiveEOF(hint),
                                response: resp,
                            },
                        ).request(cfg, now)
                    },
                    BodyProgress::ProgressiveChunked(hint, off, left) => {
                        if left == 0 {
                            let n = buf_len(input);
                            assert(end + 2 <= n);
                            let lf = buf_range_vec(input, off, end);
                            let ce = match find1(&lf, SEMI, 0, lf.len()) {
                                Some(k) => k,
                                None => lf.len(),
                            };
                            let line = copy_range(&lf, 0, ce);
                            proof {
                                assert(line@ == spec_chunk_line(i0, off as int, end as int));
                            }
                            if end == off {
                                buf_remove_range(input, off, off + 2);
                                ParserImpl::ReadingBody(
                                    ReadBody {
                                        machine,
                                        deadline,
                                        progress: BodyProgress::ProgressiveChunked(hint, off, 0),
                                        response,
                                    },
                                ).request(cfg, now)
                            } else {
                                match parse_hex(&line) {
                                    None => {
                                        buf_consume(input, end + 2);
                                        let mut resp = response;
                                        match machine {
                                            Some(m) => m.bad_request(&mut resp, output),
                                            None => (),
                                        }
                                        let ghost o_mid = buf_bytes(*output);
                                        let r = Self::bad_request(resp, output, cfg, now);
                                        proof {
                                            lemma_prefix_append(o_mid, spec_error_page(400));
                                            lemma_prefix_trans(o0, o_mid, buf_bytes(*output));
                                        }
                                        r
                                    },
                                    Some(sz) => {
                                        if sz == 0 {
                                            buf_remove_range(input, off, end + 2);
                                            let data = buf_range_vec(input, 0, off);
                                            let mut resp = response;
                                            let m1 = match machine {
                                                Some(m) => m.request_received(
                                                    data.as_slice(),
                                                    &mut resp,
                                                    output,
                                                ),
                                                None => None,
                                            };
                                            buf_consume(input, off);
                                            proof {
                                                assert(buf_bytes(*input) =~= i0.skip(
                                                    end as int + 2,
                                                ));
                                            }
                                            Self::complete(m1, resp, deadline, cfg, now)
                                        } else {
                                            buf_remove_range(input, off, end + 2);
                                            ParserImpl::ReadingBody(
                                                ReadBody {
                                                    machine,
                                                    deadline,
                                                    progress: BodyProgress::ProgressiveChunked(
                                                        hint,
                                                        off,
                                                        sz,
                                                    ),
                                                    response,
                                                },
                                            ).request(cfg, now)
                                        }
                                    },
                                }
                            }
                        } else {
                            let ln_buf = buf_len(input);
                            let ln: usize = if left <= ((ln_buf - off) as u64) {
                                off + left as usize
                            } else {
                                ln_buf
                            };
                            let left2 = left - ((ln - off) as u64);
                            if ln < hint {
                                ParserImpl::ReadingBody(
                                    ReadBody {
                                        machine,
                                        deadline,
                                        progress: BodyProgress::ProgressiveChunked(
                                            hint,
                                            ln,
                                            left2,
                                        ),
                                        response,
                                    },
                                ).request(cfg, now)
                            } else {
                                let data = buf_range_vec(input, 0, ln);
                                let mut resp = response;
                                let m1 = match machine {
                                    Some(m) => m.request_chunk(data.as_slice(), &mut resp, output),
                                    None => None,
                                };
                                buf_consume(input, ln);
                                ParserImpl::ReadingBody(
                                    ReadBody {
                                        machine: m1,
                                        deadline,
                                        progress: BodyProgress::ProgressiveChunked(
                                            hint,
                                            0,
                                            left2,
                                        ),
                                        response: resp,
                                    },
                                ).request(cfg, now)
                            }
                        }
                    },
                }
            },
            ParserImpl::Processing(m, rsp, d) => Some(
                (Parser(ParserImpl::Processing(m, rsp, d)), Expectation::Sleep, d),
            ),
            ParserImpl::DoneResponse => ParserImpl::DoneResponse.request(cfg, now),
        }
    }

    /// An out-of-band transport event: an expectation limit was exceeded,
    /// the peer closed the stream, or the socket failed.
    pub fn exception(
        self,
        input: &mut netbuf::Buf,
        output: &mut netbuf::Buf,
        exc: Exception,
        cfg: &Config,
        now: u64,
    ) -> (r: Option<(Parser<M>, Expectation, u64)>)
        requires
            cfg.wf(),
            self.wf(*cfg),
            exc is LimitReached ==> spec_limit_event_ok(self.0),
            exc is EndOfStream ==> !(self.0 is Processing),
        ensures
            r matches Some(t) ==> t.0.wf(*cfg),
            r matches Some(t) ==> t.1 == spec_state_expectation(t.0.0) && t.2
                == spec_state_deadline(t.0.0, *cfg, now),
            buf_bytes(*final(input)) == buf_bytes(*old(input)) || buf_bytes(*final(input))
                == Seq::<u8>::empty(),
            buf_bytes(*old(output)).is_prefix_of(buf_bytes(*final(output))),
            exc is ReadError ==> (r is None && buf_bytes(*final(input)) == buf_bytes(*old(input))
                && buf_bytes(*final(output)) == buf_bytes(*old(output))),
            exc is WriteError ==> (r is None && buf_bytes(*final(input)) == buf_bytes(*old(input))
                && buf_bytes(*final(output)) == buf_bytes(*old(output))),
            exc is EndOfStream ==> ((self.0 is Idle || self.0 is ReadHeaders || self.0
                is DoneResponse) ==> (r is None && buf_bytes(*final(input)) == buf_bytes(
                *old(input),
            ) && buf_bytes(*final(output)) == buf_bytes(*old(output)))),
            exc is EndOfStream ==> (self.0 matches ParserImpl::ReadingBody(rb) ==> (
            match rb.progress {
                BodyProgress::BufferEOF(_) | BodyProgress::ProgressiveEOF(_) => {
                    &&& buf_bytes(*final(input)) == Seq::<u8>::empty()
                    &&& r is Some
                    &&& (r matches Some(t) ==> spec_completion_post(t, rb.deadline))
                },
                _ => {
                    // A truncated request: close after the error flush.
                    &&& buf_bytes(*final(input)) == buf_bytes(*old(input))
                    &&& (r matches Some(t) && t.0.0 is DoneResponse && t.1 == Expectation::Flush(
                        0,
                    ))
                    &&& (!rb.response.spec_started() ==> buf_bytes(*final(output)) == buf_bytes(
                        *old(output),
                    ) + spec_error_page(400))
                    &&& (rb.response.spec_started() ==> buf_bytes(*final(output)) == buf_bytes(
                        *old(output),
                    ))
                },
            })),
            exc is LimitReached ==> (self.0 is ReadHeaders ==> (r matches Some(t) && t.0.0
                is DoneResponse && t.1 == Expectation::Flush(0) && buf_bytes(*final(output))
                == buf_bytes(*old(output)) + spec_error_page(400))),
            exc is LimitReached ==> (self.0 matches ParserImpl::ReadingBody(rb) ==> (
                r matches Some(t) && t.0.0 is DoneResponse && t.1 == Expectation::Flush(0)
                    && buf_bytes(*final(input)) == buf_bytes(*old(input)) && (rb.machine is None
                    && !rb.response.spec_started() ==> buf_bytes(*final(output)) == buf_bytes(
                    *old(output),
                ) + spec_error_page(400)))),
    {
        let ghost i0 = buf_bytes(*input);
        let ghost o0 = buf_bytes(*output);
        let Parser(state) = self;
        match exc {
            Exception::LimitReached => match state {
                ParserImpl::ReadHeaders => Self::raw_bad_request(output, cfg, now),
                ParserImpl::ReadingBody(rb) => {
                    // The chunk-size line outgrew its limit: tell the
                    // handler through its bad-request hook, then close.
                    let mut resp = rb.response;
                    match rb.machine {
                        Some(m) => m.bad_request(&mut resp, output),
                        None => (),
                    }
                    let ghost o_mid = buf_bytes(*output);
                    let r = Self::bad_request(resp, output, cfg, now);
                    proof {
                        lemma_prefix_append(o_mid, spec_error_page(400));
                        lemma_prefix_trans(o0, o_mid, buf_bytes(*output));
                    }
                    r
                },
                _ => Self::flush(cfg, now),
            },
            Exception::EndOfStream => match state {
                ParserImpl::ReadingBody(rb) => {
                    match rb.progress {
                        BodyProgress::BufferEOF(_) | BodyProgress::ProgressiveEOF(_) => {
                            let ln = buf_len(input);
                            let mut resp = rb.response;
                            let mut m = rb.machine;
                            if ln > 0 {
                                let data = buf_range_vec(input, 0, ln);
                                m = match m {
                                    Some(mm) => mm.request_chunk(
                                        data.as_slice(),
                                        &mut resp,
                                        output,
                                    ),
                                    None => None,
                                };
                                buf_consume(input, ln);
                            }
                            let m2 = match m {
                                Some(mm) => mm.request_end(&mut resp, output),
                                None => None,
                            };
                            proof {
                                assert(buf_bytes(*input) =~= Seq::<u8>::empty());
                                lemma_prefix_trans(o0, buf_bytes(*output), buf_bytes(*output));
                            }
                            Self::complete(m2, resp, rb.deadline, cfg, now)
                        },
                        _ => Self::bad_request(rb.response, output, cfg, now),
                    }
                },
                _ => None,
            },
            Exception::ReadError => None,
            Exception::WriteError => None,
        }
    }
}

} // verus!
