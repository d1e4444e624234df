//! End-to-end runs of the connection state machine, with handlers that echo
//! every delivered body byte into the response so deliveries are observable
//! in the output queue.

use http1_conn::head::Head;
use http1_conn::parser::{after_selection, BodyProgress, Parser, ParserImpl};
use http1_conn::protocol::{Config, Exception, Expectation, Needle, RecvMode, Server};
use http1_conn::response::Response;
use netbuf::Buf;

fn cfg() -> Config {
    Config { byte_timeout: 10, max_buf_size: 4096 }
}

fn find_sub(buf: &Buf, needle: &[u8], from: usize) -> Option<usize> {
    let data = &buf[..];
    if data.len() < needle.len() {
        return None;
    }
    (from..=data.len() - needle.len()).find(|&i| &data[i..i + needle.len()] == needle)
}

/// Feed events as the transport would until the expectation cannot be met
/// from the buffered input.
fn drive<M: Server>(
    mut p: Parser<M>,
    inp: &mut Buf,
    out: &mut Buf,
    mut exp: Expectation,
) -> (Parser<M>, Expectation) {
    loop {
        let end = match exp {
            Expectation::Bytes(n) => {
                if n > 0 && inp.len() >= n {
                    n
                } else {
                    return (p, exp);
                }
            }
            Expectation::Delimiter(off, Needle::Crlf, _) => match find_sub(inp, b"\r\n", off) {
                Some(e) => e,
                None => return (p, exp),
            },
            Expectation::Delimiter(off, Needle::CrlfCrlf, _) => {
                match find_sub(inp, b"\r\n\r\n", off) {
                    Some(e) => e,
                    None => return (p, exp),
                }
            }
            _ => return (p, exp),
        };
        match p.bytes_read(inp, out, end, &cfg(), 0) {
            Some((p2, e2, _)) => {
                p = p2;
                exp = e2;
            }
            None => panic!("bytes_read closed the connection"),
        }
        if matches!(p.0, ParserImpl::Processing(..) | ParserImpl::DoneResponse) {
            return (p, exp);
        }
    }
}

fn run<M: Server>(input: &[u8]) -> (Parser<M>, Expectation, Buf, Buf) {
    let (p, exp, _) = Parser::<M>::create(&cfg(), 0).unwrap();
    let mut inp = Buf::new();
    let mut out = Buf::new();
    inp.extend(input);
    let (p, exp) = drive(p, &mut inp, &mut out, exp);
    (p, exp, inp, out)
}

/// Buffered handler: echoes the whole body, finishes, abandons the machine.
struct EchoBuf;

impl Server for EchoBuf {
    fn headers_received(_head: &Head, _cfg: &Config) -> Result<(Self, RecvMode, u64), u16> {
        Ok((EchoBuf, RecvMode::Buffered(1024), 1000))
    }
    fn request_start(self, _h: Head, _r: &mut Response, _o: &mut Buf) -> Option<Self> {
        Some(self)
    }
    fn request_received(self, data: &[u8], resp: &mut Response, out: &mut Buf) -> Option<Self> {
        resp.write_raw(out, data);
        resp.finish();
        None
    }
    fn request_chunk(self, _d: &[u8], _r: &mut Response, _o: &mut Buf) -> Option<Self> {
        Some(self)
    }
    fn request_end(self, resp: &mut Response, out: &mut Buf) -> Option<Self> {
        resp.write_raw(out, b"");
        resp.finish();
        None
    }
    fn bad_request(self, _r: &mut Response, _o: &mut Buf) {}
}

/// Progressive handler with a 4-byte hint: echoes every piece, finishes at
/// the terminal callback, abandons the machine.
struct EchoProg;

impl Server for EchoProg {
    fn headers_received(_head: &Head, _cfg: &Config) -> Result<(Self, RecvMode, u64), u16> {
        Ok((EchoProg, RecvMode::Progressive(4), 1000))
    }
    fn request_start(self, _h: Head, _r: &mut Response, _o: &mut Buf) -> Option<Self> {
        Some(self)
    }
    fn request_received(self, data: &[u8], resp: &mut Response, out: &mut Buf) -> Option<Self> {
        resp.write_raw(out, data);
        resp.finish();
        None
    }
    fn request_chunk(self, data: &[u8], resp: &mut Response, out: &mut Buf) -> Option<Self> {
        resp.write_raw(out, data);
        Some(self)
    }
    fn request_end(self, resp: &mut Response, out: &mut Buf) -> Option<Self> {
        resp.write_raw(out, b"");
        resp.finish();
        None
    }
    fn bad_request(self, _r: &mut Response, _o: &mut Buf) {}
}

/// Progressive handler that stays alive after the body: echoes pieces,
/// marks the end with `E`, and keeps producing the response asynchronously.
struct EchoProgKeep;

impl Server for EchoProgKeep {
    fn headers_received(_head: &Head, _cfg: &Config) -> Result<(Self, RecvMode, u64), u16> {
        Ok((EchoProgKeep, RecvMode::Progressive(4), 1000))
    }
    fn request_start(self, _h: Head, _r: &mut Response, _o: &mut Buf) -> Option<Self> {
        Some(self)
    }
    fn request_received(self, data: &[u8], resp: &mut Response, out: &mut Buf) -> Option<Self> {
        resp.write_raw(out, data);
        Some(self)
    }
    fn request_chunk(self, data: &[u8], resp: &mut Response, out: &mut Buf) -> Option<Self> {
        resp.write_raw(out, data);
        Some(self)
    }
    fn request_end(self, resp: &mut Response, out: &mut Buf) -> Option<Self> {
        resp.write_raw(out, b"E");
        Some(self)
    }
    fn bad_request(self, _r: &mut Response, _o: &mut Buf) {}
}

/// A handler that rejects every request at selection time.
struct Reject403;

impl Server for Reject403 {
    fn headers_received(_head: &Head, _cfg: &Config) -> Result<(Self, RecvMode, u64), u16> {
        Err(403)
    }
    fn request_start(self, _h: Head, _r: &mut Response, _o: &mut Buf) -> Option<Self> {
        None
    }
    fn request_received(self, _d: &[u8], _r: &mut Response, _o: &mut Buf) -> Option<Self> {
        None
    }
    fn request_chunk(self, _d: &[u8], _r: &mut Response, _o: &mut Buf) -> Option<Self> {
        None
    }
    fn request_end(self, _r: &mut Response, _o: &mut Buf) -> Option<Self> {
        None
    }
    fn bad_request(self, _r: &mut Response, _o: &mut Buf) {}
}

/// A handler that declares a zero-byte buffered capacity.
struct ZeroCap;

impl Server for ZeroCap {
    fn headers_received(_head: &Head, _cfg: &Config) -> Result<(Self, RecvMode, u64), u16> {
        Ok((ZeroCap, RecvMode::Buffered(0), 1000))
    }
    fn request_start(self, _h: Head, _r: &mut Response, _o: &mut Buf) -> Option<Self> {
        Some(self)
    }
    fn request_received(self, _d: &[u8], _r: &mut Response, _o: &mut Buf) -> Option<Self> {
        None
    }
    fn request_chunk(self, _d: &[u8], _r: &mut Response, _o: &mut Buf) -> Option<Self> {
        None
    }
    fn request_end(self, _r: &mut Response, _o: &mut Buf) -> Option<Self> {
        None
    }
    fn bad_request(self, _r: &mut Response, _o: &mut Buf) {}
}

#[test]
fn fixed_buffered_delivery() {
    let (p, exp, inp, out) =
        run::<EchoBuf>(b"GET /x HTTP/1.1\r\nHost: h\r\nContent-Length: 5\r\n\r\nhello");
    // One request_received with the whole body; response written; back to
    // Idle awaiting the next request.
    assert!(matches!(p.0, ParserImpl::Idle));
    assert_eq!(exp, Expectation::Bytes(1));
    assert_eq!(&out[..], b"hello");
    assert_eq!(inp.len(), 0);
}

#[test]
fn chunked_progressive_delivery() {
    let (p, _exp, inp, out) = run::<EchoProg>(
        b"POST / HTTP/1.1\r\nHost: h\r\nTransfer-Encoding: chunked\r\n\r\n5\r\nhello\r\n6\r\n world\r\n0\r\n\r\n",
    );
    // All decoded bytes in order, then the terminal empty delivery.
    assert_eq!(&out[..], b"hello world");
    assert!(matches!(p.0, ParserImpl::Idle | ParserImpl::ReadHeaders));
    // Nothing but the trailer's final CRLF may remain buffered.
    assert!(inp.len() <= 2);
}

#[test]
fn chunked_buffered_delivery() {
    struct BufChunk;
    impl Server for BufChunk {
        fn headers_received(_h: &Head, _c: &Config) -> Result<(Self, RecvMode, u64), u16> {
            Ok((BufChunk, RecvMode::Buffered(1024), 1000))
        }
        fn request_start(self, _h: Head, _r: &mut Response, _o: &mut Buf) -> Option<Self> {
            Some(self)
        }
        fn request_received(self, data: &[u8], resp: &mut Response, out: &mut Buf) -> Option<Self> {
            resp.write_raw(out, data);
            resp.finish();
            None
        }
        fn request_chunk(self, _d: &[u8], _r: &mut Response, _o: &mut Buf) -> Option<Self> {
            Some(self)
        }
        fn request_end(self, _r: &mut Response, _o: &mut Buf) -> Option<Self> {
            None
        }
        fn bad_request(self, _r: &mut Response, _o: &mut Buf) {}
    }
    let (p, _exp, _inp, out) = run::<BufChunk>(
        b"POST / HTTP/1.1\r\nHost: h\r\nTransfer-Encoding: chunked\r\n\r\n5\r\nhello\r\n6\r\n world\r\n0\r\n\r\n",
    );
    // The whole decoded body arrives in one request_received call.
    assert_eq!(&out[..], b"hello world");
    assert!(matches!(p.0, ParserImpl::Idle | ParserImpl::ReadHeaders));
}

#[test]
fn oversized_header_closes() {
    let mut big: Vec<u8> = b"GET / HTTP/1.1\r\nX-Pad: ".to_vec();
    big.extend(std::iter::repeat(b'a').take(65 * 1024));
    let (p, exp, mut inp, mut out) = run::<EchoBuf>(&big);
    // No CRLF-CRLF within MAX_HEADERS_SIZE: the transport reports the limit.
    assert!(matches!(p.0, ParserImpl::ReadHeaders));
    let (p, exp2, _) = p
        .exception(&mut inp, &mut out, Exception::LimitReached, &cfg(), 0)
        .unwrap();
    assert!(matches!(p.0, ParserImpl::DoneResponse));
    assert_eq!(exp2, Expectation::Flush(0));
    assert!(out[..].starts_with(b"HTTP/1.1 400"));
    // After the flush the connection closes.
    assert!(p.bytes_flushed(&cfg(), 0).is_none());
    let _ = exp;
}

#[test]
fn declared_body_too_large() {
    let (p, exp, _inp, out) =
        run::<EchoBuf>(b"POST / HTTP/1.1\r\nHost: h\r\nContent-Length: 4096\r\n\r\n");
    // 4096 >= the declared Buffered(1024) capacity: 413, no body callback,
    // close after flush (the body is non-empty).
    assert!(matches!(p.0, ParserImpl::DoneResponse));
    assert_eq!(exp, Expectation::Flush(0));
    assert_eq!(&out[..], b"HTTP/1.1 413 Payload Too Large\r\ncontent-length: 0\r\n\r\n");
    assert!(p.bytes_flushed(&cfg(), 0).is_none());
}

#[test]
fn expect_continue_accepted() {
    let (p, _exp, _inp, out) = run::<EchoBuf>(
        b"PUT / HTTP/1.1\r\nHost: h\r\nContent-Length: 3\r\nExpect: 100-continue\r\n\r\nabc",
    );
    // The interim status goes out before any application response bytes.
    assert_eq!(&out[..], b"HTTP/1.1 100 Continue\r\n\r\nabc");
    assert!(matches!(p.0, ParserImpl::Idle));
}

#[test]
fn no_expect_no_continue_line() {
    let (_p, _exp, _inp, out) =
        run::<EchoBuf>(b"PUT / HTTP/1.1\r\nHost: h\r\nContent-Length: 3\r\n\r\nabc");
    assert_eq!(&out[..], b"abc");
    assert!(find_sub(&out, b"100 Continue", 0).is_none());
}

#[test]
fn eof_framed_body_trickles() {
    // HTTP/1.0 without content-length reads until end of stream.
    let (p, exp, mut inp, mut out) = run::<EchoProgKeep>(b"POST / HTTP/1.0\r\nHost: h\r\n\r\n");
    assert!(matches!(
        p.0,
        ParserImpl::ReadingBody(ref rb) if matches!(rb.progress, BodyProgress::ProgressiveEOF(4))
    ));
    assert_eq!(exp, Expectation::Bytes(4));
    // Bytes trickle in across multiple events.
    inp.extend(b"ab");
    let (p, _e, _) = p.bytes_read(&mut inp, &mut out, 2, &cfg(), 0).unwrap();
    inp.extend(b"cd");
    let (p, _e, _) = p.bytes_read(&mut inp, &mut out, 2, &cfg(), 0).unwrap();
    assert_eq!(&out[..], b"abcd");
    assert_eq!(inp.len(), 0);
    // The socket closes cleanly: remaining bytes flushed, one request_end,
    // then Processing awaits response completion.
    let (p, exp, _) = p
        .exception(&mut inp, &mut out, Exception::EndOfStream, &cfg(), 0)
        .unwrap();
    assert_eq!(&out[..], b"abcdE");
    assert!(matches!(p.0, ParserImpl::Processing(..)));
    assert_eq!(exp, Expectation::Sleep);
    // The response is not complete yet, so a wakeup keeps sleeping.
    let (p, exp, _) = p.wakeup(&cfg(), 0).unwrap();
    assert!(matches!(p.0, ParserImpl::Processing(..)));
    assert_eq!(exp, Expectation::Sleep);
}

#[test]
fn handler_rejection_closes() {
    let (p, exp, _inp, out) = run::<Reject403>(b"GET / HTTP/1.1\r\nHost: h\r\n\r\n");
    // The handler was never created: close after the error flush, even
    // though the declared body is empty.
    assert!(matches!(p.0, ParserImpl::DoneResponse));
    assert_eq!(exp, Expectation::Flush(0));
    assert!(out[..].starts_with(b"HTTP/1.1 403"));
    assert!(p.bytes_flushed(&cfg(), 0).is_none());
}

#[test]
fn malformed_head_closes() {
    let (p, _exp, _inp, out) = run::<EchoBuf>(b"GARBAGE\r\nmore\r\n\r\n");
    assert!(matches!(p.0, ParserImpl::DoneResponse));
    assert!(out[..].starts_with(b"HTTP/1.1 400"));
    assert!(p.bytes_flushed(&cfg(), 0).is_none());
}

#[test]
fn nonempty_body_after_error_closes() {
    // Declared non-empty body plus a handler rejection: never recycled.
    let (p, _exp, _inp, out) =
        run::<Reject403>(b"POST / HTTP/1.1\r\nHost: h\r\nContent-Length: 3\r\n\r\nabc");
    assert!(matches!(p.0, ParserImpl::DoneResponse));
    assert!(out[..].starts_with(b"HTTP/1.1 403"));
    assert!(p.bytes_flushed(&cfg(), 0).is_none());
}

#[test]
fn empty_body_rejection_can_recycle() {
    // The one recyclable failure: the request parsed, its declared body is
    // empty, and the error response was written (a zero-capacity buffered
    // choice rejects even an empty body with 413).
    let (p, exp, _inp, out) = run::<ZeroCap>(b"GET / HTTP/1.1\r\nHost: h\r\n\r\n");
    assert!(out[..].starts_with(b"HTTP/1.1 413"));
    assert!(matches!(p.0, ParserImpl::Idle | ParserImpl::ReadHeaders));
    let _ = exp;
}

#[test]
fn malformed_chunk_size_closes() {
    let (p, _exp, _inp, out) = run::<EchoProg>(
        b"POST / HTTP/1.1\r\nHost: h\r\nTransfer-Encoding: chunked\r\n\r\nzz\r\n",
    );
    assert!(matches!(p.0, ParserImpl::DoneResponse));
    assert!(out[..].starts_with(b"HTTP/1.1 400"));
}

#[test]
fn oversized_chunk_closes() {
    struct TinyBufChunk;
    impl Server for TinyBufChunk {
        fn headers_received(_h: &Head, _c: &Config) -> Result<(Self, RecvMode, u64), u16> {
            Ok((TinyBufChunk, RecvMode::Buffered(4), 1000))
        }
        fn request_start(self, _h: Head, _r: &mut Response, _o: &mut Buf) -> Option<Self> {
            Some(self)
        }
        fn request_received(self, _d: &[u8], _r: &mut Response, _o: &mut Buf) -> Option<Self> {
            None
        }
        fn request_chunk(self, _d: &[u8], _r: &mut Response, _o: &mut Buf) -> Option<Self> {
            None
        }
        fn request_end(self, _r: &mut Response, _o: &mut Buf) -> Option<Self> {
            None
        }
        fn bad_request(self, _r: &mut Response, _o: &mut Buf) {}
    }
    // An 8-byte chunk into a 4-byte buffered capacity.
    let (p, _exp, _inp, out) = run::<TinyBufChunk>(
        b"POST / HTTP/1.1\r\nHost: h\r\nTransfer-Encoding: chunked\r\n\r\n8\r\nabcdefgh\r\n0\r\n\r\n",
    );
    assert!(matches!(p.0, ParserImpl::DoneResponse));
    assert!(out[..].starts_with(b"HTTP/1.1 400"));
}

#[test]
fn truncated_fixed_body_closes() {
    let (p, _exp, mut inp, mut out) =
        run::<EchoBuf>(b"POST / HTTP/1.1\r\nHost: h\r\nContent-Length: 10\r\n\r\nabc");
    assert!(matches!(p.0, ParserImpl::ReadingBody(_)));
    let (p, exp, _) = p
        .exception(&mut inp, &mut out, Exception::EndOfStream, &cfg(), 0)
        .unwrap();
    // Truncated outside EOF framing: 400, close.
    assert!(matches!(p.0, ParserImpl::DoneResponse));
    assert_eq!(exp, Expectation::Flush(0));
    assert!(out[..].starts_with(b"HTTP/1.1 400"));
}

#[test]
fn clean_eof_between_requests() {
    let (p, _exp, mut inp, mut out) = run::<EchoBuf>(b"");
    assert!(matches!(p.0, ParserImpl::Idle));
    assert!(p
        .exception(&mut inp, &mut out, Exception::EndOfStream, &cfg(), 0)
        .is_none());
}

#[test]
fn read_and_write_errors_close() {
    let (p, _exp, mut inp, mut out) = run::<EchoBuf>(b"");
    assert!(p
        .exception(&mut inp, &mut out, Exception::ReadError, &cfg(), 0)
        .is_none());
    let (p2, _exp, mut inp2, mut out2) = run::<EchoBuf>(b"");
    assert!(p2
        .exception(&mut inp2, &mut out2, Exception::WriteError, &cfg(), 0)
        .is_none());
}

#[test]
fn timeout_closes() {
    let (p, _exp, _inp, _out) = run::<EchoBuf>(b"");
    assert!(p.timeout().is_none());
}

#[test]
fn two_requests_on_one_connection() {
    let (p, exp, mut inp, mut out) =
        run::<EchoBuf>(b"GET /a HTTP/1.1\r\nHost: h\r\nContent-Length: 2\r\n\r\nhi");
    assert!(matches!(p.0, ParserImpl::Idle));
    assert_eq!(&out[..], b"hi");
    // A second request arrives on the recycled connection.
    inp.extend(b"GET /b HTTP/1.1\r\nHost: h\r\nContent-Length: 3\r\n\r\nyo!");
    let (p, _exp) = drive(p, &mut inp, &mut out, exp);
    assert!(matches!(p.0, ParserImpl::Idle));
    assert_eq!(&out[..], b"hiyo!");
}

#[test]
fn progressive_fixed_delivery() {
    let (p, _exp, inp, out) =
        run::<EchoProg>(b"POST / HTTP/1.1\r\nHost: h\r\nContent-Length: 10\r\n\r\n0123456789");
    // Pieces of roughly the hint size, total order preserved, one terminal
    // request_end.
    assert_eq!(&out[..], b"0123456789");
    assert!(matches!(p.0, ParserImpl::Idle));
    assert_eq!(inp.len(), 0);
}

#[test]
fn spurious_events_reassert() {
    let (p, _exp, mut inp, mut out) = run::<EchoProgKeep>(
        b"POST / HTTP/1.0\r\nHost: h\r\n\r\nxyzw",
    );
    assert!(matches!(p.0, ParserImpl::Processing(..)) == false);
    // Processing is reached via end-of-stream; drive a body first.
    let (p, _e, _) = p
        .exception(&mut inp, &mut out, Exception::EndOfStream, &cfg(), 0)
        .unwrap();
    assert!(matches!(p.0, ParserImpl::Processing(..)));
    // A spurious bytes_arrived during Processing re-asserts the sleep.
    let (p, exp, _) = p.bytes_read(&mut inp, &mut out, 0, &cfg(), 0).unwrap();
    assert!(matches!(p.0, ParserImpl::Processing(..)));
    assert_eq!(exp, Expectation::Sleep);
    // bytes_flushed outside DoneResponse re-asserts as well.
    let (p, exp, _) = p.bytes_flushed(&cfg(), 0).unwrap();
    assert!(matches!(p.0, ParserImpl::Processing(..)));
    assert_eq!(exp, Expectation::Sleep);
}

#[test]
fn chunk_extensions_are_ignored() {
    let (p, _exp, _inp, out) = run::<EchoProg>(
        b"POST / HTTP/1.1\r\nHost: h\r\nTransfer-Encoding: chunked\r\n\r\n5;name=val\r\nhello\r\n0\r\n\r\n",
    );
    assert_eq!(&out[..], b"hello");
    assert!(matches!(p.0, ParserImpl::Idle | ParserImpl::ReadHeaders));
}

fn head_of(bytes: &[u8]) -> Head {
    http1_conn::head::parse_head(&bytes.to_vec()).expect("head should parse")
}

#[test]
fn selection_rejection_writes_clamped_page() {
    let head = head_of(b"GET / HTTP/1.1\r\nHost: h\r\n\r\n");
    let mut out = Buf::new();
    let r = after_selection::<EchoBuf>(head, Err(42), &mut out, &cfg());
    assert!(matches!(r, Err(false)));
    assert!(out[..].starts_with(b"HTTP/1.1 500"));
    let head2 = head_of(b"GET / HTTP/1.1\r\nHost: h\r\n\r\n");
    let mut out2 = Buf::new();
    let r2 = after_selection::<EchoBuf>(head2, Err(403), &mut out2, &cfg());
    assert!(matches!(r2, Err(false)));
    assert!(out2[..].starts_with(b"HTTP/1.1 403"));
}

#[test]
fn selection_too_large_writes_413() {
    let head = head_of(b"POST / HTTP/1.1\r\nHost: h\r\nContent-Length: 4096\r\n\r\n");
    let mut out = Buf::new();
    let r = after_selection(head, Ok((EchoBuf, RecvMode::Buffered(1024), 7)), &mut out, &cfg());
    assert!(matches!(r, Err(false)));
    assert_eq!(&out[..], b"HTTP/1.1 413 Payload Too Large\r\ncontent-length: 0\r\n\r\n");
}

#[test]
fn selection_unservable_mode_writes_500() {
    let head = head_of(b"GET / HTTP/1.1\r\nHost: h\r\n\r\n");
    let mut out = Buf::new();
    let r = after_selection(head, Ok((EchoBuf, RecvMode::Progressive(0), 7)), &mut out, &cfg());
    assert!(matches!(r, Err(false)));
    assert!(out[..].starts_with(b"HTTP/1.1 500"));
}

#[test]
fn selection_accept_carries_mode_and_deadline() {
    let head = head_of(b"POST / HTTP/1.1\r\nHost: h\r\nContent-Length: 5\r\n\r\n");
    let mut out = Buf::new();
    let r = after_selection(head, Ok((EchoBuf, RecvMode::Buffered(1024), 77)), &mut out, &cfg());
    match r {
        Ok(rb) => {
            assert_eq!(rb.progress, BodyProgress::BufferFixed(5));
            assert_eq!(rb.deadline, 77);
            assert!(rb.machine.is_some());
        }
        Err(_) => panic!("selection should be accepted"),
    }
    assert_eq!(out.len(), 0);
}

#[test]
fn chunk_limit_reports_through_hook() {
    struct HookProg;
    impl Server for HookProg {
        fn headers_received(_h: &Head, _c: &Config) -> Result<(Self, RecvMode, u64), u16> {
            Ok((HookProg, RecvMode::Progressive(4), 1000))
        }
        fn request_start(self, _h: Head, _r: &mut Response, _o: &mut Buf) -> Option<Self> {
            Some(self)
        }
        fn request_received(self, _d: &[u8], _r: &mut Response, _o: &mut Buf) -> Option<Self> {
            None
        }
        fn request_chunk(self, _d: &[u8], _r: &mut Response, _o: &mut Buf) -> Option<Self> {
            Some(self)
        }
        fn request_end(self, _r: &mut Response, _o: &mut Buf) -> Option<Self> {
            None
        }
        fn bad_request(self, resp: &mut Response, out: &mut Buf) {
            resp.write_raw(out, b"B");
            resp.finish();
        }
    }
    // Head only; the chunk-size line then outgrows its limit.
    let (p, _exp, mut inp, mut out) =
        run::<HookProg>(b"POST / HTTP/1.1\r\nHost: h\r\nTransfer-Encoding: chunked\r\n\r\n");
    assert!(matches!(p.0, ParserImpl::ReadingBody(_)));
    let (p, exp, _) = p
        .exception(&mut inp, &mut out, Exception::LimitReached, &cfg(), 0)
        .unwrap();
    // The handler's hook ran (and chose the whole response), then close.
    assert!(matches!(p.0, ParserImpl::DoneResponse));
    assert_eq!(exp, Expectation::Flush(0));
    assert_eq!(&out[..], b"B");
}
