//! Proved properties of the body-advancement step, stated over the step
//! relation [`spec_body_step_post`]: consumption accounting, bound
//! enforcement, and preservation of chunk payloads through the chunked
//! framing cycle.

use crate::head::{all_hex, hex_val, is_hex_digit, spec_find1, spec_hex_value, spec_parse_hex, CR, LF};
use crate::parser::{
    spec_body_step_post, spec_chunk_size, spec_delim_event, spec_event_ok,
    spec_progress_expectation, BodyProgress, Parser, ParserImpl, ReadBody, SEMI,
};
use crate::protocol::{Config, Expectation, Needle};
use crate::MAX_CHUNK_HEAD;
use vstd::prelude::*;

verus! {

/// Bytes handed to the handler by one `bytes_arrived` step.
pub open spec fn spec_step_delivered(p: BodyProgress, i0: Seq<u8>, end: int) -> int {
    match p {
        BodyProgress::BufferFixed(x) => x as int,
        BodyProgress::BufferEOF(_) => 0,
        BodyProgress::BufferChunked(_, off, rem) => if rem == 0 {
            if end == off {
                0
            } else {
                match spec_chunk_size(i0, off as int, end) {
                    Some(sz) => if sz == 0 {
                        off as int
                    } else {
                        0
                    },
                    None => 0,
                }
            }
        } else {
            0
        },
        BodyProgress::ProgressiveFixed(_, left) => if i0.len() <= left {
            i0.len() as int
        } else {
            left as int
        },
        BodyProgress::ProgressiveEOF(_) => i0.len() as int,
        BodyProgress::ProgressiveChunked(hint, off, left) => if left == 0 {
            if end == off {
                0
            } else {
                match spec_chunk_size(i0, off as int, end) {
                    Some(sz) => if sz == 0 {
                        off as int
                    } else {
                        0
                    },
                    None => 0,
                }
            }
        } else {
            let ln = if off + left <= i0.len() {
                off + left
            } else {
                i0.len() as int
            };
            if ln < hint {
                0
            } else {
                ln
            }
        },
    }
}

/// Framing bytes spliced out of the input queue by one step — the
/// chunk-size line and its CRLF, or the stray CRLF between chunks — plus,
/// on a malformed or oversized chunk-size line, the abandoned prefix that
/// is discarded together with it.
pub open spec fn spec_step_discarded(p: BodyProgress, i0: Seq<u8>, end: int) -> int {
    match p {
        BodyProgress::BufferChunked(lim, off, rem) => if rem == 0 {
            if end == off {
                2
            } else {
                match spec_chunk_size(i0, off as int, end) {
                    Some(sz) => if sz == 0 {
                        end - off + 2
                    } else if off + sz > lim {
                        end + 2
                    } else {
                        end - off + 2
                    },
                    None => end + 2,
                }
            }
        } else {
            0
        },
        BodyProgress::ProgressiveChunked(_, off, left) => if left == 0 {
            if end == off {
                2
            } else {
                match spec_chunk_size(i0, off as int, end) {
                    Some(sz) => if sz == 0 {
                        end - off + 2
                    } else {
                        end - off + 2
                    },
                    None => end + 2,
                }
            }
        } else {
            0
        },
        _ => 0,
    }
}

/// No double-consume: one `bytes_arrived` step removes from the input queue
/// exactly the bytes it delivered to the handler plus the framing bytes it
/// spliced out (on an error, the bytes abandoned with the framing) — no
/// byte is consumed twice and none is skipped.
pub proof fn lemma_no_double_consume<M>(
    rb: ReadBody<M>,
    i0: Seq<u8>,
    i1: Seq<u8>,
    o0: Seq<u8>,
    o1: Seq<u8>,
    end: int,
    r: Option<(Parser<M>, Expectation, u64)>,
    cfg: Config,
)
    requires
        rb.progress.wf(cfg),
        !(rb.progress is BufferEOF),
        spec_event_ok(ParserImpl::ReadingBody(rb), i0, end),
        spec_body_step_post(rb, i0, i1, o0, o1, end, r),
    ensures
        i0.len() == i1.len() + spec_step_delivered(rb.progress, i0, end) + spec_step_discarded(
            rb.progress,
            i0,
            end,
        ),
{
    match rb.progress {
        BodyProgress::BufferFixed(x) => {},
        BodyProgress::BufferEOF(_) => {},
        BodyProgress::BufferChunked(lim, off, rem) => {},
        BodyProgress::ProgressiveFixed(hint, left) => {},
        BodyProgress::ProgressiveEOF(_) => {},
        BodyProgress::ProgressiveChunked(hint, off, left) => {},
    }
}

/// Bound enforcement: a buffered delivery never exceeds the declared
/// capacity held in the cursor, nothing ever delivers more than the
/// transport buffer ceiling, and a chunk-size line is only awaited within
/// `MAX_CHUNK_HEAD` bytes past the accumulated offset.
pub proof fn lemma_bound_enforcement<M>(rb: ReadBody<M>, i0: Seq<u8>, end: int, cfg: Config)
    requires
        cfg.wf(),
        rb.progress.wf(cfg),
        spec_event_ok(ParserImpl::ReadingBody(rb), i0, end),
    ensures
        rb.progress matches BodyProgress::BufferFixed(x) ==> spec_step_delivered(
            rb.progress,
            i0,
            end,
        ) <= x,
        rb.progress matches BodyProgress::BufferChunked(lim, off, rem) ==> spec_step_delivered(
            rb.progress,
            i0,
            end,
        ) <= lim,
        rb.progress is BufferFixed || rb.progress is BufferChunked ==> spec_step_delivered(
            rb.progress,
            i0,
            end,
        ) <= cfg.max_buf_size,
        rb.progress matches BodyProgress::BufferChunked(lim, off, rem) ==> (rem == 0
            ==> spec_progress_expectation(rb.progress) == Expectation::Delimiter(
            off,
            Needle::Crlf,
            (off + MAX_CHUNK_HEAD) as usize,
        )),
        rb.progress matches BodyProgress::ProgressiveChunked(hint, off, left) ==> (left == 0
            ==> spec_progress_expectation(rb.progress) == Expectation::Delimiter(
            off,
            Needle::Crlf,
            (off + MAX_CHUNK_HEAD) as usize,
        )),
{
}

/// `spec_find1` finds nothing when the byte does not occur.
pub proof fn lemma_find1_none(s: Seq<u8>, c: u8, from: int, to: int)
    requires
        forall|j: int| from <= j < to ==> s[j] != c,
    ensures
        spec_find1(s, c, from, to) is None,
    decreases to - from,
{
    if from < to {
        assert(s[from] != c);
        lemma_find1_none(s, c, from + 1, to);
    }
}

/// One chunk moves intact into the accumulated body prefix.  With the input
/// queue holding the accumulated prefix `d`, then a pure-hex size line `s`
/// declaring `c.len()`, CRLF, the chunk payload `c` and its closing CRLF,
/// the size-line step forced by the step relation splices out exactly the
/// size line: the queue becomes `d + c + CRLF + rest` and the cursor waits
/// for `c.len()` more bytes at the same offset.
pub proof fn lemma_chunk_size_line_step<M>(
    rb: ReadBody<M>,
    d: Seq<u8>,
    s: Seq<u8>,
    c: Seq<u8>,
    rest: Seq<u8>,
    lim: usize,
    off: usize,
    i0: Seq<u8>,
    i1: Seq<u8>,
    o0: Seq<u8>,
    o1: Seq<u8>,
    end: int,
    r: Option<(Parser<M>, Expectation, u64)>,
)
    requires
        rb.progress == BodyProgress::BufferChunked(lim, off, 0usize),
        i0 == d + s + seq![CR, LF] + c + seq![CR, LF] + rest,
        d.len() == off,
        s.len() > 0,
        all_hex(s),
        spec_parse_hex(s) == Some(c.len() as u64),
        1 <= c.len(),
        off + c.len() <= lim,
        spec_delim_event(i0, off as int, end),
        spec_body_step_post(rb, i0, i1, o0, o1, end, r),
    ensures
        end == off + s.len(),
        i1 == d + c + seq![CR, LF] + rest,
        r matches Some(t) && t.0.0 matches ParserImpl::ReadingBody(rb2) && rb2.progress
            == BodyProgress::BufferChunked(lim, off, c.len() as usize) && rb2.machine == rb.machine
            && rb2.response == rb.response,
{
    let se = off + s.len();
    // The transport's CRLF is the one closing the size line: hex digits are
    // never CR, so no earlier CRLF exists, and the event excludes a later one.
    assert forall|j: int| off <= j < se implies i0[j] == s[j - off] && is_hex_digit(s[j - off]) by {
        assert(s[j - off] == i0[j]);
        assert(is_hex_digit(s[j - off]));
    }
    assert(i0[se] == CR && i0[se + 1] == LF) by {
        assert(i0[se] == (seq![CR, LF])[0]);
        assert(i0[se + 1] == (seq![CR, LF])[1]);
    }
    if end < se {
        assert(i0[end] == s[end - off]);
        assert(is_hex_digit(s[end - off]));
        assert(false);
    }
    if end > se {
        assert(!(i0[se] == CR && i0[se + 1] == LF));
        assert(false);
    }
    assert(end == se);
    // The size line parsed by the step is exactly `s`.
    let l = i0.subrange(off as int, end);
    assert(l =~= s);
    lemma_find1_none(l, SEMI, 0, l.len() as int);
    assert(spec_chunk_size(i0, off as int, end) == Some(c.len() as u64));
    // And the splice leaves the payload in place.
    assert(i1 =~= d + c + seq![CR, LF] + rest);
}

/// The CRLF closing a chunk is consumed by the following delimiter cycle:
/// with the queue holding the accumulated prefix immediately followed by
/// CRLF, the step splices out just that CRLF and leaves the cursor where it
/// was.
pub proof fn lemma_chunk_trailing_crlf_step<M>(
    rb: ReadBody<M>,
    d: Seq<u8>,
    rest: Seq<u8>,
    lim: usize,
    off: usize,
    i0: Seq<u8>,
    i1: Seq<u8>,
    o0: Seq<u8>,
    o1: Seq<u8>,
    end: int,
    r: Option<(Parser<M>, Expectation, u64)>,
)
    requires
        rb.progress == BodyProgress::BufferChunked(lim, off, 0usize),
        i0 == d + seq![CR, LF] + rest,
        d.len() == off,
        spec_delim_event(i0, off as int, end),
        spec_body_step_post(rb, i0, i1, o0, o1, end, r),
    ensures
        end == off,
        i1 == d + rest,
        r matches Some(t) && t.0.0 matches ParserImpl::ReadingBody(rb2) && rb2 == rb,
{
    assert(i0[off as int] == CR && i0[off as int + 1] == LF) by {
        assert(i0[off as int] == (seq![CR, LF])[0]);
        assert(i0[off as int + 1] == (seq![CR, LF])[1]);
    }
    if end > off {
        assert(!(i0[off as int] == CR && i0[off as int + 1] == LF));
        assert(false);
    }
    assert(end == off);
    assert(i1 =~= d + rest);
}

/// Chunked round-trip, one chunk at a time: a full framing cycle — the
/// size-line event, the payload arriving, and the trailing CRLF consumed by
/// the next delimiter cycle — moves exactly the chunk payload onto the end
/// of the accumulated body prefix.  Nothing of the payload is lost,
/// reordered or duplicated, the handler and response are untouched, and
/// nothing is appended to the output queue.  Iterating this cycle from an
/// empty prefix, the prefix that [`lemma_chunk_terminal_step`] finally
/// delivers is the concatenation of the chunk payloads.
pub proof fn lemma_chunk_cycle<M>(
    rb0: ReadBody<M>,
    rb1: ReadBody<M>,
    rb2: ReadBody<M>,
    rb3: ReadBody<M>,
    d: Seq<u8>,
    s: Seq<u8>,
    c: Seq<u8>,
    rest: Seq<u8>,
    lim: usize,
    off: usize,
    i0: Seq<u8>,
    i1: Seq<u8>,
    i2: Seq<u8>,
    i3: Seq<u8>,
    o0: Seq<u8>,
    o1: Seq<u8>,
    o2: Seq<u8>,
    o3: Seq<u8>,
    e0: int,
    e1: int,
    e2: int,
    r0: Option<(Parser<M>, Expectation, u64)>,
    r1: Option<(Parser<M>, Expectation, u64)>,
    r2: Option<(Parser<M>, Expectation, u64)>,
)
    requires
        rb0.progress == BodyProgress::BufferChunked(lim, off, 0usize),
        i0 == d + s + seq![CR, LF] + c + seq![CR, LF] + rest,
        d.len() == off,
        s.len() > 0,
        all_hex(s),
        spec_parse_hex(s) == Some(c.len() as u64),
        1 <= c.len(),
        off + c.len() <= lim,
        spec_delim_event(i0, off as int, e0),
        spec_body_step_post(rb0, i0, i1, o0, o1, e0, r0),
        r0 matches Some(t) && t.0.0 == ParserImpl::ReadingBody(rb1),
        spec_body_step_post(rb1, i1, i2, o1, o2, e1, r1),
        r1 matches Some(t) && t.0.0 == ParserImpl::ReadingBody(rb2),
        spec_delim_event(i2, off + c.len(), e2),
        spec_body_step_post(rb2, i2, i3, o2, o3, e2, r2),
        r2 matches Some(t) && t.0.0 == ParserImpl::ReadingBody(rb3),
    ensures
        i3 == d + c + rest,
        rb3.progress == BodyProgress::BufferChunked(lim, (off + c.len()) as usize, 0usize),
        rb3.machine == rb0.machine,
        rb3.response == rb0.response,
        o3 == o0,
{
    lemma_chunk_size_line_step(rb0, d, s, c, rest, lim, off, i0, i1, o0, o1, e0, r0);
    assert(rb1.progress == BodyProgress::BufferChunked(lim, off, c.len() as usize));
    assert(rb1.machine == rb0.machine && rb1.response == rb0.response);
    // The payload event: the cursor absorbs the chunk into the prefix.
    assert(i2 == i1 && o2 == o1);
    assert(rb2.progress == BodyProgress::BufferChunked(lim, (off + c.len()) as usize, 0usize));
    assert(rb2.machine == rb1.machine && rb2.response == rb1.response);
    // The trailing CRLF is consumed by the next delimiter cycle.
    let d2 = d + c;
    assert(i2 =~= d2 + seq![CR, LF] + rest);
    lemma_chunk_trailing_crlf_step(
        rb2,
        d2,
        rest,
        lim,
        (off + c.len()) as usize,
        i2,
        i3,
        o2,
        o3,
        e2,
        r2,
    );
    assert(i3 =~= d + c + rest);
}

/// The terminal chunk-size line delivers the accumulated prefix exactly:
/// with the queue holding the decoded body `d` followed by a `0` size line,
/// the step consumes the body and the line, and the request completes.  The
/// bytes handed to the handler are `i0.take(off)`, which is `d`: the
/// concatenation of the chunk payloads, unchanged.
pub proof fn lemma_chunk_terminal_step<M>(
    rb: ReadBody<M>,
    d: Seq<u8>,
    rest: Seq<u8>,
    lim: usize,
    off: usize,
    i0: Seq<u8>,
    i1: Seq<u8>,
    o0: Seq<u8>,
    o1: Seq<u8>,
    end: int,
    r: Option<(Parser<M>, Expectation, u64)>,
)
    requires
        rb.progress == BodyProgress::BufferChunked(lim, off, 0usize),
        i0 == d + seq![0x30u8, CR, LF] + rest,
        d.len() == off,
        spec_delim_event(i0, off as int, end),
        spec_body_step_post(rb, i0, i1, o0, o1, end, r),
    ensures
        end == off + 1,
        i0.take(off as int) == d,
        i1 == i0.skip(end + 2),
        r is Some,
        r matches Some(t) ==> (t.0.0 is Processing || t.0.0 is Idle || t.0.0 is DoneResponse),
{
    let se = off as int + 1;
    assert(i0[off as int] == 0x30u8 && i0[se] == CR && i0[se + 1] == LF) by {
        assert(i0[off as int] == (seq![0x30u8, CR, LF])[0]);
        assert(i0[se] == (seq![0x30u8, CR, LF])[1]);
        assert(i0[se + 1] == (seq![0x30u8, CR, LF])[2]);
    }
    if end == off {
        assert(i0[off as int] == CR);
        assert(false);
    }
    if end > se {
        assert(!(i0[se] == CR && i0[se + 1] == LF));
        assert(false);
    }
    assert(end == se);
    let l = i0.subrange(off as int, end);
    assert(l =~= seq![0x30u8]);
    lemma_find1_none(l, SEMI, 0, l.len() as int);
    assert(spec_parse_hex(l) == Some(0u64)) by {
        assert(l.len() == 1);
        assert(l[0] == 0x30u8);
        assert forall|j: int| 0 <= j < l.len() implies is_hex_digit(l[j]) by {
            assert(l[j] == 0x30u8);
        }
        assert(l.take(l.len() - 1) =~= Seq::<u8>::empty());
        assert(spec_hex_value(l.take(l.len() - 1)) == 0);
        assert(hex_val(0x30u8) == 0);
        assert(spec_hex_value(l) == 0);
    }
    assert(spec_chunk_size(i0, off as int, end) == Some(0u64));
    assert(i0.take(off as int) =~= d);
}


/// As [`lemma_chunk_size_line_step`], for progressive delivery: the size
/// line is spliced out and the cursor waits for the chunk's bytes.
pub proof fn lemma_prog_chunk_size_line_step<M>(
    rb: ReadBody<M>,
    d: Seq<u8>,
    s: Seq<u8>,
    c: Seq<u8>,
    rest: Seq<u8>,
    hint: usize,
    off: usize,
    i0: Seq<u8>,
    i1: Seq<u8>,
    o0: Seq<u8>,
    o1: Seq<u8>,
    end: int,
    r: Option<(Parser<M>, Expectation, u64)>,
)
    requires
        rb.progress == BodyProgress::ProgressiveChunked(hint, off, 0u64),
        i0 == d + s + seq![CR, LF] + c + seq![CR, LF] + rest,
        d.len() == off,
        s.len() > 0,
        all_hex(s),
        spec_parse_hex(s) == Some(c.len() as u64),
        1 <= c.len() <= u64::MAX,
        spec_delim_event(i0, off as int, end),
        spec_body_step_post(rb, i0, i1, o0, o1, end, r),
    ensures
        end == off + s.len(),
        i1 == d + c + seq![CR, LF] + rest,
        r matches Some(t) && t.0.0 matches ParserImpl::ReadingBody(rb2) && rb2.progress
            == BodyProgress::ProgressiveChunked(hint, off, c.len() as u64) && rb2.machine
            == rb.machine && rb2.response == rb.response,
{
    let se = off + s.len();
    assert forall|j: int| off <= j < se implies i0[j] == s[j - off] && is_hex_digit(s[j - off]) by {
        assert(s[j - off] == i0[j]);
        assert(is_hex_digit(s[j - off]));
    }
    assert(i0[se] == CR && i0[se + 1] == LF) by {
        assert(i0[se] == (seq![CR, LF])[0]);
        assert(i0[se + 1] == (seq![CR, LF])[1]);
    }
    if end < se {
        assert(i0[end] == s[end - off]);
        assert(is_hex_digit(s[end - off]));
        assert(false);
    }
    if end > se {
        assert(!(i0[se] == CR && i0[se + 1] == LF));
        assert(false);
    }
    assert(end == se);
    let l = i0.subrange(off as int, end);
    assert(l =~= s);
    lemma_find1_none(l, SEMI, 0, l.len() as int);
    assert(spec_chunk_size(i0, off as int, end) == Some(c.len() as u64));
    assert(i1 == i0.take(off as int) + i0.skip(end + 2));
    assert(i0.take(off as int) =~= d);
    assert(i0.skip(end + 2) =~= c + seq![CR, LF] + rest);
    assert(i1 =~= d + c + seq![CR, LF] + rest);
}

/// As [`lemma_chunk_trailing_crlf_step`], for progressive delivery.
pub proof fn lemma_prog_trailing_crlf_step<M>(
    rb: ReadBody<M>,
    d: Seq<u8>,
    rest: Seq<u8>,
    hint: usize,
    off: usize,
    i0: Seq<u8>,
    i1: Seq<u8>,
    o0: Seq<u8>,
    o1: Seq<u8>,
    end: int,
    r: Option<(Parser<M>, Expectation, u64)>,
)
    requires
        rb.progress == BodyProgress::ProgressiveChunked(hint, off, 0u64),
        i0 == d + seq![CR, LF] + rest,
        d.len() == off,
        spec_delim_event(i0, off as int, end),
        spec_body_step_post(rb, i0, i1, o0, o1, end, r),
    ensures
        end == off,
        i1 == d + rest,
        r matches Some(t) && t.0.0 matches ParserImpl::ReadingBody(rb2) && rb2 == rb,
{
    assert(i0[off as int] == CR && i0[off as int + 1] == LF) by {
        assert(i0[off as int] == (seq![CR, LF])[0]);
        assert(i0[off as int + 1] == (seq![CR, LF])[1]);
    }
    if end > off {
        assert(!(i0[off as int] == CR && i0[off as int + 1] == LF));
        assert(false);
    }
    assert(end == off);
    assert(i1 =~= d + rest);
}

/// A progressive data step streams a prefix of the buffered window to the
/// handler in order: exactly the delivered bytes leave the queue, so
/// concatenating the `request_chunk` arguments across steps reproduces the
/// decoded payload in order.
pub proof fn lemma_prog_delivery_in_order<M>(
    rb: ReadBody<M>,
    i0: Seq<u8>,
    i1: Seq<u8>,
    o0: Seq<u8>,
    o1: Seq<u8>,
    end: int,
    r: Option<(Parser<M>, Expectation, u64)>,
    hint: usize,
    off: usize,
    left: u64,
)
    requires
        rb.progress == BodyProgress::ProgressiveChunked(hint, off, left),
        left > 0,
        off <= i0.len(),
        spec_body_step_post(rb, i0, i1, o0, o1, end, r),
    ensures
        ({
            let ln = if off + left <= i0.len() {
                off + left
            } else {
                i0.len() as int
            };
            ln < hint ==> i1 == i0
        }),
        ({
            let ln = if off + left <= i0.len() {
                off + left
            } else {
                i0.len() as int
            };
            ln >= hint ==> i0 == i0.take(ln) + i1
        }),
{
    let ln = if off + left <= i0.len() {
        off + left
    } else {
        i0.len() as int
    };
    if ln >= hint {
        assert(i1 == i0.skip(ln));
        assert(i0 =~= i0.take(ln) + i0.skip(ln));
    }
}

} // verus!
