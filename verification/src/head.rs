//! Request-head parsing: request line, header fields, and the body-framing
//! decision derived from them.
//!
//! The grammar is HTTP/1.x head syntax: a request line `METHOD SP path SP
//! HTTP/1.x CRLF`, header fields `name ":" OWS value OWS CRLF`, and a final
//! empty line.  Leading empty lines before the request line are skipped.
//! Every parsing function is written against a specification twin, a
//! recursive spec function over byte sequences, so that the result of a
//! parse is pinned down exactly.

use vstd::prelude::*;

verus! {

pub const CR: u8 = 13;

pub const LF: u8 = 10;

pub const SP: u8 = 32;

pub const HTAB: u8 = 9;

pub const COLON: u8 = 58;

#[derive(Clone, Copy, PartialEq, Eq, Structural, Debug)]
pub enum Method {
    Options,
    Get,
    Head,
    Post,
    Put,
    Delete,
    Trace,
    Connect,
    Patch,
    Other,
}

#[derive(Clone, Copy, PartialEq, Eq, Structural, Debug)]
pub enum Version {
    Http10,
    Http11,
}

/// Wire-level body framing of a request, decided from its headers.
#[derive(Clone, Copy, PartialEq, Eq, Structural, Debug)]
pub enum BodyKind {
    Fixed(u64),
    Chunked,
    Eof,
    Upgrade,
}

/// One parsed header field.  The name is stored lowercased; the value is
/// stored with outer whitespace trimmed, case preserved.
pub struct HeaderField {
    pub name: Vec<u8>,
    pub value: Vec<u8>,
}

impl View for HeaderField {
    type V = (Seq<u8>, Seq<u8>);

    open spec fn view(&self) -> (Seq<u8>, Seq<u8>) {
        (self.name@, self.value@)
    }
}

/// A parsed request head.
pub struct Head {
    pub method: Method,
    pub path: Vec<u8>,
    pub version: Version,
    pub headers: Vec<HeaderField>,
}

/// The mathematical model of a parsed head.
pub struct HeadView {
    pub method: Method,
    pub path: Seq<u8>,
    pub version: Version,
    pub headers: Seq<(Seq<u8>, Seq<u8>)>,
}

impl View for Head {
    type V = HeadView;

    open spec fn view(&self) -> HeadView {
        HeadView {
            method: self.method,
            path: self.path@,
            version: self.version,
            headers: self.headers@.map_values(|f: HeaderField| f@),
        }
    }
}

// ---------------------------------------------------------------------------
// Byte scanning
// ---------------------------------------------------------------------------

/// Position of the first occurrence of `c` in `s[from..to]`, if any.
pub open spec fn spec_find1(s: Seq<u8>, c: u8, from: int, to: int) -> Option<int>
    decreases to - from,
{
    if from >= to {
        None
    } else if s[from] == c {
        Some(from)
    } else {
        spec_find1(s, c, from + 1, to)
    }
}

pub fn find1(v: &Vec<u8>, c: u8, from: usize, to: usize) -> (r: Option<usize>)
    requires
        from <= to,
        to <= v@.len(),
    ensures
        r is Some <==> spec_find1(v@, c, from as int, to as int) is Some,
        r matches Some(i) ==> spec_find1(v@, c, from as int, to as int) == Some(i as int)
            && from <= i < to && v@[i as int] == c && (forall|j: int|
            from <= j < i ==> v@[j] != c),
        r is None ==> forall|j: int| from <= j < to ==> v@[j] != c,
    decreases to - from,
{
    if from >= to {
        None
    } else if v[from] == c {
        Some(from)
    } else {
        find1(v, c, from + 1, to)
    }
}

/// Position of the first CRLF at or after `from`, if any.
pub open spec fn spec_find_crlf(s: Seq<u8>, from: int) -> Option<int>
    decreases s.len() - from,
{
    if from < 0 || from + 2 > s.len() {
        None
    } else if s[from] == CR && s[from + 1] == LF {
        Some(from)
    } else {
        spec_find_crlf(s, from + 1)
    }
}

pub fn find_crlf(v: &Vec<u8>, from: usize) -> (r: Option<usize>)
    requires
        from <= v@.len(),
    ensures
        r is Some <==> spec_find_crlf(v@, from as int) is Some,
        r matches Some(i) ==> spec_find_crlf(v@, from as int) == Some(i as int) && from <= i
            && i + 2 <= v@.len() && v@[i as int] == CR && v@[i as int + 1] == LF,
    decreases v@.len() - from,
{
    if v.len() < 2 || from > v.len() - 2 {
        None
    } else if v[from] == CR && v[from + 1] == LF {
        Some(from)
    } else {
        find_crlf(v, from + 1)
    }
}

/// Index after any run of CRLF pairs starting at `from` (empty lines before
/// a request line are ignored).
pub open spec fn spec_skip_crlf(s: Seq<u8>, from: int) -> int
    decreases s.len() - from,
{
    if from >= 0 && from + 2 <= s.len() && s[from] == CR && s[from + 1] == LF {
        spec_skip_crlf(s, from + 2)
    } else {
        from
    }
}

pub fn skip_crlf(v: &Vec<u8>, from: usize) -> (r: usize)
    requires
        from <= v@.len(),
    ensures
        r as int == spec_skip_crlf(v@, from as int),
        from <= r <= v@.len(),
    decreases v@.len() - from,
{
    if v.len() >= 2 && from <= v.len() - 2 && v[from] == CR && v[from + 1] == LF {
        skip_crlf(v, from + 2)
    } else {
        from
    }
}

// ---------------------------------------------------------------------------
// Character classes, case folding, trimming
// ---------------------------------------------------------------------------

/// RFC 7230 `tchar`: the characters allowed in tokens (methods, header names).
pub open spec fn is_tchar(b: u8) -> bool {
    (0x30 <= b && b <= 0x39) || (0x41 <= b && b <= 0x5a) || (0x61 <= b && b <= 0x7a) || b == 0x21
        || b == 0x23 || b == 0x24 || b == 0x25 || b == 0x26 || b == 0x27 || b == 0x2a || b == 0x2b
        || b == 0x2d || b == 0x2e || b == 0x5e || b == 0x5f || b == 0x60 || b == 0x7c || b == 0x7e
}

pub fn tchar(b: u8) -> (r: bool)
    ensures
        r == is_tchar(b),
{
    (0x30 <= b && b <= 0x39) || (0x41 <= b && b <= 0x5a) || (0x61 <= b && b <= 0x7a) || b == 0x21
        || b == 0x23 || b == 0x24 || b == 0x25 || b == 0x26 || b == 0x27 || b == 0x2a || b == 0x2b
        || b == 0x2d || b == 0x2e || b == 0x5e || b == 0x5f || b == 0x60 || b == 0x7c || b == 0x7e
}

pub open spec fn is_token(s: Seq<u8>) -> bool {
    s.len() > 0 && (forall|i: int| 0 <= i < s.len() ==> is_tchar(s[i]))
}

pub fn check_token(v: &Vec<u8>, lo: usize, hi: usize) -> (r: bool)
    requires
        lo <= hi,
        hi <= v@.len(),
    ensures
        r == is_token(v@.subrange(lo as int, hi as int)),
{
    let ghost s = v@.subrange(lo as int, hi as int);
    if lo >= hi {
        return false;
    }
    let mut i = lo;
    while i < hi
        invariant
            lo <= i <= hi,
            hi <= v@.len(),
            s == v@.subrange(lo as int, hi as int),
            forall|j: int| lo <= j < i ==> is_tchar(v@[j]),
        decreases hi - i,
    {
        if !tchar(v[i]) {
            proof {
                assert(s[i - lo] == v@[i as int]);
                assert(!is_token(s));
            }
            return false;
        }
        i += 1;
    }
    proof {
        assert forall|k: int| 0 <= k < s.len() implies is_tchar(s[k]) by {
            assert(s[k] == v@[lo + k]);
        }
    }
    true
}

/// ASCII lowercase of one byte.
pub open spec fn spec_lower(b: u8) -> u8 {
    if 0x41 <= b && b <= 0x5a {
        (b + 0x20) as u8
    } else {
        b
    }
}

pub fn lower(b: u8) -> (r: u8)
    ensures
        r == spec_lower(b),
{
    if 0x41 <= b && b <= 0x5a {
        b + 0x20
    } else {
        b
    }
}

pub open spec fn lower_seq(s: Seq<u8>) -> Seq<u8> {
    s.map_values(|b: u8| spec_lower(b))
}

pub open spec fn is_ows(b: u8) -> bool {
    b == SP || b == HTAB
}

pub open spec fn spec_trim_lo(s: Seq<u8>, lo: int, hi: int) -> int
    decreases hi - lo,
{
    if lo < hi && 0 <= lo < s.len() && is_ows(s[lo]) {
        spec_trim_lo(s, lo + 1, hi)
    } else {
        lo
    }
}

pub open spec fn spec_trim_hi(s: Seq<u8>, lo: int, hi: int) -> int
    decreases hi - lo,
{
    if lo < hi && 0 <= hi - 1 < s.len() && is_ows(s[hi - 1]) {
        spec_trim_hi(s, lo, hi - 1)
    } else {
        hi
    }
}

pub fn trim_lo(v: &Vec<u8>, lo: usize, hi: usize) -> (r: usize)
    requires
        lo <= hi,
        hi <= v@.len(),
    ensures
        r as int == spec_trim_lo(v@, lo as int, hi as int),
        lo <= r <= hi,
    decreases hi - lo,
{
    if lo < hi && (v[lo] == SP || v[lo] == HTAB) {
        trim_lo(v, lo + 1, hi)
    } else {
        lo
    }
}

pub fn trim_hi(v: &Vec<u8>, lo: usize, hi: usize) -> (r: usize)
    requires
        lo <= hi,
        hi <= v@.len(),
    ensures
        r as int == spec_trim_hi(v@, lo as int, hi as int),
        lo <= r <= hi,
    decreases hi - lo,
{
    if lo < hi && (v[hi - 1] == SP || v[hi - 1] == HTAB) {
        trim_hi(v, lo, hi - 1)
    } else {
        hi
    }
}

// ---------------------------------------------------------------------------
// Copying ranges out of the scratch vector
// ---------------------------------------------------------------------------

pub fn copy_range(v: &Vec<u8>, lo: usize, hi: usize) -> (r: Vec<u8>)
    requires
        lo <= hi,
        hi <= v@.len(),
    ensures
        r@ == v@.subrange(lo as int, hi as int),
{
    let mut out: Vec<u8> = Vec::new();
    let mut i = lo;
    while i < hi
        invariant
            lo <= i <= hi,
            hi <= v@.len(),
            out@.len() == i - lo,
            forall|j: int| 0 <= j < out@.len() ==> out@[j] == v@[lo + j],
        decreases hi - i,
    {
        out.push(v[i]);
        i += 1;
    }
    proof {
        assert(out@ =~= v@.subrange(lo as int, hi as int));
    }
    out
}

pub fn copy_range_lower(v: &Vec<u8>, lo: usize, hi: usize) -> (r: Vec<u8>)
    requires
        lo <= hi,
        hi <= v@.len(),
    ensures
        r@ == lower_seq(v@.subrange(lo as int, hi as int)),
{
    let mut out: Vec<u8> = Vec::new();
    let mut i = lo;
    while i < hi
        invariant
            lo <= i <= hi,
            hi <= v@.len(),
            out@.len() == i - lo,
            forall|j: int| 0 <= j < out@.len() ==> out@[j] == spec_lower(v@[lo + j]),
        decreases hi - i,
    {
        out.push(lower(v[i]));
        i += 1;
    }
    proof {
        assert(out@ =~= lower_seq(v@.subrange(lo as int, hi as int)));
    }
    out
}

pub fn vec_eq(a: &Vec<u8>, b: &Vec<u8>) -> (r: bool)
    ensures
        r == (a@ == b@),
{
    if a.len() != b.len() {
        proof {
            assert(a@ != b@);
        }
        return false;
    }
    let mut i: usize = 0;
    while i < a.len()
        invariant
            0 <= i <= a@.len(),
            a@.len() == b@.len(),
            forall|j: int| 0 <= j < i ==> a@[j] == b@[j],
        decreases a@.len() - i,
    {
        if a[i] != b[i] {
            proof {
                assert(a@ != b@);
            }
            return false;
        }
        i += 1;
    }
    proof {
        assert(a@ =~= b@);
    }
    true
}

/// Case-insensitive comparison of `a` against an already-lowercased `b`.
pub fn vec_lower_eq(a: &Vec<u8>, b: &Vec<u8>) -> (r: bool)
    ensures
        r == (lower_seq(a@) == b@),
{
    let ghost la = lower_seq(a@);
    proof {
        assert(la.len() == a@.len());
    }
    if a.len() != b.len() {
        proof {
            assert(la != b@);
        }
        return false;
    }
    let mut i: usize = 0;
    while i < a.len()
        invariant
            0 <= i <= a@.len(),
            a@.len() == b@.len(),
            la == lower_seq(a@),
            la.len() == a@.len(),
            forall|j: int| 0 <= j < i ==> la[j] == b@[j],
        decreases a@.len() - i,
    {
        if lower(a[i]) != b[i] {
            proof {
                assert(la[i as int] == spec_lower(a@[i as int]));
                assert(la != b@);
            }
            return false;
        }
        i += 1;
    }
    proof {
        assert(la =~= b@);
    }
    true
}

// ---------------------------------------------------------------------------
// Request line
// ---------------------------------------------------------------------------

/// Classification of a method token.  Unknown tokens are `Other`: still a
/// valid request, but not one of the recognized methods.
pub open spec fn spec_method(s: Seq<u8>) -> Method {
    if s.len() == 3 && s[0] == 0x47 && s[1] == 0x45 && s[2] == 0x54 {
        Method::Get
    } else if s.len() == 4 && s[0] == 0x48 && s[1] == 0x45 && s[2] == 0x41 && s[3] == 0x44 {
        Method::Head
    } else if s.len() == 4 && s[0] == 0x50 && s[1] == 0x4f && s[2] == 0x53 && s[3] == 0x54 {
        Method::Post
    } else if s.len() == 3 && s[0] == 0x50 && s[1] == 0x55 && s[2] == 0x54 {
        Method::Put
    } else if s.len() == 6 && s[0] == 0x44 && s[1] == 0x45 && s[2] == 0x4c && s[3] == 0x45 && s[4]
        == 0x54 && s[5] == 0x45 {
        Method::Delete
    } else if s.len() == 7 && s[0] == 0x4f && s[1] == 0x50 && s[2] == 0x54 && s[3] == 0x49 && s[4]
        == 0x4f && s[5] == 0x4e && s[6] == 0x53 {
        Method::Options
    } else if s.len() == 5 && s[0] == 0x54 && s[1] == 0x52 && s[2] == 0x41 && s[3] == 0x43 && s[4]
        == 0x45 {
        Method::Trace
    } else if s.len() == 7 && s[0] == 0x43 && s[1] == 0x4f && s[2] == 0x4e && s[3] == 0x4e && s[4]
        == 0x45 && s[5] == 0x43 && s[6] == 0x54 {
        Method::Connect
    } else if s.len() == 5 && s[0] == 0x50 && s[1] == 0x41 && s[2] == 0x54 && s[3] == 0x43 && s[4]
        == 0x48 {
        Method::Patch
    } else {
        Method::Other
    }
}

pub fn method_from(v: &Vec<u8>, lo: usize, hi: usize) -> (r: Method)
    requires
        lo <= hi,
        hi <= v@.len(),
    ensures
        r == spec_method(v@.subrange(lo as int, hi as int)),
{
    let ghost s = v@.subrange(lo as int, hi as int);
    proof {
        assert(s.len() == hi - lo);
        assert forall|k: int| 0 <= k < s.len() implies s[k] == v@[lo + k] by {}
    }
    let n = hi - lo;
    if n == 3 && v[lo] == 0x47 && v[lo + 1] == 0x45 && v[lo + 2] == 0x54 {
        Method::Get
    } else if n == 4 && v[lo] == 0x48 && v[lo + 1] == 0x45 && v[lo + 2] == 0x41 && v[lo + 3]
        == 0x44 {
        Method::Head
    } else if n == 4 && v[lo] == 0x50 && v[lo + 1] == 0x4f && v[lo + 2] == 0x53 && v[lo + 3]
        == 0x54 {
        Method::Post
    } else if n == 3 && v[lo] == 0x50 && v[lo + 1] == 0x55 && v[lo + 2] == 0x54 {
        Method::Put
    } else if n == 6 && v[lo] == 0x44 && v[lo + 1] == 0x45 && v[lo + 2] == 0x4c && v[lo + 3] == 0x45
        && v[lo + 4] == 0x54 && v[lo + 5] == 0x45 {
        Method::Delete
    } else if n == 7 && v[lo] == 0x4f && v[lo + 1] == 0x50 && v[lo + 2] == 0x54 && v[lo + 3] == 0x49
        && v[lo + 4] == 0x4f && v[lo + 5] == 0x4e && v[lo + 6] == 0x53 {
        Method::Options
    } else if n == 5 && v[lo] == 0x54 && v[lo + 1] == 0x52 && v[lo + 2] == 0x41 && v[lo + 3] == 0x43
        && v[lo + 4] == 0x45 {
        Method::Trace
    } else if n == 7 && v[lo] == 0x43 && v[lo + 1] == 0x4f && v[lo + 2] == 0x4e && v[lo + 3] == 0x4e
        && v[lo + 4] == 0x45 && v[lo + 5] == 0x43 && v[lo + 6] == 0x54 {
        Method::Connect
    } else if n == 5 && v[lo] == 0x50 && v[lo + 1] == 0x41 && v[lo + 2] == 0x54 && v[lo + 3] == 0x43
        && v[lo + 4] == 0x48 {
        Method::Patch
    } else {
        Method::Other
    }
}

/// The protocol version slot must read `HTTP/1.0` or `HTTP/1.1` exactly.
pub open spec fn spec_version(s: Seq<u8>, lo: int, hi: int) -> Option<Version> {
    if hi - lo == 8 && s[lo] == 0x48 && s[lo + 1] == 0x54 && s[lo + 2] == 0x54 && s[lo + 3] == 0x50
        && s[lo + 4] == 0x2f && s[lo + 5] == 0x31 && s[lo + 6] == 0x2e {
        if s[lo + 7] == 0x31 {
            Some(Version::Http11)
        } else if s[lo + 7] == 0x30 {
            Some(Version::Http10)
        } else {
            None
        }
    } else {
        None
    }
}

pub fn version_from(v: &Vec<u8>, lo: usize, hi: usize) -> (r: Option<Version>)
    requires
        lo <= hi,
        hi <= v@.len(),
    ensures
        r == spec_version(v@, lo as int, hi as int),
{
    if hi - lo == 8 && v[lo] == 0x48 && v[lo + 1] == 0x54 && v[lo + 2] == 0x54 && v[lo + 3] == 0x50
        && v[lo + 4] == 0x2f && v[lo + 5] == 0x31 && v[lo + 6] == 0x2e {
        if v[lo + 7] == 0x31 {
            Some(Version::Http11)
        } else if v[lo + 7] == 0x30 {
            Some(Version::Http10)
        } else {
            None
        }
    } else {
        None
    }
}

/// Request line `METHOD SP path SP HTTP/1.x`, over `s[lo..hi]` (the line
/// without its CRLF).  The path must be non-empty; the method must be a
/// token.
pub open spec fn spec_parse_reqline(s: Seq<u8>, lo: int, hi: int) -> Option<
    (Method, Seq<u8>, Version),
> {
    match spec_find1(s, SP, lo, hi) {
        None => None,
        Some(m_end) => {
            if !is_token(s.subrange(lo, m_end)) {
                None
            } else {
                match spec_find1(s, SP, m_end + 1, hi) {
                    None => None,
                    Some(p_end) => {
                        if p_end <= m_end + 1 {
                            None
                        } else {
                            match spec_version(s, p_end + 1, hi) {
                                None => None,
                                Some(ver) => Some(
                                    (
                                        spec_method(s.subrange(lo, m_end)),
                                        s.subrange(m_end + 1, p_end),
                                        ver,
                                    ),
                                ),
                            }
                        }
                    },
                }
            }
        },
    }
}

pub fn parse_reqline(v: &Vec<u8>, lo: usize, hi: usize) -> (r: Option<(Method, Vec<u8>, Version)>)
    requires
        lo <= hi,
        hi <= v@.len(),
    ensures
        r is Some <==> spec_parse_reqline(v@, lo as int, hi as int) is Some,
        r matches Some(t) ==> spec_parse_reqline(v@, lo as int, hi as int) == Some(
            (t.0, t.1@, t.2),
        ),
{
    match find1(v, SP, lo, hi) {
        None => None,
        Some(m_end) => {
            if !check_token(v, lo, m_end) {
                None
            } else {
                match find1(v, SP, m_end + 1, hi) {
                    None => None,
                    Some(p_end) => {
                        if p_end <= m_end + 1 {
                            None
                        } else {
                            match version_from(v, p_end + 1, hi) {
                                None => None,
                                Some(ver) => {
                                    let m = method_from(v, lo, m_end);
                                    let path = copy_range(v, m_end + 1, p_end);
                                    Some((m, path, ver))
                                },
                            }
                        }
                    },
                }
            }
        },
    }
}

// ---------------------------------------------------------------------------
// Header fields
// ---------------------------------------------------------------------------

/// One header line `name ":" OWS value OWS` over `s[lo..hi]` (without its
/// CRLF).  The name must be a token; it is lowercased in the result.
pub open spec fn spec_parse_field(s: Seq<u8>, lo: int, hi: int) -> Option<(Seq<u8>, Seq<u8>)> {
    match spec_find1(s, COLON, lo, hi) {
        None => None,
        Some(c) => {
            if !is_token(s.subrange(lo, c)) {
                None
            } else {
                let vlo = spec_trim_lo(s, c + 1, hi);
                let vhi = spec_trim_hi(s, vlo, hi);
                Some((lower_seq(s.subrange(lo, c)), s.subrange(vlo, vhi)))
            }
        },
    }
}

pub fn parse_field(v: &Vec<u8>, lo: usize, hi: usize) -> (r: Option<HeaderField>)
    requires
        lo <= hi,
        hi <= v@.len(),
    ensures
        r is Some <==> spec_parse_field(v@, lo as int, hi as int) is Some,
        r matches Some(f) ==> spec_parse_field(v@, lo as int, hi as int) == Some(f@),
{
    match find1(v, COLON, lo, hi) {
        None => None,
        Some(c) => {
            if !check_token(v, lo, c) {
                None
            } else {
                let vlo = trim_lo(v, c + 1, hi);
                let vhi = trim_hi(v, vlo, hi);
                let name = copy_range_lower(v, lo, c);
                let value = copy_range(v, vlo, vhi);
                Some(HeaderField { name, value })
            }
        },
    }
}

/// The header section starting at `lo`: fields up to and including the final
/// empty line, which must close the block exactly.
pub open spec fn spec_parse_fields(s: Seq<u8>, lo: int) -> Option<Seq<(Seq<u8>, Seq<u8>)>>
    decreases s.len() - lo,
{
    if 0 <= lo && lo + 2 <= s.len() && s[lo] == CR && s[lo + 1] == LF {
        if lo + 2 == s.len() {
            Some(Seq::empty())
        } else {
            None
        }
    } else {
        match spec_find_crlf(s, lo) {
            None => None,
            Some(e) => {
                if e < lo || e + 2 > s.len() {
                    None
                } else {
                    match spec_parse_field(s, lo, e) {
                        None => None,
                        Some(f) => match spec_parse_fields(s, e + 2) {
                            None => None,
                            Some(rest) => Some(seq![f] + rest),
                        },
                    }
                }
            },
        }
    }
}

pub fn parse_fields(v: &Vec<u8>, lo: usize) -> (r: Option<Vec<HeaderField>>)
    requires
        lo <= v@.len(),
    ensures
        r is Some <==> spec_parse_fields(v@, lo as int) is Some,
        r matches Some(hs) ==> Some(hs@.map_values(|f: HeaderField| f@)) == spec_parse_fields(
            v@,
            lo as int,
        ),
    decreases v@.len() - lo,
{
    let n = v.len();
    if n - lo >= 2 && v[lo] == CR && v[lo + 1] == LF {
        if n - lo == 2 {
            let out: Vec<HeaderField> = Vec::new();
            proof {
                assert(out@.map_values(|f: HeaderField| f@) =~= Seq::<
                    (Seq<u8>, Seq<u8>),
                >::empty());
            }
            Some(out)
        } else {
            None
        }
    } else {
        match find_crlf(v, lo) {
            None => None,
            Some(e) => {
                match parse_field(v, lo, e) {
                    None => None,
                    Some(f) => match parse_fields(v, e + 2) {
                        None => None,
                        Some(mut rest) => {
                            let ghost fview = f@;
                            let ghost restview = rest@.map_values(|g: HeaderField| g@);
                            rest.insert(0, f);
                            proof {
                                assert(rest@.map_values(|g: HeaderField| g@) =~= seq![fview]
                                    + restview);
                            }
                            Some(rest)
                        },
                    },
                }
            },
        }
    }
}

// ---------------------------------------------------------------------------
// The whole head block
// ---------------------------------------------------------------------------

/// Parse of a complete head block (request line, headers, terminated by the
/// block's final CRLF; the caller passes the block including its CRLF-CRLF
/// delimiter).  Empty lines before the request line are skipped.
pub open spec fn spec_parse_head(s: Seq<u8>) -> Option<HeadView> {
    let lo = spec_skip_crlf(s, 0);
    match spec_find_crlf(s, lo) {
        None => None,
        Some(e) => {
            if e < lo || e + 2 > s.len() {
                None
            } else {
                match spec_parse_reqline(s, lo, e) {
                    None => None,
                    Some(rl) => match spec_parse_fields(s, e + 2) {
                        None => None,
                        Some(hs) => Some(
                            HeadView { method: rl.0, path: rl.1, version: rl.2, headers: hs },
                        ),
                    },
                }
            }
        },
    }
}

// ---------------------------------------------------------------------------
// Decimal and hexadecimal numbers
// ---------------------------------------------------------------------------

pub open spec fn is_digit(b: u8) -> bool {
    0x30 <= b && b <= 0x39
}

pub open spec fn all_digits(s: Seq<u8>) -> bool {
    forall|i: int| 0 <= i < s.len() ==> is_digit(s[i])
}

/// Value of a decimal digit string, most significant digit first.
pub open spec fn spec_dec_value(s: Seq<u8>) -> int
    decreases s.len(),
{
    if s.len() == 0 {
        0
    } else {
        spec_dec_value(s.take(s.len() - 1)) * 10 + (s[s.len() - 1] - 0x30)
    }
}

/// A non-empty all-digit string whose value fits in a `u64`; anything else
/// is rejected.
pub open spec fn spec_parse_dec(s: Seq<u8>) -> Option<u64> {
    if s.len() > 0 && all_digits(s) && spec_dec_value(s) <= u64::MAX {
        Some(spec_dec_value(s) as u64)
    } else {
        None
    }
}

/// A digit string's value is at least the value of any of its prefixes, and
/// both are non-negative.
pub proof fn lemma_dec_prefix(s: Seq<u8>, k: int)
    requires
        all_digits(s),
        0 <= k <= s.len(),
    ensures
        0 <= spec_dec_value(s.take(k)) <= spec_dec_value(s),
    decreases s.len(),
{
    if s.len() == 0 {
        assert(s.take(k) =~= s);
    } else {
        let t = s.take(s.len() - 1);
        assert(all_digits(t));
        lemma_dec_prefix(t, t.len() as int);
        assert(t.take(t.len() as int) =~= t);
        if k == s.len() {
            assert(s.take(k) =~= s);
        } else {
            lemma_dec_prefix(t, k);
            assert(t.take(k) =~= s.take(k));
        }
    }
}

pub fn parse_dec(v: &Vec<u8>) -> (r: Option<u64>)
    ensures
        r == spec_parse_dec(v@),
{
    let n = v.len();
    if n == 0 {
        return None;
    }
    let mut acc: u64 = 0;
    let mut i: usize = 0;
    while i < n
        invariant
            0 <= i <= n,
            n == v@.len(),
            all_digits(v@.take(i as int)),
            acc as int == spec_dec_value(v@.take(i as int)),
        decreases n - i,
    {
        let b = v[i];
        if !(0x30 <= b && b <= 0x39) {
            proof {
                assert(!all_digits(v@));
            }
            return None;
        }
        let d = b - 0x30;
        proof {
            assert(v@.take(i + 1).take(i as int) =~= v@.take(i as int));
            assert(v@.take(i + 1)[i as int] == v@[i as int]);
            assert(spec_dec_value(v@.take(i + 1)) == acc * 10 + d);
        }
        if acc > 1844674407370955161u64 || (acc == 1844674407370955161u64 && d > 5) {
            proof {
                if all_digits(v@) {
                    lemma_dec_prefix(v@, i + 1);
                }
            }
            return None;
        }
        acc = acc * 10 + d as u64;
        i += 1;
        proof {
            assert(all_digits(v@.take(i as int))) by {
                assert(forall|j: int|
                    0 <= j < i ==> v@.take(i as int)[j] == v@.take(i as int - 1).push(
                        v@[i as int - 1],
                    )[j]);
                assert(v@.take(i as int) =~= v@.take(i as int - 1).push(v@[i as int - 1]));
            }
        }
    }
    proof {
        assert(v@.take(n as int) =~= v@);
    }
    Some(acc)
}

pub open spec fn is_hex_digit(b: u8) -> bool {
    (0x30 <= b && b <= 0x39) || (0x41 <= b && b <= 0x46) || (0x61 <= b && b <= 0x66)
}

pub open spec fn hex_val(b: u8) -> int {
    if 0x30 <= b && b <= 0x39 {
        b - 0x30
    } else if 0x41 <= b && b <= 0x46 {
        b - 0x37
    } else {
        b - 0x57
    }
}

pub open spec fn all_hex(s: Seq<u8>) -> bool {
    forall|i: int| 0 <= i < s.len() ==> is_hex_digit(s[i])
}

/// Value of a hexadecimal digit string, most significant digit first.
pub open spec fn spec_hex_value(s: Seq<u8>) -> int
    decreases s.len(),
{
    if s.len() == 0 {
        0
    } else {
        spec_hex_value(s.take(s.len() - 1)) * 16 + hex_val(s[s.len() - 1])
    }
}

/// A non-empty all-hex-digit string whose value fits in a `u64`; anything
/// else is rejected.
pub open spec fn spec_parse_hex(s: Seq<u8>) -> Option<u64> {
    if s.len() > 0 && all_hex(s) && spec_hex_value(s) <= u64::MAX {
        Some(spec_hex_value(s) as u64)
    } else {
        None
    }
}

/// A hex string's value is at least the value of any of its prefixes, and
/// both are non-negative.
pub proof fn lemma_hex_prefix(s: Seq<u8>, k: int)
    requires
        all_hex(s),
        0 <= k <= s.len(),
    ensures
        0 <= spec_hex_value(s.take(k)) <= spec_hex_value(s),
    decreases s.len(),
{
    if s.len() == 0 {
        assert(s.take(k) =~= s);
    } else {
        let t = s.take(s.len() - 1);
        assert(all_hex(t));
        lemma_hex_prefix(t, t.len() as int);
        assert(t.take(t.len() as int) =~= t);
        if k == s.len() {
            assert(s.take(k) =~= s);
        } else {
            lemma_hex_prefix(t, k);
            assert(t.take(k) =~= s.take(k));
        }
    }
}

pub fn parse_hex(v: &Vec<u8>) -> (r: Option<u64>)
    ensures
        r == spec_parse_hex(v@),
{
    let n = v.len();
    if n == 0 {
        return None;
    }
    let mut acc: u64 = 0;
    let mut i: usize = 0;
    while i < n
        invariant
            0 <= i <= n,
            n == v@.len(),
            all_hex(v@.take(i as int)),
            acc as int == spec_hex_value(v@.take(i as int)),
        decreases n - i,
    {
        let b = v[i];
        let d: u8 = if 0x30 <= b && b <= 0x39 {
            b - 0x30
        } else if 0x41 <= b && b <= 0x46 {
            b - 0x37
        } else if 0x61 <= b && b <= 0x66 {
            b - 0x57
        } else {
            proof {
                assert(!all_hex(v@));
            }
            return None;
        };
        proof {
            assert(v@.take(i + 1).take(i as int) =~= v@.take(i as int));
            assert(v@.take(i + 1)[i as int] == v@[i as int]);
            assert(spec_hex_value(v@.take(i + 1)) == acc * 16 + d);
        }
        if acc > 1152921504606846975u64 {
            proof {
                if all_hex(v@) {
                    lemma_hex_prefix(v@, i + 1);
                }
            }
            return None;
        }
        acc = acc * 16 + d as u64;
        i += 1;
        proof {
            assert(v@.take(i as int) =~= v@.take(i as int - 1).push(v@[i as int - 1]));
            assert(all_hex(v@.take(i as int)));
        }
    }
    proof {
        assert(v@.take(n as int) =~= v@);
    }
    Some(acc)
}

// ---------------------------------------------------------------------------
// Header lookup and the body-framing decision
// ---------------------------------------------------------------------------

/// Value of the first header whose (lowercased) name equals `name`.
pub open spec fn spec_header_lookup(hs: Seq<(Seq<u8>, Seq<u8>)>, name: Seq<u8>) -> Option<Seq<u8>>
    decreases hs.len(),
{
    if hs.len() == 0 {
        None
    } else if hs[0].0 == name {
        Some(hs[0].1)
    } else {
        spec_header_lookup(hs.skip(1), name)
    }
}

fn lookup_from(headers: &Vec<HeaderField>, name: &Vec<u8>, i: usize) -> (r: Option<Vec<u8>>)
    requires
        i <= headers@.len(),
    ensures
        r is Some <==> spec_header_lookup(
            headers@.map_values(|f: HeaderField| f@).skip(i as int),
            name@,
        ) is Some,
        r matches Some(v) ==> spec_header_lookup(
            headers@.map_values(|f: HeaderField| f@).skip(i as int),
            name@,
        ) == Some(v@),
    decreases headers@.len() - i,
{
    let ghost hs = headers@.map_values(|f: HeaderField| f@);
    if i >= headers.len() {
        proof {
            assert(hs.skip(i as int).len() == 0);
        }
        None
    } else {
        proof {
            assert(hs.skip(i as int)[0] == hs[i as int]);
        }
        let f = &headers[i];
        if vec_eq(&f.name, name) {
            let val = copy_range(&f.value, 0, f.value.len());
            proof {
                assert(val@ =~= f.value@);
            }
            Some(val)
        } else {
            let r = lookup_from(headers, name, i + 1);
            proof {
                assert(hs.skip(i as int).skip(1) =~= hs.skip(i as int + 1));
            }
            r
        }
    }
}

/// Value of the first header with the given lowercase name, if any.
pub fn header_lookup(head: &Head, name: &Vec<u8>) -> (r: Option<Vec<u8>>)
    ensures
        r is Some <==> spec_header_lookup(head@.headers, name@) is Some,
        r matches Some(v) ==> spec_header_lookup(head@.headers, name@) == Some(v@),
{
    let r = lookup_from(&head.headers, name, 0);
    proof {
        assert(head@.headers.skip(0) =~= head@.headers);
    }
    r
}

pub open spec fn spec_content_length_name() -> Seq<u8> {
    seq![0x63u8, 0x6f, 0x6e, 0x74, 0x65, 0x6e, 0x74, 0x2d, 0x6c, 0x65, 0x6e, 0x67, 0x74, 0x68]
}

pub open spec fn spec_transfer_encoding_name() -> Seq<u8> {
    seq![
        0x74u8,
        0x72,
        0x61,
        0x6e,
        0x73,
        0x66,
        0x65,
        0x72,
        0x2d,
        0x65,
        0x6e,
        0x63,
        0x6f,
        0x64,
        0x69,
        0x6e,
        0x67,
    ]
}

pub open spec fn spec_chunked_token() -> Seq<u8> {
    seq![0x63u8, 0x68, 0x75, 0x6e, 0x6b, 0x65, 0x64]
}

pub open spec fn spec_expect_name() -> Seq<u8> {
    seq![0x65u8, 0x78, 0x70, 0x65, 0x63, 0x74]
}

pub open spec fn spec_continue_token() -> Seq<u8> {
    seq![0x31u8, 0x30, 0x30, 0x2d, 0x63, 0x6f, 0x6e, 0x74, 0x69, 0x6e, 0x75, 0x65]
}

pub open spec fn spec_upgrade_name() -> Seq<u8> {
    seq![0x75u8, 0x70, 0x67, 0x72, 0x61, 0x64, 0x65]
}

/// "content-length"
pub fn content_length_name() -> (r: Vec<u8>)
    ensures
        r@ == spec_content_length_name(),
{
    let v: Vec<u8> = vec![0x63u8, 0x6f, 0x6e, 0x74, 0x65, 0x6e, 0x74, 0x2d, 0x6c, 0x65, 0x6e, 0x67, 0x74, 0x68];
    proof {
        assert(v@ =~= spec_content_length_name());
    }
    v
}

/// "transfer-encoding"
pub fn transfer_encoding_name() -> (r: Vec<u8>)
    ensures
        r@ == spec_transfer_encoding_name(),
{
    let v: Vec<u8> = vec![0x74u8, 0x72, 0x61, 0x6e, 0x73, 0x66, 0x65, 0x72, 0x2d, 0x65, 0x6e, 0x63, 0x6f, 0x64, 0x69, 0x6e, 0x67];
    proof {
        assert(v@ =~= spec_transfer_encoding_name());
    }
    v
}

/// "chunked"
pub fn chunked_token() -> (r: Vec<u8>)
    ensures
        r@ == spec_chunked_token(),
{
    let v: Vec<u8> = vec![0x63u8, 0x68, 0x75, 0x6e, 0x6b, 0x65, 0x64];
    proof {
        assert(v@ =~= spec_chunked_token());
    }
    v
}

/// "expect"
pub fn expect_name() -> (r: Vec<u8>)
    ensures
        r@ == spec_expect_name(),
{
    let v: Vec<u8> = vec![0x65u8, 0x78, 0x70, 0x65, 0x63, 0x74];
    proof {
        assert(v@ =~= spec_expect_name());
    }
    v
}

/// "100-continue"
pub fn continue_token() -> (r: Vec<u8>)
    ensures
        r@ == spec_continue_token(),
{
    let v: Vec<u8> = vec![0x31u8, 0x30, 0x30, 0x2d, 0x63, 0x6f, 0x6e, 0x74, 0x69, 0x6e, 0x75, 0x65];
    proof {
        assert(v@ =~= spec_continue_token());
    }
    v
}

/// "upgrade"
pub fn upgrade_name() -> (r: Vec<u8>)
    ensures
        r@ == spec_upgrade_name(),
{
    let v: Vec<u8> = vec![0x75u8, 0x70, 0x67, 0x72, 0x61, 0x64, 0x65];
    proof {
        assert(v@ =~= spec_upgrade_name());
    }
    v
}

/// Body framing decided from the head: an `upgrade` header is unsupported;
/// `transfer-encoding` must be exactly `chunked`; otherwise `content-length`
/// gives a fixed length; otherwise an HTTP/1.0 request reads until end of
/// stream and an HTTP/1.1 request has no body.  The error is the status code
/// of the rejection.
pub open spec fn spec_body_kind(h: HeadView) -> Result<BodyKind, u16> {
    if spec_header_lookup(h.headers, spec_upgrade_name()) is Some {
        Result::Err(400u16)
    } else {
        match spec_header_lookup(h.headers, spec_transfer_encoding_name()) {
            Some(te) => if lower_seq(te) == spec_chunked_token() {
                Result::Ok(BodyKind::Chunked)
            } else {
                Result::Err(400u16)
            },
            None => match spec_header_lookup(h.headers, spec_content_length_name()) {
                Some(cl) => match spec_parse_dec(cl) {
                    Some(x) => Result::Ok(BodyKind::Fixed(x)),
                    None => Result::Err(400u16),
                },
                None => if h.version == Version::Http10 {
                    Result::Ok(BodyKind::Eof)
                } else {
                    Result::Ok(BodyKind::Fixed(0))
                },
            },
        }
    }
}

pub fn body_kind(head: &Head) -> (r: Result<BodyKind, u16>)
    ensures
        r == spec_body_kind(head@),
{
    let upgrade = upgrade_name();
    if header_lookup(head, &upgrade).is_some() {
        return Result::Err(400);
    }
    let te_name = transfer_encoding_name();
    match header_lookup(head, &te_name) {
        Some(te) => {
            let chunked = chunked_token();
            if vec_lower_eq(&te, &chunked) {
                Result::Ok(BodyKind::Chunked)
            } else {
                Result::Err(400)
            }
        },
        None => {
            let cl_name = content_length_name();
            match header_lookup(head, &cl_name) {
                Some(cl) => match parse_dec(&cl) {
                    Some(x) => Result::Ok(BodyKind::Fixed(x)),
                    None => Result::Err(400),
                },
                None => {
                    if matches!(head.version, Version::Http10) {
                        Result::Ok(BodyKind::Eof)
                    } else {
                        Result::Ok(BodyKind::Fixed(0))
                    }
                },
            }
        },
    }
}

/// Whether the head carries `Expect: 100-continue` (case-insensitive).
pub open spec fn spec_has_expect_continue(h: HeadView) -> bool {
    match spec_header_lookup(h.headers, spec_expect_name()) {
        Some(v) => lower_seq(v) == spec_continue_token(),
        None => false,
    }
}

pub fn has_expect_continue(head: &Head) -> (r: bool)
    ensures
        r == spec_has_expect_continue(head@),
{
    let name = expect_name();
    match header_lookup(head, &name) {
        Some(v) => {
            let tok = continue_token();
            vec_lower_eq(&v, &tok)
        },
        None => false,
    }
}

pub fn parse_head(v: &Vec<u8>) -> (r: Option<Head>)
    ensures
        r is Some <==> spec_parse_head(v@) is Some,
        r matches Some(h) ==> spec_parse_head(v@) == Some(h@),
{
    let lo = skip_crlf(v, 0);
    match find_crlf(v, lo) {
        None => None,
        Some(e) => {
            let n = v.len();
            assert(e + 2 <= n);
            match parse_reqline(v, lo, e) {
                None => None,
                Some((m, path, ver)) => match parse_fields(v, e + 2) {
                    None => None,
                    Some(hs) => Some(Head { method: m, path, version: ver, headers: hs }),
                },
            }
        },
    }
}

} // verus!
