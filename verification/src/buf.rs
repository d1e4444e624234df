//! Trusted view of the `netbuf` byte queue.
//!
//! The transport hands the parser its input and output queues as
//! `netbuf::Buf` values.  The queue is opaque to the verifier, so its
//! contents are named by the uninterpreted function [`buf_bytes`], and each
//! queue operation the parser needs is wrapped in a function whose contract
//! states, over that name, what the operation does to the contents.

use vstd::prelude::*;

verus! {

/// The bytes a `netbuf::Buf` currently holds, oldest first.
pub uninterp spec fn buf_bytes(b: netbuf::Buf) -> Seq<u8>;

#[verifier::external_type_specification]
#[verifier::external_body]
pub struct ExBuf(netbuf::Buf);

/// Relies on `netbuf::Buf::len`: the number of useful bytes in the buffer.
#[verifier::external_body]
pub fn buf_len(b: &netbuf::Buf) -> (r: usize)
    ensures
        r == buf_bytes(*b).len(),
{
    b.len()
}

/// Relies on `netbuf::Buf::consume`: marks the first `n` bytes as read,
/// shaving them off the front of the buffer.  Panics when `n` exceeds the
/// length, so that case is excluded here.
#[verifier::external_body]
pub fn buf_consume(b: &mut netbuf::Buf, n: usize)
    requires
        n <= buf_bytes(*old(b)).len(),
    ensures
        buf_bytes(*final(b)) == buf_bytes(*old(b)).skip(n as int),
{
    b.consume(n)
}

/// Relies on `netbuf::Buf::remove_range`: removes the bytes at `lo..hi`,
/// keeping what stands before and after.  Panics on a range outside the
/// buffer, so that case is excluded here.
#[verifier::external_body]
pub fn buf_remove_range(b: &mut netbuf::Buf, lo: usize, hi: usize)
    requires
        lo <= hi,
        hi <= buf_bytes(*old(b)).len(),
    ensures
        buf_bytes(*final(b)) == buf_bytes(*old(b)).take(lo as int) + buf_bytes(*old(b)).skip(
            hi as int,
        ),
{
    b.remove_range(lo..hi)
}

/// Relies on `netbuf::Buf::extend`: appends the given bytes at the end of
/// the buffer.
#[verifier::external_body]
pub fn buf_extend(b: &mut netbuf::Buf, data: &[u8])
    ensures
        buf_bytes(*final(b)) == buf_bytes(*old(b)) + data@,
{
    b.extend(data)
}

/// Relies on netbuf's `Index<Range<usize>>` impl: `&b[lo..hi]` are the
/// buffered bytes at positions `lo..hi`; they are copied out with
/// `<[u8]>::to_vec`.  The indexing panics on a range outside the buffer, so
/// that case is excluded here.
#[verifier::external_body]
pub fn buf_range_vec(b: &netbuf::Buf, lo: usize, hi: usize) -> (r: Vec<u8>)
    requires
        lo <= hi,
        hi <= buf_bytes(*b).len(),
    ensures
        r@ == buf_bytes(*b).subrange(lo as int, hi as int),
{
    b[lo..hi].to_vec()
}

} // verus!
