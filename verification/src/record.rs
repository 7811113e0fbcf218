//! Where one TLS record ends and the next begins.
//!
//! A record is a header of five bytes and a payload; the last two bytes of
//! the header hold the length of the payload, high byte first.  The engine
//! is fed one record at a time, so that it never has more than one to
//! process.

use vstd::prelude::*;

verus! {

/// The length of a record header.
pub const HEADER_LEN: usize = 5;

/// The length of the record that begins with `bytes`, header and payload.
/// While the header is not complete, all that is known is that the record
/// is no shorter than a header.
pub open spec fn record_span(bytes: Seq<u8>) -> nat {
    if bytes.len() < 5 {
        5
    } else {
        (5 + bytes[3] as nat * 256 + bytes[4] as nat) as nat
    }
}

/// Whether `bytes` are a whole record, and no more.
pub open spec fn is_whole_record(bytes: Seq<u8>) -> bool {
    bytes.len() >= 5 && bytes.len() == record_span(bytes)
}

/// Whether `bytes` are a record or the beginning of one, and no more.
pub open spec fn one_record_at_most(bytes: Seq<u8>) -> bool {
    bytes.len() <= record_span(bytes)
}

/// What is left of `bytes` when the whole records are taken from its front,
/// if it holds one record at most: nothing of a whole record, and all of a
/// record that is not complete.
pub open spec fn left_after(bytes: Seq<u8>) -> Seq<u8> {
    if is_whole_record(bytes) {
        Seq::empty()
    } else {
        bytes
    }
}

/// The length of the record that begins with `bytes`, if `bytes` hold its
/// header.
pub fn record_len(bytes: &[u8]) -> (r: Option<usize>)
    ensures
        bytes@.len() < 5 ==> r is None,
        bytes@.len() >= 5 ==> r == Some(record_span(bytes@) as usize),
        r matches Some(n) ==> 5 <= n <= 65540,
{
    if bytes.len() < HEADER_LEN {
        None
    } else {
        let high: usize = bytes[3] as usize;
        let low: usize = bytes[4] as usize;
        Some(HEADER_LEN + high * 256 + low)
    }
}

/// The header decides the length: what follows it changes nothing.
pub proof fn lemma_span_of_more(head: Seq<u8>, more: Seq<u8>)
    requires
        head.len() >= 5,
    ensures
        record_span(head + more) == record_span(head),
{
    assert((head + more)[3] == head[3]);
    assert((head + more)[4] == head[4]);
}

} // verus!
